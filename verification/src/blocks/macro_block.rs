use vstd::prelude::*;
use crate::blocks::is_block::{ContentModel, IsBlock};
use crate::blocks::block::Block;
use crate::content::{GroupView, SubstitutionGroup};

use crate::attributes::attrlist::{Attrlist, AttrlistView, al_parse, lemma_warnings_at};
use crate::attributes::element_attribute::AttrlistContext;
use crate::blocks::layout::{before, consumed, lemma_past_blank_lines, past_blank_lines};
use crate::blocks::macro_line::{MacroLine, MacroLineView, macro_line, parse_macro_line};
use crate::blocks::metadata::{BlockHeader, BlockMetadata, HeaderView, lemma_skip_is_suffix};
use crate::blocks::raw_delimited::next_line;
use crate::parser::Parser;
use crate::span::{
    MatchedItem, Span, SpanView, lemma_empty_lines_len, lemma_line_lens, lemma_run_len,
    lemma_skip_wf, lemma_trimmed_len, line_after_len, normalized_line_len, trailing_ws_pred,
    trim_len, empty_lines_len,
};
use crate::warnings::{MatchAndWarnings, Warning, WarningType, all_at, warning_views};

verus! {

/// What parsing a block macro line gives: the macro's name, target (if not
/// empty) and attribute list source when the line is one, and the warnings.
pub open spec fn block_macro_line(line: SpanView) -> (Option<(SpanView, Option<SpanView>, SpanView)>, Seq<(SpanView, WarningType)>) {
    match macro_line(line) {
        MacroLineView::NotMacro => (None, Seq::empty()),
        MacroLineView::NoName => (None, seq![(line, WarningType::InvalidMacroName)]),
        MacroLineView::NoColons { name, rest } => (None, seq![(rest, WarningType::MacroMissingDoubleColon)]),
        MacroLineView::NoAttrlist { name, target, after_target } => (
            None,
            seq![(after_target, WarningType::MacroMissingAttributeList)],
        ),
        MacroLineView::Complete { name, target, after_target, attrlist } => (
            Some((name, if target.len() == 0 { None } else { Some(target) }, attrlist)),
            Seq::empty(),
        ),
    }
}

pub struct MacroView {
    pub name: SpanView,
    pub target: Option<SpanView>,
    pub macro_attrlist: AttrlistView,
    pub source: SpanView,
    pub header: HeaderView,
}

/// A macro block can be used in a block context to create a new block
/// element: the block form of a *named macro*,
/// `<name>::<target>?[<attrlist>?]`.
#[derive(Debug)]
pub struct MacroBlock {
    name: Span,
    target: Option<Span>,
    macro_attrlist: Attrlist,
    source: Span,
    header: BlockHeader,
}

impl View for MacroBlock {
    type V = MacroView;

    closed spec fn view(&self) -> MacroView {
        MacroView {
            name: self.name@,
            target: match self.target {
                Some(t) => Some(t@),
                None => None,
            },
            macro_attrlist: self.macro_attrlist@,
            source: self.source@,
            header: self.header@,
        }
    }
}

fn one_warning(source: Span, warning: WarningType) -> (r: Vec<Warning>)
    ensures
        warning_views(r@) == seq![(source@, warning)],
{
    let mut w: Vec<Warning> = Vec::new();
    w.push(Warning { source, warning });
    assert(warning_views(w@) =~= seq![(source@, warning)]);
    w
}

impl MacroBlock {
    /// Parses a block macro line (`name::target[attrlist]`) of any name.
    pub fn parse(metadata: &BlockMetadata, parser: &Parser) -> (r: MatchAndWarnings<Option<MatchedItem<MacroBlock>>>)
        requires
            metadata.wf(),
        ensures
            ({
                let bs = metadata.block_start@;
                let line = bs.sub(0, normalized_line_len(bs.data));
                let m = block_macro_line(line);
                let src = before(metadata.source@, next_line(bs));
                &&& r.item is Some == m.0 is Some
                &&& m.0 is None ==> warning_views(r.warnings@) == m.1
                &&& r.item matches Some(mi) ==> {
                    let (name, target, al) = m.0->0;
                    let p = al_parse(al.data, parser@.attributes, AttrlistContext::Inline);
                    &&& mi.item@.name == name
                    &&& mi.item@.target == target
                    &&& mi.item@.macro_attrlist == (AttrlistView { attributes: p.0, anchor: p.1, source: al })
                    &&& mi.item@.source == src.sub(0, trim_len(src.data))
                    &&& mi.item@.header == metadata.header_view()
                    &&& mi.after@ == past_blank_lines(next_line(bs))
                    &&& consumed(mi.after@, bs)
                    &&& warning_views(r.warnings@) == all_at(al, p.2)
                }
            }),
    {
        let line = metadata.block_start.take_normalized_line();
        let ghost bs = metadata.block_start@;
        proof {
            lemma_line_lens(bs.data);
        }
        let parts = parse_macro_line(&line.item);
        match parts {
            MacroLine::NotMacro => {
                let none = MatchAndWarnings { item: None, warnings: Vec::new() };
                assert(warning_views(none.warnings@) =~= Seq::<(SpanView, WarningType)>::empty());
                none
            },
            MacroLine::NoName => MatchAndWarnings {
                item: None,
                warnings: one_warning(line.item, WarningType::InvalidMacroName),
            },
            MacroLine::NoColons { name, rest } => MatchAndWarnings {
                item: None,
                warnings: one_warning(rest, WarningType::MacroMissingDoubleColon),
            },
            MacroLine::NoAttrlist { name, target, after_target } => MatchAndWarnings {
                item: None,
                warnings: one_warning(after_target, WarningType::MacroMissingAttributeList),
            },
            MacroLine::Complete { name, target, after_target, attrlist } => {
                let maw = Attrlist::parse(&attrlist, parser, AttrlistContext::Inline);
                proof {
                    lemma_warnings_at(
                        maw.warnings@,
                        attrlist@,
                        al_parse(attrlist@.data, parser@.attributes, AttrlistContext::Inline).2,
                    );
                    assert(normalized_line_len(bs.data) > 0);
                    lemma_skip_is_suffix(bs, line_after_len(bs.data));
                    lemma_past_blank_lines(line.after@, bs);
                    lemma_empty_lines_len(line.after@.data);
                    lemma_skip_wf(line.after@, empty_lines_len(line.after@.data));
                }
                let source = metadata.source.trim_remainder(&line.after);
                proof {
                    lemma_trimmed_len(source@.data, trailing_ws_pred());
                    lemma_run_len(source@.data, trailing_ws_pred());
                }
                let source = source.slice_to(source.trim_len());
                let target = if target.is_empty() {
                    None
                } else {
                    Some(target)
                };
                MatchAndWarnings {
                    item: Some(MatchedItem {
                        item: MacroBlock {
                            name,
                            target,
                            macro_attrlist: maw.item.item,
                            source,
                            header: metadata.header(),
                        },
                        after: line.after.discard_empty_lines(),
                    }),
                    warnings: maw.warnings,
                }
            },
        }
    }

    /// Returns the macro name.
    pub fn name(&self) -> (r: &Span)
        ensures
            r@ == self@.name,
    {
        &self.name
    }

    /// Returns the macro target, if not empty.
    pub fn target(&self) -> (r: Option<&Span>)
        ensures
            r is Some == self@.target is Some,
            r matches Some(t) ==> self@.target == Some(t@),
    {
        self.target.as_ref()
    }

    /// Returns the attribute list within the macro itself (not the one that
    /// may precede the macro line).
    pub fn macro_attrlist(&self) -> (r: &Attrlist)
        ensures
            r@ == self@.macro_attrlist,
    {
        &self.macro_attrlist
    }

    /// Returns the source text of this block.
    pub fn span(&self) -> (r: &Span)
        ensures
            r@ == self@.source,
    {
        &self.source
    }

    /// Returns the title, anchor and attribute list of this block.
    pub fn header(&self) -> (r: &BlockHeader)
        ensures
            r@ == self@.header,
    {
        &self.header
    }
}


impl IsBlock for MacroBlock {
    open spec fn block_header(&self) -> HeaderView {
        self@.header
    }

    open spec fn fallback_id(&self) -> Option<Seq<char>> {
        None
    }

    open spec fn block_model(&self) -> ContentModel {
        ContentModel::Simple
    }

    open spec fn block_context(&self) -> Seq<char> {
        "paragraph"@
    }

    open spec fn block_nested(&self) -> Seq<Block> {
        Seq::empty()
    }

    open spec fn block_rendered(&self) -> Option<Seq<char>> {
        None
    }

    open spec fn block_group(&self) -> GroupView {
        GroupView::Normal
    }

    fn content_model(&self) -> (r: ContentModel) {
        ContentModel::Simple
    }

    fn raw_context(&self) -> (r: &str) {
        "paragraph"
    }

    fn nested_blocks(&self) -> (r: &[Block]) {
        &[]
    }

    fn title_source(&self) -> (r: Option<&Span>) {
        self.header().title_source()
    }

    fn title(&self) -> (r: Option<&str>) {
        self.header().title()
    }

    fn anchor(&self) -> (r: Option<&Span>) {
        self.header().anchor()
    }

    fn anchor_reftext(&self) -> (r: Option<&Span>) {
        self.header().anchor_reftext()
    }

    fn attrlist(&self) -> (r: Option<&Attrlist>) {
        self.header().attrlist()
    }

    fn generated_id(&self) -> (r: Option<&str>) {
        None
    }

    fn rendered_content(&self) -> (r: Option<&str>) {
        None
    }

    fn substitution_group(&self) -> (r: SubstitutionGroup) {
        SubstitutionGroup::Normal
    }
}

} // verus!
