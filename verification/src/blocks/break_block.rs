use vstd::prelude::*;
use crate::blocks::is_block::{ContentModel, IsBlock};
use crate::attributes::attrlist::Attrlist;
use crate::blocks::block::Block;
use crate::content::{GroupView, SubstitutionGroup};

use crate::blocks::layout::{before, consumed, lemma_past_blank_lines, past_blank_lines};
use crate::blocks::metadata::{
    BlockHeader, BlockMetadata, HeaderView, MetadataView, lemma_skip_is_suffix,
};
use crate::parser::Parser;
use crate::span::{
    MatchedItem, Span, SpanView, empty_lines_len, lemma_empty_lines_len, lemma_line_lens,
    lemma_skip_skip, line_after_len, normalized_line_len, trim_len,
};
use crate::text::str_eq;

verus! {

/// A break may be one of two different types.
#[derive(Clone, Copy, Debug, PartialEq, Eq, Structural)]
pub enum BreakType {
    /// A thematic break (aka horizontal rule).
    Thematic,
    /// A hint to the converter to insert a page break.
    Page,
}

/// The kind of break that a (normalized) line denotes, if any.
pub open spec fn break_type_of(line: Seq<char>) -> Option<BreakType> {
    if line == "'''"@ || line == "---"@ || line == "- - -"@ || line == "***"@ || line == "* * *"@ {
        Some(BreakType::Thematic)
    } else if line == "<<<"@ {
        Some(BreakType::Page)
    } else {
        None
    }
}

pub struct BreakView {
    pub type_: BreakType,
    pub source: SpanView,
    pub header: HeaderView,
}

/// A break block is used to represent a thematic or page break macro.
#[derive(Debug)]
pub struct Break {
    type_: BreakType,
    source: Span,
    header: BlockHeader,
}

impl View for Break {
    type V = BreakView;

    closed spec fn view(&self) -> BreakView {
        BreakView { type_: self.type_, source: self.source@, header: self.header@ }
    }
}

/// The break that the metadata `md` introduces and where reading resumes
/// (past blank lines), if its first line is a break.
pub open spec fn break_of(md: MetadataView) -> Option<(BreakView, SpanView)> {
    let bs = md.block_start;
    let line = bs.sub(0, normalized_line_len(bs.data));
    let line_after = bs.skip(line_after_len(bs.data));
    let src = before(md.source, line_after);
    match break_type_of(line.data) {
        Some(t) => Some(
            (
                BreakView { type_: t, source: src.sub(0, trim_len(src.data)), header: md.header },
                past_blank_lines(line_after),
            ),
        ),
        None => None,
    }
}

impl Break {
    /// Parses a thematic break (`'''`, `---`, `- - -`, `***`, `* * *`) or a
    /// page break (`<<<`) line.
    pub fn parse(metadata: &BlockMetadata, parser: &Parser) -> (r: Option<MatchedItem<Break>>)
        requires
            metadata.wf(),
        ensures
            match break_of(metadata.md_view()) {
                Some((v, after)) => r matches Some(mi) && mi.item@ == v && mi.after@ == after,
                None => r is None,
            },
            r matches Some(mi) ==> consumed(mi.after@, metadata.block_start@),
    {
        let line = metadata.block_start.take_normalized_line();
        let data = line.item.data();
        let type_ = if str_eq(data, "'''") || str_eq(data, "---") || str_eq(data, "- - -")
            || str_eq(data, "***") || str_eq(data, "* * *") {
            BreakType::Thematic
        } else if str_eq(data, "<<<") {
            BreakType::Page
        } else {
            return None;
        };
        proof {
            let bs = metadata.block_start@;
            lemma_line_lens(bs.data);
            reveal_strlit("'''");
            reveal_strlit("---");
            reveal_strlit("- - -");
            reveal_strlit("***");
            reveal_strlit("* * *");
            reveal_strlit("<<<");
            assert(normalized_line_len(bs.data) > 0);
            lemma_skip_is_suffix(bs, line_after_len(bs.data));
            lemma_past_blank_lines(line.after@, bs);
            lemma_empty_lines_len(line.after@.data);
            lemma_skip_skip(bs, line_after_len(bs.data), empty_lines_len(line.after@.data));
            crate::span::lemma_skip_wf(line.after@, empty_lines_len(line.after@.data));
        }
        let source = metadata.source.trim_remainder(&line.after);
        proof {
            crate::span::lemma_trimmed_len(source@.data, crate::span::trailing_ws_pred());
            crate::span::lemma_run_len(source@.data, crate::span::trailing_ws_pred());
        }
        let source = source.slice_to(source.trim_len());
        Some(MatchedItem {
            item: Break { type_, source, header: metadata.header() },
            after: line.after.discard_empty_lines(),
        })
    }

    /// Returns the kind of break.
    pub fn type_(&self) -> (r: BreakType)
        ensures
            r == self@.type_,
    {
        self.type_
    }

    /// Returns the source text of this block.
    pub fn span(&self) -> (r: &Span)
        ensures
            r@ == self@.source,
    {
        &self.source
    }

    /// Returns the title, anchor and attribute list of this block.
    pub fn header(&self) -> (r: &BlockHeader)
        ensures
            r@ == self@.header,
    {
        &self.header
    }
}


impl IsBlock for Break {
    open spec fn block_header(&self) -> HeaderView {
        self@.header
    }

    open spec fn fallback_id(&self) -> Option<Seq<char>> {
        None
    }

    open spec fn block_model(&self) -> ContentModel {
        ContentModel::Empty
    }

    open spec fn block_context(&self) -> Seq<char> {
        match self@.type_ {
            BreakType::Thematic => "thematic_break"@,
            BreakType::Page => "page_break"@,
        }
    }

    open spec fn block_nested(&self) -> Seq<Block> {
        Seq::empty()
    }

    open spec fn block_rendered(&self) -> Option<Seq<char>> {
        None
    }

    open spec fn block_group(&self) -> GroupView {
        GroupView::Normal
    }

    fn content_model(&self) -> (r: ContentModel) {
        ContentModel::Empty
    }

    fn raw_context(&self) -> (r: &str) {
        match self.type_ {
            BreakType::Thematic => "thematic_break",
            BreakType::Page => "page_break",
        }
    }

    fn nested_blocks(&self) -> (r: &[Block]) {
        &[]
    }

    fn title_source(&self) -> (r: Option<&Span>) {
        self.header().title_source()
    }

    fn title(&self) -> (r: Option<&str>) {
        self.header().title()
    }

    fn anchor(&self) -> (r: Option<&Span>) {
        self.header().anchor()
    }

    fn anchor_reftext(&self) -> (r: Option<&Span>) {
        self.header().anchor_reftext()
    }

    fn attrlist(&self) -> (r: Option<&Attrlist>) {
        self.header().attrlist()
    }

    fn generated_id(&self) -> (r: Option<&str>) {
        None
    }

    fn rendered_content(&self) -> (r: Option<&str>) {
        None
    }

    fn substitution_group(&self) -> (r: SubstitutionGroup) {
        SubstitutionGroup::Normal
    }
}

} // verus!
