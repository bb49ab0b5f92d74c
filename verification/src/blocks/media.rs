use vstd::prelude::*;
use crate::blocks::is_block::{ContentModel, IsBlock};
use crate::blocks::block::Block;
use crate::content::{GroupView, SubstitutionGroup};

use crate::attributes::attrlist::{Attrlist, AttrlistView, al_parse, lemma_warnings_at};
use crate::attributes::element_attribute::AttrlistContext;
use crate::blocks::layout::{before, consumed, lemma_past_blank_lines, past_blank_lines};
use crate::blocks::macro_line::{MacroLine, MacroLineView, macro_line, parse_macro_line};
use crate::blocks::metadata::{
    BlockHeader, BlockMetadata, HeaderView, MetadataView, lemma_md_loop_first, lemma_md_loop_suffix,
    lemma_skip_is_suffix, metadata_of_source,
};
use crate::blocks::raw_delimited::next_line;
use crate::parser::Parser;
use crate::span::{
    MatchedItem, Span, SpanView, lemma_empty_lines_len, lemma_line_lens, lemma_run_len,
    lemma_skip_wf, lemma_trimmed_len, line_after_len, normalized_line_len, trailing_ws_pred,
    trim_len, empty_lines_len, ident_len, is_trailing_ws, not_char, run_len, seq_contains_seq,
};
use crate::text::str_eq;
use crate::warnings::{MatchAndWarnings, Warning, WarningType, all_at, warning_views};

verus! {

/// A media type may be one of three different types.
#[derive(Clone, Copy, Debug, PartialEq, Eq, Structural)]
pub enum MediaType {
    /// Still image
    Image,
    /// Video
    Video,
    /// Audio
    Audio,
}

/// The media type that a macro name denotes, if any.
pub open spec fn media_type_of(name: Seq<char>) -> Option<MediaType> {
    if name == "image"@ {
        Some(MediaType::Image)
    } else if name == "video"@ {
        Some(MediaType::Video)
    } else if name == "audio"@ {
        Some(MediaType::Audio)
    } else {
        None
    }
}

/// The context of a media block of type `t`.
pub open spec fn media_context(t: MediaType) -> Seq<char> {
    match t {
        MediaType::Image => "image"@,
        MediaType::Video => "video"@,
        MediaType::Audio => "audio"@,
    }
}

pub struct MediaView {
    pub type_: MediaType,
    pub target: SpanView,
    pub macro_attrlist: AttrlistView,
    pub source: SpanView,
    pub header: HeaderView,
}

/// What parsing a media block macro line gives: the block's type, target
/// and attribute list source when it is one, and the warnings.
pub open spec fn media_line(line: SpanView) -> (Option<(MediaType, SpanView, SpanView)>, Seq<(SpanView, WarningType)>) {
    match macro_line(line) {
        MacroLineView::NotMacro | MacroLineView::NoName => (None, Seq::empty()),
        MacroLineView::NoColons { name, rest } => if media_type_of(name.data) is None {
            (None, Seq::empty())
        } else {
            (None, seq![(rest, WarningType::MacroMissingDoubleColon)])
        },
        MacroLineView::NoAttrlist { name, target, after_target } => if media_type_of(name.data) is None {
            (None, Seq::empty())
        } else if target.len() == 0 {
            (None, seq![(after_target, WarningType::MediaMacroMissingTarget)])
        } else {
            (None, seq![(after_target, WarningType::MacroMissingAttributeList)])
        },
        MacroLineView::Complete { name, target, after_target, attrlist } => if media_type_of(name.data) is None {
            (None, Seq::empty())
        } else if target.len() == 0 {
            (None, seq![(after_target, WarningType::MediaMacroMissingTarget)])
        } else {
            (Some((media_type_of(name.data)->0, target, attrlist)), Seq::empty())
        },
    }
}

/// A media block is used to represent an image, video, or audio block
/// macro.
#[derive(Debug)]
pub struct MediaBlock {
    type_: MediaType,
    target: Span,
    macro_attrlist: Attrlist,
    source: Span,
    header: BlockHeader,
}

impl View for MediaBlock {
    type V = MediaView;

    closed spec fn view(&self) -> MediaView {
        MediaView {
            type_: self.type_,
            target: self.target@,
            macro_attrlist: self.macro_attrlist@,
            source: self.source@,
            header: self.header@,
        }
    }
}

fn media_type_exec(name: &str) -> (r: Option<MediaType>)
    ensures
        r == media_type_of(name@),
{
    if str_eq(name, "image") {
        Some(MediaType::Image)
    } else if str_eq(name, "video") {
        Some(MediaType::Video)
    } else if str_eq(name, "audio") {
        Some(MediaType::Audio)
    } else {
        None
    }
}

fn one_warning(source: Span, warning: WarningType) -> (r: Vec<Warning>)
    ensures
        warning_views(r@) == seq![(source@, warning)],
{
    let mut w: Vec<Warning> = Vec::new();
    w.push(Warning { source, warning });
    assert(warning_views(w@) =~= seq![(source@, warning)]);
    w
}

/// The media block that the metadata `md` introduces and where reading
/// resumes (past blank lines), if its first line is a media block macro,
/// and the warnings.
pub open spec fn media_block_of(md: MetadataView, attrs: Seq<(Seq<char>, Option<Seq<char>>)>) -> (
    Option<(MediaView, SpanView)>,
    Seq<(SpanView, WarningType)>,
) {
    let bs = md.block_start;
    let line = bs.sub(0, normalized_line_len(bs.data));
    let m = media_line(line);
    let src = before(md.source, next_line(bs));
    match m.0 {
        Some((t, target, al)) => {
            let p = al_parse(al.data, attrs, AttrlistContext::Inline);
            (
                Some(
                    (
                        MediaView {
                            type_: t,
                            target,
                            macro_attrlist: AttrlistView { attributes: p.0, anchor: p.1, source: al },
                            source: src.sub(0, trim_len(src.data)),
                            header: md.header,
                        },
                        past_blank_lines(next_line(bs)),
                    ),
                ),
                all_at(al, p.2),
            )
        },
        None => (None, m.1),
    }
}

/// A media block's target is not empty, holds no `[`, and stands in its
/// macro line (the first line of the block proper) between `::` and `[`.
pub proof fn lemma_media_target(md: MetadataView, attrs: Seq<(Seq<char>, Option<Seq<char>>)>)
    requires
        media_block_of(md, attrs).0 is Some,
    ensures
        match media_block_of(md, attrs).0 {
            Some((v, _)) => {
                let line = md.block_start.sub(0, normalized_line_len(md.block_start.data));
                &&& v.target.len() > 0
                &&& !v.target.data.contains('[')
                &&& seq_contains_seq(line.data, "::"@ + v.target.data + "["@)
                &&& line.len() > 0 && (crate::span::is_ascii_alpha(line.data[0]) || line.data[0] == '_')
            },
            None => false,
        },
{
    let bs = md.block_start;
    let line = bs.sub(0, normalized_line_len(bs.data));
    let k = ident_len(line.data);
    let rest = line.skip(k);
    let after_colons = rest.skip(2);
    let t = run_len(after_colons.data, not_char('['));
    lemma_run_len(after_colons.data, not_char('['));
    let target = after_colons.sub(0, t);
    let after_target = after_colons.skip(t);
    reveal_strlit("::");
    reveal_strlit("[");
    assert(macro_line(line) is Complete);
    if line.data.len() > 0 && (crate::span::is_ascii_alpha(line.data[0]) || line.data[0] == '_') {
        lemma_run_len(line.data.skip(1), crate::span::word_pred());
    }
    assert(0 < k <= line.len());
    assert(rest.starts_with("::"@));
    assert(after_target.starts_with("["@));
    assert(rest.data == line.data.skip(k));
    assert(after_colons.data == line.data.skip(k + 2));
    assert(0 <= t && t + 1 <= after_colons.len());
    let p = "::"@ + target.data + "["@;
    assert forall|j: int| 0 <= j < p.len() implies #[trigger] line.data.subrange(k, k + p.len())[j] == p[j] by {
        if j < 2 {
            assert(rest.data.take(2)[j] == "::"@[j]);
        } else if j < 2 + t {
            assert(target.data[j - 2] == after_colons.data[j - 2]);
        } else {
            assert(after_target.data.take(1)[0] == "["@[0]);
            assert(after_target.data[0] == after_colons.data[t]);
        }
    }
    assert(line.data.subrange(k, k + p.len()) =~= p);
    assert forall|j: int| 0 <= j < target.data.len() implies target.data[j] != '[' by {
        assert(target.data[j] == after_colons.data[j]);
    }
}

/// The source of a media block holds `::`, its target and `[`, wherever
/// the metadata's source does not start with whitespace (the source is cut
/// to the length it has once trimmed, so leading whitespace in front of
/// metadata lines would cut the end of the macro line off).
pub proof fn lemma_media_span_holds_target(md: MetadataView, attrs: Seq<(Seq<char>, Option<Seq<char>>)>)
    requires
        md.block_start.is_suffix_of(md.source),
        md.source.len() > 0 && !is_trailing_ws(md.source.data[0]),
        media_block_of(md, attrs).0 is Some,
    ensures
        match media_block_of(md, attrs).0 {
            Some((v, _)) => seq_contains_seq(v.source.data, "::"@ + v.target.data + "["@),
            None => false,
        },
{
    let v = media_block_of(md, attrs).0.unwrap().0;
    let bs = md.block_start;
    let nl = normalized_line_len(bs.data);
    let line = bs.sub(0, nl);
    let pat = "::"@ + v.target.data + "["@;
    lemma_media_target(md, attrs);
    lemma_line_lens(bs.data);
    let d = md.source.len() - bs.len();
    let la = line_after_len(bs.data);
    assert(bs.data =~= md.source.data.skip(d));
    let src = before(md.source, next_line(bs));
    assert(src.data =~= md.source.data.take(d + la));
    let i = choose|i: int| 0 <= i && i + pat.len() <= line.data.len() && #[trigger] line.data.subrange(i, i + pat.len()) == pat;
    assert(src.data.subrange(d + i, d + i + pat.len()) =~= line.data.subrange(i, i + pat.len()));
    assert(src.data[0] == md.source.data[0]);
    assert(run_len(src.data, trailing_ws_pred()) == 0);
    lemma_trimmed_len(src.data, trailing_ws_pred());
    let e = d + i + pat.len() - 1;
    reveal_strlit("[");
    assert(pat[pat.len() - 1] == '[');
    assert(src.data[e] == '[');
    assert(!trailing_ws_pred()(src.data[e]));
    let t = trim_len(src.data);
    assert(e < t);
    assert(v.source.data =~= src.data.subrange(0, t));
    assert(v.source.data.subrange(d + i, d + i + pat.len()) =~= pat);
}

/// The source of a media block whose metadata was read at `s` holds `::`,
/// its target and `[`.
pub proof fn lemma_media_source_holds_target(s: SpanView, attrs: Seq<(Seq<char>, Option<Seq<char>>)>)
    requires
        media_block_of(metadata_of_source(s, attrs), attrs).0 is Some,
    ensures
        match media_block_of(metadata_of_source(s, attrs), attrs).0 {
            Some((v, _)) => seq_contains_seq(v.source.data, "::"@ + v.target.data + "["@),
            None => false,
        },
{
    let md = metadata_of_source(s, attrs);
    let bs = md.block_start;
    let line = bs.sub(0, normalized_line_len(bs.data));
    lemma_media_target(md, attrs);
    lemma_line_lens(bs.data);
    lemma_md_loop_suffix(md.source, (None, None, None, None), attrs);
    lemma_md_loop_first(md.source, (None, None, None, None), attrs);
    if bs == md.source {
        assert(md.source.data[0] == line.data[0]);
    }
    lemma_media_span_holds_target(md, attrs);
}

impl MediaBlock {
    /// Parses an image, video or audio block macro
    /// (`image::target[attrlist]` and so on).
    pub fn parse(metadata: &BlockMetadata, parser: &Parser) -> (r: MatchAndWarnings<Option<MatchedItem<MediaBlock>>>)
        requires
            metadata.wf(),
        ensures
            ({
                let (v, w) = media_block_of(metadata.md_view(), parser@.attributes);
                &&& warning_views(r.warnings@) == w
                &&& match v {
                    Some((b, after)) => r.item matches Some(mi) && mi.item@ == b && mi.after@ == after,
                    None => r.item is None,
                }
            }),
            r.item matches Some(mi) ==> consumed(mi.after@, metadata.block_start@),
    {
        let line = metadata.block_start.take_normalized_line();
        let ghost bs = metadata.block_start@;
        proof {
            reveal_strlit("image");
            reveal_strlit("video");
            reveal_strlit("audio");
            lemma_line_lens(bs.data);
        }
        let parts = parse_macro_line(&line.item);
        let none = MatchAndWarnings { item: None, warnings: Vec::new() };
        assert(warning_views(none.warnings@) =~= Seq::<(SpanView, WarningType)>::empty());
        match parts {
            MacroLine::NotMacro | MacroLine::NoName => none,
            MacroLine::NoColons { name, rest } => {
                if media_type_exec(name.data()).is_none() {
                    none
                } else {
                    MatchAndWarnings { item: None, warnings: one_warning(rest, WarningType::MacroMissingDoubleColon) }
                }
            },
            MacroLine::NoAttrlist { name, target, after_target } => {
                if media_type_exec(name.data()).is_none() {
                    none
                } else if target.is_empty() {
                    MatchAndWarnings { item: None, warnings: one_warning(after_target, WarningType::MediaMacroMissingTarget) }
                } else {
                    MatchAndWarnings { item: None, warnings: one_warning(after_target, WarningType::MacroMissingAttributeList) }
                }
            },
            MacroLine::Complete { name, target, after_target, attrlist } => {
                let type_ = match media_type_exec(name.data()) {
                    Some(t) => t,
                    None => {
                        return none;
                    },
                };
                if target.is_empty() {
                    return MatchAndWarnings {
                        item: None,
                        warnings: one_warning(after_target, WarningType::MediaMacroMissingTarget),
                    };
                }
                let maw = Attrlist::parse(&attrlist, parser, AttrlistContext::Inline);
                proof {
                    lemma_warnings_at(
                        maw.warnings@,
                        attrlist@,
                        al_parse(attrlist@.data, parser@.attributes, AttrlistContext::Inline).2,
                    );
                    assert(normalized_line_len(bs.data) > 0);
                    lemma_skip_is_suffix(bs, line_after_len(bs.data));
                    lemma_past_blank_lines(line.after@, bs);
                    lemma_empty_lines_len(line.after@.data);
                    lemma_skip_wf(line.after@, empty_lines_len(line.after@.data));
                }
                let source = metadata.source.trim_remainder(&line.after);
                proof {
                    lemma_trimmed_len(source@.data, trailing_ws_pred());
                    lemma_run_len(source@.data, trailing_ws_pred());
                }
                let source = source.slice_to(source.trim_len());
                MatchAndWarnings {
                    item: Some(MatchedItem {
                        item: MediaBlock {
                            type_,
                            target,
                            macro_attrlist: maw.item.item,
                            source,
                            header: metadata.header(),
                        },
                        after: line.after.discard_empty_lines(),
                    }),
                    warnings: maw.warnings,
                }
            },
        }
    }

    /// Returns the media type.
    pub fn type_(&self) -> (r: MediaType)
        ensures
            r == self@.type_,
    {
        self.type_
    }

    /// Returns the macro target.
    pub fn target(&self) -> (r: Option<&Span>)
        ensures
            r matches Some(t) && t@ == self@.target,
    {
        Some(&self.target)
    }

    /// Returns the attribute list within the macro itself (not the one that
    /// may precede the macro line).
    pub fn macro_attrlist(&self) -> (r: &Attrlist)
        ensures
            r@ == self@.macro_attrlist,
    {
        &self.macro_attrlist
    }

    /// Returns the context: `image`, `video` or `audio`.
    pub fn raw_context(&self) -> (r: &str)
        ensures
            r@ == media_context(self@.type_),
    {
        proof {
            reveal_strlit("image");
            reveal_strlit("video");
            reveal_strlit("audio");
        }
        match self.type_ {
            MediaType::Image => "image",
            MediaType::Video => "video",
            MediaType::Audio => "audio",
        }
    }

    /// Returns the source text of this block.
    pub fn span(&self) -> (r: &Span)
        ensures
            r@ == self@.source,
    {
        &self.source
    }

    /// Returns the title, anchor and attribute list of this block.
    pub fn header(&self) -> (r: &BlockHeader)
        ensures
            r@ == self@.header,
    {
        &self.header
    }
}


impl IsBlock for MediaBlock {
    open spec fn block_header(&self) -> HeaderView {
        self@.header
    }

    open spec fn fallback_id(&self) -> Option<Seq<char>> {
        None
    }

    open spec fn block_model(&self) -> ContentModel {
        ContentModel::Empty
    }

    open spec fn block_context(&self) -> Seq<char> {
        media_context(self@.type_)
    }

    open spec fn block_nested(&self) -> Seq<Block> {
        Seq::empty()
    }

    open spec fn block_rendered(&self) -> Option<Seq<char>> {
        None
    }

    open spec fn block_group(&self) -> GroupView {
        GroupView::Normal
    }

    fn content_model(&self) -> (r: ContentModel) {
        ContentModel::Empty
    }

    fn raw_context(&self) -> (r: &str) {
        MediaBlock::raw_context(self)
    }

    fn nested_blocks(&self) -> (r: &[Block]) {
        &[]
    }

    fn title_source(&self) -> (r: Option<&Span>) {
        self.header().title_source()
    }

    fn title(&self) -> (r: Option<&str>) {
        self.header().title()
    }

    fn anchor(&self) -> (r: Option<&Span>) {
        self.header().anchor()
    }

    fn anchor_reftext(&self) -> (r: Option<&Span>) {
        self.header().anchor_reftext()
    }

    fn attrlist(&self) -> (r: Option<&Attrlist>) {
        self.header().attrlist()
    }

    fn generated_id(&self) -> (r: Option<&str>) {
        None
    }

    fn rendered_content(&self) -> (r: Option<&str>) {
        None
    }

    fn substitution_group(&self) -> (r: SubstitutionGroup) {
        SubstitutionGroup::Normal
    }
}

} // verus!
