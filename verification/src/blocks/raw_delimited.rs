use vstd::prelude::*;
use crate::attributes::attrlist::Attrlist;
use crate::blocks::block::Block;

use crate::blocks::is_block::{ContentModel, IsBlock};
use crate::blocks::layout::{before, past_blank_lines, without_line_end};
use crate::blocks::metadata::{
    BlockHeader, BlockMetadata, HeaderView, MetadataView, lemma_skip_is_suffix,
};
use crate::attributes::attrlist::AttrlistView;
use crate::content::{
    Content, ContentView, SubstitutionGroup, apply_group, override_group, special_chars, GroupView,
};
use crate::parser::Parser;
use crate::span::{
    MatchedItem, Span, SpanView, lemma_line_lens, lemma_skip_wf, lemma_suffix_refl,
    lemma_suffix_trans, line_after_len, normalized_line_len,
};
use crate::warnings::{MatchAndWarnings, Warning, WarningType, warning_views};

verus! {

/// The characters that make up raw delimiters: `/` (comment), `-`
/// (listing), `.` (literal) and `+` (passthrough).
pub open spec fn is_raw_delimiter_char(c: char) -> bool {
    c == '/' || c == '-' || c == '.' || c == '+'
}

/// A raw delimiter is four or more of the same raw delimiter character and
/// nothing else.
pub open spec fn is_raw_delimiter(d: Seq<char>) -> bool {
    &&& d.len() >= 4
    &&& is_raw_delimiter_char(d[0])
    &&& forall|i: int| 0 <= i < d.len() ==> #[trigger] d[i] == d[0]
}

/// The content model, context and default substitution group of a raw
/// delimited block whose delimiter is made of `c`.
pub open spec fn raw_kind(c: char) -> (ContentModel, Seq<char>, GroupView) {
    if c == '/' {
        (ContentModel::Raw, "comment"@, GroupView::NoSubstitutions)
    } else if c == '-' {
        (ContentModel::Verbatim, "listing"@, GroupView::Verbatim)
    } else if c == '.' {
        (ContentModel::Verbatim, "literal"@, GroupView::Verbatim)
    } else {
        (ContentModel::Raw, "pass"@, GroupView::Pass)
    }
}

/// Reading lines from `next` on, the tail of `next` that starts with the
/// first line equal to `delim` (once normalized), if there is one.
pub open spec fn closing_line(next: SpanView, delim: Seq<char>) -> Option<SpanView>
    decreases next.len(),
{
    if next.len() == 0 {
        None
    } else if next.data.take(normalized_line_len(next.data)) == delim {
        Some(next)
    } else {
        let a = line_after_len(next.data);
        if a <= 0 || a > next.len() {
            None
        } else {
            closing_line(next.skip(a), delim)
        }
    }
}

/// The line after a line that starts `v`.
pub open spec fn next_line(v: SpanView) -> SpanView {
    v.skip(line_after_len(v.data))
}

pub struct RawDelimitedView {
    pub content: ContentView,
    pub content_model: ContentModel,
    pub context: Seq<char>,
    pub source: SpanView,
    pub header: HeaderView,
    pub substitution_group: GroupView,
}

/// The raw delimited block that the metadata `md` introduces, where
/// reading resumes, and the warnings; `None` if the block does not start
/// with a raw delimiter. An unterminated block runs to the end of the
/// input, gets no substitutions and is reported.
pub open spec fn raw_block_of(md: MetadataView, attrs: Seq<(Seq<char>, Option<Seq<char>>)>) -> Option<
    (RawDelimitedView, SpanView, Seq<(SpanView, WarningType)>),
> {
    let bs = md.block_start;
    let delim = bs.sub(0, normalized_line_len(bs.data));
    let start = next_line(bs);
    let kind = raw_kind(delim.data[0]);
    if !is_raw_delimiter(delim.data) {
        None
    } else {
        match closing_line(start, delim.data) {
            Some(c) => {
                let content = without_line_end(before(start, c));
                let group = override_group(kind.2, md.header.attrlist);
                Some(
                    (
                        RawDelimitedView {
                            content: ContentView {
                                original: content,
                                rendered: apply_group(group, content.data, attrs),
                            },
                            content_model: kind.0,
                            context: kind.1,
                            source: without_line_end(before(md.source, next_line(c))),
                            header: md.header,
                            substitution_group: group,
                        },
                        past_blank_lines(next_line(c)),
                        Seq::empty(),
                    ),
                )
            },
            None => {
                let end = start.skip(start.len());
                Some(
                    (
                        RawDelimitedView {
                            content: ContentView {
                                original: without_line_end(start),
                                rendered: without_line_end(start).data,
                            },
                            content_model: kind.0,
                            context: kind.1,
                            source: without_line_end(before(md.source, end)),
                            header: md.header,
                            substitution_group: kind.2,
                        },
                        end,
                        seq![(delim, WarningType::UnterminatedDelimitedBlock)],
                    ),
                )
            },
        }
    }
}

/// A delimited block that contains verbatim, raw, or comment text. The
/// content between the matching delimiters is not parsed for block syntax.
///
/// The following delimiters are recognized as raw delimited blocks:
///
/// | Delimiter | Content type |
/// |-----------|--------------|
/// | `////`    | Comment      |
/// | `----`    | Listing      |
/// | `....`    | Literal      |
/// | `++++`    | Passthrough  |
#[derive(Debug)]
pub struct RawDelimitedBlock {
    content: Content,
    content_model: ContentModel,
    context: String,
    source: Span,
    header: BlockHeader,
    substitution_group: SubstitutionGroup,
}

/// The attribute list `al` sets no `subs` attribute.
pub open spec fn no_subs(al: Option<AttrlistView>) -> bool {
    match al {
        Some(a) => a.named("subs"@) is None,
        None => true,
    }
}

/// What each raw delimiter gives. A `....` block is a literal block and a
/// `----` block a listing block: both are verbatim, so (without a `subs`
/// attribute) their content only has its special characters escaped. A
/// `////` block is a comment and a `++++` block a passthrough block: both
/// are raw and their content is kept as it is. An unterminated block keeps
/// its content as it is.
pub proof fn lemma_raw_block_kinds(md: MetadataView, attrs: Seq<(Seq<char>, Option<Seq<char>>)>)
    requires
        raw_block_of(md, attrs) is Some,
    ensures
        match raw_block_of(md, attrs) {
            Some((v, _, w)) => {
                let c = md.block_start.data[0];
                let verbatim = v.content.rendered == special_chars(v.content.original.data);
                let kept = v.content.rendered == v.content.original.data;
                &&& c == '.' ==> v.context == "literal"@ && v.content_model == ContentModel::Verbatim
                &&& c == '-' ==> v.context == "listing"@ && v.content_model == ContentModel::Verbatim
                &&& c == '/' ==> v.context == "comment"@ && v.content_model == ContentModel::Raw
                &&& c == '+' ==> v.context == "pass"@ && v.content_model == ContentModel::Raw
                &&& (c == '.' || c == '-') && no_subs(md.header.attrlist) ==> v.substitution_group
                    == GroupView::Verbatim && (w.len() == 0 ==> verbatim)
                &&& c == '/' && no_subs(md.header.attrlist) ==> v.substitution_group
                    == GroupView::NoSubstitutions && kept
                &&& c == '+' && no_subs(md.header.attrlist) ==> v.substitution_group == GroupView::Pass
                    && kept
                &&& w.len() > 0 ==> kept
            },
            None => false,
        },
{
    let bs = md.block_start;
    lemma_line_lens(bs.data);
    let delim = bs.sub(0, normalized_line_len(bs.data));
    assert(delim.data[0] == bs.data[0]);
}

impl View for RawDelimitedBlock {
    type V = RawDelimitedView;

    closed spec fn view(&self) -> RawDelimitedView {
        RawDelimitedView {
            content: self.content@,
            content_model: self.content_model,
            context: self.context@,
            source: self.source@,
            header: self.header@,
            substitution_group: self.substitution_group@,
        }
    }
}

/// Reading lines keeps a tail of where reading started.
pub proof fn lemma_closing_line(next: SpanView, delim: Seq<char>)
    requires
        next.wf(),
    ensures
        closing_line(next, delim) matches Some(c) ==> c.is_suffix_of(next) && c.len() > 0 && c.wf()
            && next_line(c).len() < c.len(),
    decreases next.len(),
{
    lemma_line_lens(next.data);
    if next.len() == 0 {
    } else if next.data.take(normalized_line_len(next.data)) == delim {
        lemma_suffix_refl(next);
    } else {
        let a = line_after_len(next.data);
        if 0 < a <= next.len() {
            lemma_skip_wf(next, a);
            lemma_closing_line(next.skip(a), delim);
            lemma_skip_is_suffix(next, a);
            if let Some(c) = closing_line(next.skip(a), delim) {
                lemma_suffix_trans(c, next.skip(a), next);
            }
        }
    }
}

impl RawDelimitedBlock {
    /// Returns `true` if `line` is a raw delimiter: four or more of one of
    /// `/`, `-`, `.` or `+`, and nothing else.
    pub fn is_valid_delimiter(line: &Span) -> (r: bool)
        ensures
            r == is_raw_delimiter(line@.data),
    {
        let n = line.len();
        if n < 4 {
            return false;
        }
        let c = line.char_at(0);
        if !(c == '/' || c == '-' || c == '.' || c == '+') {
            return false;
        }
        let mut i: usize = 1;
        while i < n
            invariant
                n == line@.len(),
                1 <= i <= n,
                c == line@.data[0],
                forall|j: int| 0 <= j < i ==> line@.data[j] == c,
            decreases n - i,
        {
            if line.char_at(i) != c {
                return false;
            }
            i = i + 1;
        }
        true
    }

    /// Parses a raw delimited block: an opening delimiter line, the lines up
    /// to a line equal to it, and that closing line.
    ///
    /// Returns `None` if the block does not start with a raw delimiter. An
    /// unterminated block runs to the end of the input and is reported with
    /// a warning; its content then gets no substitutions.
    pub fn parse(metadata: &BlockMetadata, parser: &Parser) -> (r: Option<
        MatchAndWarnings<Option<MatchedItem<RawDelimitedBlock>>>,
    >)
        requires
            metadata.wf(),
        ensures
            match raw_block_of(metadata.md_view(), parser@.attributes) {
                Some((v, after, w)) => r matches Some(maw) && maw.item matches Some(mi) && mi.item@ == v
                    && mi.after@ == after && warning_views(maw.warnings@) == w,
                None => r is None,
            },
            r matches Some(maw) ==> (maw.item matches Some(mi) && {
                &&& mi.after@.wf()
                &&& mi.after@.is_suffix_of(metadata.block_start@)
                &&& mi.after@.len() < metadata.block_start@.len()
            }),
    {
        let delimiter = metadata.block_start.take_normalized_line();
        proof {
            lemma_line_lens(metadata.block_start@.data);
        }
        if !Self::is_valid_delimiter(&delimiter.item) {
            return None;
        }
        let c = delimiter.item.char_at(0);
        let (content_model, context, group) = if c == '/' {
            (ContentModel::Raw, "comment", SubstitutionGroup::NoSubstitutions)
        } else if c == '-' {
            (ContentModel::Verbatim, "listing", SubstitutionGroup::Verbatim)
        } else if c == '.' {
            (ContentModel::Verbatim, "literal", SubstitutionGroup::Verbatim)
        } else {
            (ContentModel::Raw, "pass", SubstitutionGroup::Pass)
        };
        let ghost bs = metadata.block_start@;
        let ghost start = delimiter.after@;
        let ghost delim = delimiter.item@.data;
        proof {
            reveal_strlit("comment");
            reveal_strlit("listing");
            reveal_strlit("literal");
            reveal_strlit("pass");
            lemma_skip_is_suffix(bs, line_after_len(bs.data));
            lemma_suffix_refl(start);
            lemma_closing_line(start, delim);
        }
        let content_start = delimiter.after.copy();
        let mut next = delimiter.after.copy();
        while !next.is_empty()
            invariant
                next@.wf(),
                content_start@ == start,
                start == next_line(bs),
                start.wf(),
                start.is_suffix_of(bs),
                start.len() < bs.len(),
                next@.is_suffix_of(start),
                closing_line(next@, delim) == closing_line(start, delim),
                delim == delimiter.item@.data,
                delimiter.item@ == delim_span(bs),
                is_raw_delimiter(delim),
                content_model == raw_kind(delim[0]).0,
                context@ == raw_kind(delim[0]).1,
                group@ == raw_kind(delim[0]).2,
                metadata.wf(),
                bs == metadata.block_start@,
            decreases next@.len(),
        {
            let line = next.take_normalized_line();
            proof {
                lemma_line_lens(next@.data);
                lemma_skip_is_suffix(next@, line_after_len(next@.data));
                lemma_suffix_trans(line.after@, next@, start);
            }
            if crate::text::str_eq(line.item.data(), delimiter.item.data()) {
                proof {
                    lemma_suffix_trans(line.after@, start, bs);
                    assert(next@.data.take(normalized_line_len(next@.data)) == line.item@.data);
                    assert(closing_line(start, delim) == Some(next@));
                }
                let content = content_start.trim_remainder(&next).trim_trailing_line_end();
                let mut content = Content::from_span(&content);
                let group = group.override_via_attrlist(metadata.attrlist.as_ref());
                group.apply(&mut content, parser);
                let source = metadata.source.trim_remainder(&line.after).trim_trailing_line_end();
                let block = RawDelimitedBlock {
                    content,
                    content_model,
                    context: context.to_owned(),
                    source,
                    header: metadata.header(),
                    substitution_group: group,
                };
                proof {
                    crate::blocks::layout::lemma_past_blank_lines(line.after@, bs);
                    crate::span::lemma_empty_lines_len(line.after@.data);
                    crate::span::lemma_skip_wf(line.after@, crate::span::empty_lines_len(line.after@.data));
                }
                let after = line.after.discard_empty_lines();
                return Some(MatchAndWarnings { item: Some(MatchedItem { item: block, after }), warnings: Vec::new() });
            }
            proof {
                assert(next@.data.take(normalized_line_len(next@.data)) == line.item@.data);
            }
            next = line.after;
        }
        proof {
            lemma_suffix_trans(next@, start, bs);
            assert(next@ == start.skip(start.len()));
        }
        let content = content_start.trim_remainder(&next).trim_trailing_line_end();
        let content = Content::from_span(&content);
        let source = metadata.source.trim_remainder(&next).trim_trailing_line_end();
        let block = RawDelimitedBlock {
            content,
            content_model,
            context: context.to_owned(),
            source,
            header: metadata.header(),
            substitution_group: group,
        };
        let mut warnings: Vec<Warning> = Vec::new();
        warnings.push(Warning { source: delimiter.item, warning: WarningType::UnterminatedDelimitedBlock });
        proof {
            assert(warning_views(warnings@) =~= seq![(delim_span(bs), WarningType::UnterminatedDelimitedBlock)]);
        }
        Some(MatchAndWarnings { item: Some(MatchedItem { item: block, after: next }), warnings })
    }

    /// Returns the interpreted content of this block.
    pub fn content(&self) -> (r: &Content)
        ensures
            r@ == self@.content,
    {
        &self.content
    }

    /// Returns the content model (raw or verbatim) of this block.
    pub fn content_model(&self) -> (r: ContentModel)
        ensures
            r == self@.content_model,
    {
        self.content_model
    }

    /// Returns the context: `comment`, `listing`, `literal` or `pass`.
    pub fn raw_context(&self) -> (r: &str)
        ensures
            r@ == self@.context,
    {
        self.context.as_str()
    }

    /// Returns the substitution group applied to the content.
    pub fn substitution_group(&self) -> (r: SubstitutionGroup)
        ensures
            r@ == self@.substitution_group,
    {
        self.substitution_group.copy()
    }

    /// Returns the source text of this block.
    pub fn span(&self) -> (r: &Span)
        ensures
            r@ == self@.source,
    {
        &self.source
    }

    /// Returns the title, anchor and attribute list of this block.
    pub fn header(&self) -> (r: &BlockHeader)
        ensures
            r@ == self@.header,
    {
        &self.header
    }
}

/// The delimiter line at the start of `bs`.
pub open spec fn delim_span(bs: SpanView) -> SpanView {
    bs.sub(0, normalized_line_len(bs.data))
}


impl IsBlock for RawDelimitedBlock {
    open spec fn block_header(&self) -> HeaderView {
        self@.header
    }

    open spec fn fallback_id(&self) -> Option<Seq<char>> {
        None
    }

    open spec fn block_model(&self) -> ContentModel {
        self@.content_model
    }

    open spec fn block_context(&self) -> Seq<char> {
        self@.context
    }

    open spec fn block_nested(&self) -> Seq<Block> {
        Seq::empty()
    }

    open spec fn block_rendered(&self) -> Option<Seq<char>> {
        Some(self@.content.rendered)
    }

    open spec fn block_group(&self) -> GroupView {
        self@.substitution_group
    }

    fn content_model(&self) -> (r: ContentModel) {
        self.content_model
    }

    fn raw_context(&self) -> (r: &str) {
        self.context.as_str()
    }

    fn nested_blocks(&self) -> (r: &[Block]) {
        &[]
    }

    fn title_source(&self) -> (r: Option<&Span>) {
        self.header().title_source()
    }

    fn title(&self) -> (r: Option<&str>) {
        self.header().title()
    }

    fn anchor(&self) -> (r: Option<&Span>) {
        self.header().anchor()
    }

    fn anchor_reftext(&self) -> (r: Option<&Span>) {
        self.header().anchor_reftext()
    }

    fn attrlist(&self) -> (r: Option<&Attrlist>) {
        self.header().attrlist()
    }

    fn generated_id(&self) -> (r: Option<&str>) {
        None
    }

    fn rendered_content(&self) -> (r: Option<&str>) {
        Some(self.content.rendered())
    }

    fn substitution_group(&self) -> (r: SubstitutionGroup) {
        self.substitution_group.copy()
    }
}

} // verus!
