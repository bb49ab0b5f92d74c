use vstd::prelude::*;
use crate::blocks::is_block::{ContentModel, IsBlock};
use crate::attributes::attrlist::Attrlist;
use crate::content::{GroupView, SubstitutionGroup};

use crate::blocks::block::Block;
use crate::blocks::layout::{
    before, consumed, lemma_parser_kept_refl, lemma_parser_kept_trans, parser_kept, past_blank_lines,
};
use crate::blocks::metadata::{
    BlockHeader, BlockMetadata, HeaderView, MetadataView, lemma_skip_is_suffix,
};
use crate::blocks::parse_utils::{blocks_run, catalog_before, parse_blocks_until, run_warnings};
use crate::blocks::raw_delimited::{closing_line, is_raw_delimiter, next_line};
use crate::parser::{Parser, ParserView};
use crate::span::{
    MatchedItem, Span, SpanView, lemma_line_lens, lemma_suffix_refl, lemma_suffix_trans,
    line_after_len, normalized_line_len, trailing_ws_pred, trimmed_len,
};
use crate::text::str_eq;
use crate::warnings::{MatchAndWarnings, Warning, WarningType, warning_views};

verus! {

/// The characters that make up four-character compound delimiters: `=`
/// (example), `*` (sidebar) and `_` (quote).
pub open spec fn is_compound_delimiter_char(c: char) -> bool {
    c == '=' || c == '*' || c == '_'
}

/// A compound delimiter is `--` (open block), or four or more of the same
/// compound delimiter character and nothing else.
pub open spec fn is_compound_delimiter(d: Seq<char>) -> bool {
    ||| d == seq!['-', '-']
    ||| {
        &&& d.len() >= 4
        &&& is_compound_delimiter_char(d[0])
        &&& forall|i: int| 0 <= i < d.len() ==> #[trigger] d[i] == d[0]
    }
}

/// No line is both a raw and a compound delimiter, so which kind of
/// delimited block a line opens never depends on which parser looks first.
pub proof fn lemma_delimiters_disjoint(d: Seq<char>)
    ensures
        !(is_raw_delimiter(d) && is_compound_delimiter(d)),
{
}

/// Returns `true` if `line` is a compound delimiter: `--`, or four or more
/// of one of `=`, `*` or `_`, and nothing else.
pub fn is_valid_compound_delimiter(line: &Span) -> (r: bool)
    ensures
        r == is_compound_delimiter(line@.data),
{
    let n = line.len();
    if n == 2 && line.char_at(0) == '-' && line.char_at(1) == '-' {
        assert(line@.data =~= seq!['-', '-']);
        return true;
    }
    if n < 4 {
        return false;
    }
    let c = line.char_at(0);
    if !(c == '=' || c == '*' || c == '_') {
        return false;
    }
    let mut i: usize = 1;
    while i < n
        invariant
            n == line@.len(),
            1 <= i <= n,
            c == line@.data[0],
            forall|j: int| 0 <= j < i ==> line@.data[j] == c,
        decreases n - i,
    {
        if line.char_at(i) != c {
            return false;
        }
        i = i + 1;
    }
    true
}


/// The context of a compound delimited block whose delimiter starts with
/// `c`.
pub open spec fn compound_context(c: char) -> Seq<char> {
    if c == '-' {
        "open"@
    } else if c == '=' {
        "example"@
    } else if c == '*' {
        "sidebar"@
    } else {
        "quote"@
    }
}

pub struct CompoundDelimitedView {
    pub context: Seq<char>,
    pub source: SpanView,
    pub header: HeaderView,
}

/// A delimited block that can contain other blocks.
///
/// The following delimiters are recognized as compound delimited blocks:
///
/// | Delimiter | Content type |
/// |-----------|--------------|
/// | `====`    | Example      |
/// | `--`      | Open         |
/// | `****`    | Sidebar      |
/// | `____`    | Quote        |
#[derive(Debug)]
pub struct CompoundDelimitedBlock {
    blocks: Vec<Block>,
    context: String,
    source: Span,
    header: BlockHeader,
}

impl View for CompoundDelimitedBlock {
    type V = CompoundDelimitedView;

    closed spec fn view(&self) -> CompoundDelimitedView {
        CompoundDelimitedView { context: self.context@, source: self.source@, header: self.header@ }
    }
}

/// The compound delimited block that the metadata `md` introduces (its
/// context, source and header) and where reading resumes; `None` if the
/// block does not start with a compound delimiter. An unterminated block
/// runs to the end of the input.
pub open spec fn compound_block_of(md: MetadataView) -> Option<(CompoundDelimitedView, SpanView)> {
    let bs = md.block_start;
    let delim = bs.sub(0, normalized_line_len(bs.data));
    let start = next_line(bs);
    if !is_compound_delimiter(delim.data) {
        None
    } else {
        let (end, after) = match closing_line(start, delim.data) {
            Some(c) => (c.skip(normalized_line_len(c.data)), past_blank_lines(next_line(c))),
            None => (start.skip(start.len()), start.skip(start.len())),
        };
        let b = before(md.source, end);
        Some(
            (
                CompoundDelimitedView {
                    context: compound_context(delim.data[0]),
                    source: b.sub(0, trimmed_len(b.data, trailing_ws_pred())),
                    header: md.header,
                },
                after,
            ),
        )
    }
}

/// The warning that an unterminated compound delimited block that the
/// metadata `md` introduces gives, at its opening delimiter; nothing where
/// it is terminated.
pub open spec fn unterminated_warnings(md: MetadataView) -> Seq<(SpanView, WarningType)> {
    let bs = md.block_start;
    let delim = bs.sub(0, normalized_line_len(bs.data));
    if closing_line(next_line(bs), delim.data) is None {
        seq![(delim, WarningType::UnterminatedDelimitedBlock)]
    } else {
        Seq::empty()
    }
}

/// The text inside the compound delimited block that the metadata `md`
/// introduces: from the line after the opening delimiter up to the closing
/// one, or to the end of the input.
pub open spec fn compound_inside(md: MetadataView) -> SpanView {
    let bs = md.block_start;
    let delim = bs.sub(0, normalized_line_len(bs.data));
    let start = next_line(bs);
    match closing_line(start, delim.data) {
        Some(c) => before(start, c),
        None => before(start, start.skip(start.len())),
    }
}

impl CompoundDelimitedBlock {
    /// The blocks inside this block.
    pub closed spec fn blocks_view(&self) -> Seq<Block> {
        self.blocks@
    }

    /// Returns `true` if `line` is a compound delimiter.
    pub fn is_valid_delimiter(line: &Span) -> (r: bool)
        ensures
            r == is_compound_delimiter(line@.data),
    {
        is_valid_compound_delimiter(line)
    }

    /// Parses a compound delimited block: an opening delimiter line, the
    /// blocks up to a line equal to it, and that closing line.
    ///
    /// Returns `None` if the block does not start with a compound
    /// delimiter. An unterminated block runs to the end of the input and is
    /// reported with a warning (before those of its blocks).
    #[verifier::rlimit(40)]
    #[verifier::spinoff_prover]
    pub fn parse(metadata: &BlockMetadata, parser: &mut Parser) -> (r: Option<
        MatchAndWarnings<Option<MatchedItem<CompoundDelimitedBlock>>>,
    >)
        requires
            metadata.wf(),
        ensures
            parser_kept(old(parser)@, final(parser)@),
            r is None ==> final(parser)@ == old(parser)@,
            match compound_block_of(metadata.md_view()) {
                Some((v, after)) => r matches Some(maw) && maw.item matches Some(mi) && mi.item@ == v
                    && mi.after@ == after,
                None => r is None,
            },
            r matches Some(maw) ==> (maw.item matches Some(mi) && consumed(mi.after@, metadata.block_start@)),
            r matches Some(maw) ==> (maw.item matches Some(mi) && exists|
                afters: Seq<SpanView>,
                ps: Seq<ParserView>,
                end: SpanView,
            |
                blocks_run(
                    compound_inside(metadata.md_view()),
                    old(parser)@.attributes,
                    None,
                    mi.item.blocks_view(),
                    afters,
                    ps,
                    end,
                )),
            r matches Some(maw) ==> (maw.item matches Some(mi) && exists|
                afters: Seq<SpanView>,
                ps: Seq<ParserView>,
                end: SpanView,
                rw: Seq<(SpanView, WarningType)>,
            |
                #![trigger blocks_run(compound_inside(metadata.md_view()), old(parser)@.attributes, None, mi.item.blocks_view(), afters, ps, end), run_warnings(compound_inside(metadata.md_view()), old(parser)@.attributes, old(parser)@.catalog, None, 0, mi.item.blocks_view(), afters, ps, end, rw)]
                {
                    &&& blocks_run(
                        compound_inside(metadata.md_view()),
                        old(parser)@.attributes,
                        None,
                        mi.item.blocks_view(),
                        afters,
                        ps,
                        end,
                    )
                    &&& run_warnings(
                        compound_inside(metadata.md_view()),
                        old(parser)@.attributes,
                        old(parser)@.catalog,
                        None,
                        0,
                        mi.item.blocks_view(),
                        afters,
                        ps,
                        end,
                        rw,
                    )
                    &&& final(parser)@.catalog == catalog_before(old(parser)@.catalog, ps, mi.item.blocks_view().len() as int)
                    &&& warning_views(maw.warnings@) == unterminated_warnings(metadata.md_view()) + rw
                }),
        decreases metadata.source@.len(), 3int,
    {
        proof {
            lemma_parser_kept_refl(parser@);
        }
        let delimiter = metadata.block_start.take_normalized_line();
        let ghost bs = metadata.block_start@;
        proof {
            lemma_line_lens(bs.data);
        }
        if !is_valid_compound_delimiter(&delimiter.item) {
            return None;
        }
        let c = delimiter.item.char_at(0);
        let context = if c == '-' {
            "open"
        } else if c == '=' {
            "example"
        } else if c == '*' {
            "sidebar"
        } else {
            "quote"
        };
        let ghost start = delimiter.after@;
        let ghost delim = delimiter.item@.data;
        proof {
            reveal_strlit("open");
            reveal_strlit("example");
            reveal_strlit("sidebar");
            reveal_strlit("quote");
            lemma_skip_is_suffix(bs, line_after_len(bs.data));
            lemma_suffix_refl(start);
            crate::blocks::raw_delimited::lemma_closing_line(start, delim);
        }
        let mut next = delimiter.after.copy();
        let mut found = false;
        loop
            invariant_except_break
                closing_line(next@, delim) == closing_line(start, delim),
                !found,
            invariant
                next@.wf(),
                start.wf(),
                start == next_line(bs),
                start.is_suffix_of(bs),
                start.len() < bs.len(),
                next@.is_suffix_of(start),
                delim == delimiter.item@.data,
            ensures
                found ==> closing_line(start, delim) == Some(next@),
                !found ==> closing_line(start, delim) is None && next@.len() == 0,
            decreases next@.len(),
        {
            if next.is_empty() {
                break;
            }
            let line = next.take_normalized_line();
            proof {
                lemma_line_lens(next@.data);
                lemma_skip_is_suffix(next@, line_after_len(next@.data));
                lemma_suffix_trans(line.after@, next@, start);
                assert(next@.data.take(normalized_line_len(next@.data)) == line.item@.data);
            }
            if str_eq(line.item.data(), delimiter.item.data()) {
                found = true;
                break;
            }
            next = line.after;
        }
        proof {
            lemma_suffix_trans(next@, start, bs);
            lemma_line_lens(next@.data);
        }
        let inside = delimiter.after.trim_remainder(&next);
        let (closing_len, after) = if found {
            let l = next.take_normalized_line();
            proof {
                lemma_skip_is_suffix(next@, line_after_len(next@.data));
                lemma_suffix_trans(l.after@, next@, bs);
                crate::blocks::layout::lemma_past_blank_lines(l.after@, bs);
                crate::span::lemma_empty_lines_len(l.after@.data);
                crate::span::lemma_skip_wf(l.after@, crate::span::empty_lines_len(l.after@.data));
            }
            (l.item.len(), l.after.discard_empty_lines())
        } else {
            proof {
                lemma_suffix_trans(next@, start, bs);
            }
            (0, next.copy())
        };
        let mut most_recent_level: usize = 0;
        let mut warnings: Vec<Warning> = Vec::new();
        if !found {
            warnings.push(Warning { source: delimiter.item.copy(), warning: WarningType::UnterminatedDelimitedBlock });
        }
        let ghost p0 = parser@;
        let ghost uw = warning_views(warnings@);
        proof {
            assert(uw =~= unterminated_warnings(metadata.md_view()));
        }
        let blocks = parse_blocks_until(&inside, None, &mut most_recent_level, parser, &mut warnings);
        let ghost wit = choose|a: Seq<SpanView>, q: Seq<ParserView>|
            #[trigger] blocks_run(inside@, p0.attributes, None, blocks.item@, a, q, blocks.after@) && run_warnings(
                inside@,
                p0.attributes,
                p0.catalog,
                None,
                0,
                blocks.item@,
                a,
                q,
                blocks.after@,
                warning_views(warnings@).skip(uw.len() as int),
            ) && parser@.catalog == catalog_before(p0.catalog, q, blocks.item@.len() as int);
        let ghost rw = warning_views(warnings@).skip(uw.len() as int);
        proof {
            assert(warning_views(warnings@) =~= uw + rw);
        }
        proof {
            lemma_parser_kept_trans(old(parser)@, p0, parser@);
            assert(inside@ == compound_inside(metadata.md_view()));
        }
        let end_of_closing = next.discard(closing_len);
        let source = metadata.source.trim_remainder(&end_of_closing).trim_trailing_whitespace();
        let block = CompoundDelimitedBlock {
            blocks: blocks.item,
            context: context.to_owned(),
            source,
            header: metadata.header(),
        };
        proof {
            assert(blocks_run(
                compound_inside(metadata.md_view()),
                old(parser)@.attributes,
                None,
                block.blocks_view(),
                wit.0,
                wit.1,
                blocks.after@,
            ));
            assert(run_warnings(
                compound_inside(metadata.md_view()),
                old(parser)@.attributes,
                old(parser)@.catalog,
                None,
                0,
                block.blocks_view(),
                wit.0,
                wit.1,
                blocks.after@,
                rw,
            ));
        }
        Some(MatchAndWarnings { item: Some(MatchedItem { item: block, after }), warnings })
    }

    /// Returns the context: `example`, `open`, `sidebar` or `quote`.
    pub fn raw_context(&self) -> (r: &str)
        ensures
            r@ == self@.context,
    {
        self.context.as_str()
    }

    /// Returns the blocks inside this block.
    pub fn blocks(&self) -> (r: &[Block])
        ensures
            r@ == self.blocks_view(),
    {
        self.blocks.as_slice()
    }

    /// Returns the source text of this block.
    pub fn span(&self) -> (r: &Span)
        ensures
            r@ == self@.source,
    {
        &self.source
    }

    /// Returns the title, anchor and attribute list of this block.
    pub fn header(&self) -> (r: &BlockHeader)
        ensures
            r@ == self@.header,
    {
        &self.header
    }
}

impl IsBlock for CompoundDelimitedBlock {
    open spec fn block_header(&self) -> HeaderView {
        self@.header
    }

    open spec fn fallback_id(&self) -> Option<Seq<char>> {
        None
    }

    open spec fn block_model(&self) -> ContentModel {
        ContentModel::Compound
    }

    open spec fn block_context(&self) -> Seq<char> {
        self@.context
    }

    open spec fn block_nested(&self) -> Seq<Block> {
        self.blocks_view()
    }

    open spec fn block_rendered(&self) -> Option<Seq<char>> {
        None
    }

    open spec fn block_group(&self) -> GroupView {
        GroupView::Normal
    }

    fn content_model(&self) -> (r: ContentModel) {
        ContentModel::Compound
    }

    fn raw_context(&self) -> (r: &str) {
        self.context.as_str()
    }

    fn nested_blocks(&self) -> (r: &[Block]) {
        self.blocks.as_slice()
    }

    fn title_source(&self) -> (r: Option<&Span>) {
        self.header().title_source()
    }

    fn title(&self) -> (r: Option<&str>) {
        self.header().title()
    }

    fn anchor(&self) -> (r: Option<&Span>) {
        self.header().anchor()
    }

    fn anchor_reftext(&self) -> (r: Option<&Span>) {
        self.header().anchor_reftext()
    }

    fn attrlist(&self) -> (r: Option<&Attrlist>) {
        self.header().attrlist()
    }

    fn generated_id(&self) -> (r: Option<&str>) {
        None
    }

    fn rendered_content(&self) -> (r: Option<&str>) {
        None
    }

    fn substitution_group(&self) -> (r: SubstitutionGroup) {
        SubstitutionGroup::Normal
    }
}

} // verus!
