use vstd::prelude::*;
use crate::blocks::is_block::{ContentModel, IsBlock};
use crate::blocks::block::Block;

use crate::attributes::attrlist::{Attrlist, AttrlistView};
use crate::blocks::compound_delimited::{is_compound_delimiter, is_valid_compound_delimiter};
use crate::blocks::layout::{before, lemma_past_blank_lines, past_blank_lines};
use crate::blocks::list_item_marker::{ListItemMarker, marker_at};
use crate::blocks::metadata::{
    BlockHeader, BlockMetadata, HeaderView, MetadataView, bare_md, lemma_skip_is_suffix,
};
use crate::blocks::raw_delimited::{RawDelimitedBlock, is_raw_delimiter};
use crate::content::{Content, ContentView, SubstitutionGroup, apply_group, override_group, GroupView};
use crate::parser::Parser;
use crate::span::{
    CharClass, MatchedItem, Span, SpanView, blank_pred, class_pred, is_blank, lemma_empty_lines_len,
    lemma_run_len, lemma_run_len_unique,
    lemma_line_lens, lemma_skip_wf, lemma_suffix_refl, lemma_suffix_trans, lemma_trimmed_len,
    line_after_len, line_item_len, normalized_line_len, run_len, trailing_ws_pred, trimmed_len,
    empty_lines_len,
};
use crate::text::{chars_to_string, push_str, str_eq};

verus! {

/// The style of a simple block.
#[derive(Clone, Copy, Debug, PartialEq, Eq, Structural)]
pub enum SimpleBlockStyle {
    /// A paragraph block with normal substitutions.
    Paragraph,
    /// A literal block with no substitutions.
    Literal,
    /// Blocks and paragraphs assigned the listing style display their
    /// rendered content exactly as you see it in the source.
    Listing,
    /// A source block is a specialization of a listing block.
    Source,
}

/// The style of a block that starts at `source`, before its attribute
/// list is consulted, and whether a list item marker still ends it: an
/// indented first line makes a literal block.
pub open spec fn base_style(source: SpanView, stop_for_list_items: bool) -> (SimpleBlockStyle, bool) {
    if skip_blank_col(source) == source.col {
        (SimpleBlockStyle::Paragraph, stop_for_list_items)
    } else {
        (SimpleBlockStyle::Literal, false)
    }
}

/// The column where the text of `source` starts, past leading blanks.
pub open spec fn skip_blank_col(source: SpanView) -> int {
    source.skip(run_len(source.data, blank_pred())).col
}

/// The style of a simple block once its attribute list's block style is
/// taken into account, and whether a list item marker ends it.
pub open spec fn block_style(
    source: SpanView,
    attrlist: Option<AttrlistView>,
    stop_for_list_items: bool,
) -> (SimpleBlockStyle, bool) {
    let (style, stop) = base_style(source, stop_for_list_items);
    match attrlist {
        Some(a) => match a.block_style() {
            Some(s) => if s == "normal"@ {
                (SimpleBlockStyle::Paragraph, stop)
            } else if s == "literal"@ {
                (SimpleBlockStyle::Literal, false)
            } else if s == "listing"@ {
                (SimpleBlockStyle::Listing, false)
            } else if s == "source"@ {
                (SimpleBlockStyle::Source, false)
            } else {
                (style, stop)
            },
            None => (style, stop),
        },
        None => (style, stop),
    }
}

/// A line (after the first kept one) that ends a simple block: a list
/// item marker (where those end it), a `+` continuation, a block attribute
/// list line, or a delimiter line.
pub open spec fn line_stops(line: SpanView, stop_for_list_items: bool) -> bool {
    ||| stop_for_list_items && marker_at(line) is Some
    ||| line.data == "+"@
    ||| (line.starts_with("["@) && line.ends_with("]"@))
    ||| is_raw_delimiter(line.data)
    ||| is_compound_delimiter(line.data)
}

/// `line` with at most `indent` of its leading blanks removed (none if the
/// line is all blanks).
pub open spec fn strip_indent(line: SpanView, indent: int) -> SpanView {
    let n = run_len(line.data, blank_pred());
    if indent > 0 && n < line.len() {
        line.skip(if n < indent { n } else { indent })
    } else {
        line
    }
}

/// Stripping the indentation of a kept line removes only leading blanks,
/// and at most `indent` of them: a line indented further than that keeps
/// the excess (what is left starts with `n - indent` blanks, where `n` is
/// the line's own indentation), and a line indented less loses all of its
/// indentation.
pub proof fn lemma_strip_indent(line: SpanView, indent: int)
    requires
        0 <= indent,
    ensures
        ({
            let r = strip_indent(line, indent);
            let n = run_len(line.data, blank_pred());
            let k = line.len() - r.len();
            &&& 0 <= k <= indent
            &&& r.data == line.data.skip(k)
            &&& forall|i: int| 0 <= i < k ==> is_blank(#[trigger] line.data[i])
            &&& n < line.len() ==> run_len(r.data, blank_pred()) == if n > indent {
                n - indent
            } else {
                0
            }
            &&& n == line.len() ==> r == line
        }),
{
    let n = run_len(line.data, blank_pred());
    lemma_run_len(line.data, blank_pred());
    if indent > 0 && n < line.len() {
        let k = if n < indent {
            n
        } else {
            indent
        };
        let r = line.skip(k);
        assert forall|i: int| 0 <= i < k implies is_blank(#[trigger] line.data[i]) by {
            assert(blank_pred()(line.data[i]));
        }
        assert forall|j: int| 0 <= j < n - k implies blank_pred()(#[trigger] r.data[j]) by {
            assert(r.data[j] == line.data[j + k]);
            assert(blank_pred()(line.data[j + k]));
        }
        assert(r.data[n - k] == line.data[n]);
        lemma_run_len_unique(r.data, blank_pred(), n - k);
    } else {
        assert(line.data.skip(0) =~= line.data);
        assert forall|i: int| 0 <= i < n implies is_blank(#[trigger] line.data[i]) by {
            assert(blank_pred()(line.data[i]));
        }
    }
}

/// Reads the lines of a simple block from `next` on, adding the kept lines
/// to `acc` (joined by `\n`; `pushed` says whether a line was kept yet).
/// Returns where the block ends and the text of its kept lines. Reading
/// stops at an empty line, the end of the input, or a line that ends the
/// block; line comments are dropped, and leading indentation up to
/// `indent` and trailing whitespace are removed from each line.
pub open spec fn lines_loop(
    next: SpanView,
    acc: Seq<char>,
    pushed: bool,
    stop_for_list_items: bool,
    indent: int,
) -> (SpanView, Seq<char>)
    decreases next.len(),
{
    if normalized_line_len(next.data) == 0 {
        (next, acc)
    } else {
        let line = next.sub(0, line_item_len(next.data));
        let a = line_after_len(next.data);
        if pushed && line_stops(line, stop_for_list_items) {
            (next, acc)
        } else if a <= 0 || a > next.len() {
            (next, acc)
        } else if line.starts_with("//"@) && !line.starts_with("///"@) {
            lines_loop(next.skip(a), acc, pushed, stop_for_list_items, indent)
        } else {
            let stripped = strip_indent(line, indent);
            let t = stripped.data.take(trimmed_len(stripped.data, trailing_ws_pred()));
            lines_loop(
                next.skip(a),
                if pushed {
                    acc + seq!['\n'] + t
                } else {
                    t
                },
                true,
                stop_for_list_items,
                indent,
            )
        }
    }
}

/// The substitution group of a simple block of style `style`: literal
/// blocks (found by indentation) get verbatim substitutions, all others
/// normal ones.
pub open spec fn style_group(style: SimpleBlockStyle) -> GroupView {
    match style {
        SimpleBlockStyle::Literal => GroupView::Verbatim,
        _ => GroupView::Normal,
    }
}

/// What reading the lines of a simple block from `source` gives: its
/// content (source and rendered text), its style and where it ends; `None`
/// if there is no content.
pub open spec fn simple_lines(
    source: SpanView,
    attrlist: Option<AttrlistView>,
    stop_for_list_items: bool,
    attrs: Seq<(Seq<char>, Option<Seq<char>>)>,
) -> Option<(ContentView, SimpleBlockStyle, SpanView)> {
    let (style, stop) = block_style(source, attrlist, stop_for_list_items);
    let (end, text) = lines_loop(source, Seq::empty(), false, stop, skip_blank_col(source) - 1);
    let b = before(source, end);
    let src = b.sub(0, trimmed_len(b.data, trailing_ws_pred()));
    if src.len() == 0 {
        None
    } else {
        let group = override_group(style_group(style), attrlist);
        Some((ContentView { original: src, rendered: apply_group(group, text, attrs) }, style, end))
    }
}

/// The simple block that the metadata `md` introduces and where reading
/// resumes; `None` if there is no content. Outside a list item reading
/// resumes past the blank lines after the block; inside one (`in_list`) a
/// list item marker line ends the block and blank lines are left in place.
pub open spec fn simple_block_of(
    md: MetadataView,
    attrs: Seq<(Seq<char>, Option<Seq<char>>)>,
    in_list: bool,
) -> Option<(SimpleView, SpanView)> {
    match simple_lines(md.block_start, md.header.attrlist, in_list, attrs) {
        Some((content, style, end)) => {
            let b = before(md.source, end);
            Some(
                (
                    SimpleView {
                        content,
                        source: b.sub(0, trimmed_len(b.data, trailing_ws_pred())),
                        style,
                        header: md.header,
                    },
                    if in_list {
                        end
                    } else {
                        past_blank_lines(end)
                    },
                ),
            )
        },
        None => None,
    }
}

pub struct SimpleView {
    pub content: ContentView,
    pub source: SpanView,
    pub style: SimpleBlockStyle,
    pub header: HeaderView,
}

/// A block that's treated as contiguous lines of paragraph text (and
/// subject to normal substitutions) (e.g., a paragraph block).
#[derive(Debug)]
pub struct SimpleBlock {
    content: Content,
    source: Span,
    style: SimpleBlockStyle,
    header: BlockHeader,
}

impl View for SimpleBlock {
    type V = SimpleView;

    closed spec fn view(&self) -> SimpleView {
        SimpleView {
            content: self.content@,
            source: self.source@,
            style: self.style,
            header: self.header@,
        }
    }
}

/// Reading lines only moves forward.
proof fn lemma_lines_loop(next: SpanView, acc: Seq<char>, pushed: bool, stop: bool, indent: int)
    requires
        next.wf(),
    ensures
        lines_loop(next, acc, pushed, stop, indent).0.is_suffix_of(next),
        lines_loop(next, acc, pushed, stop, indent).0.wf(),
    decreases next.len(),
{
    lemma_line_lens(next.data);
    let a = line_after_len(next.data);
    let line = next.sub(0, line_item_len(next.data));
    if normalized_line_len(next.data) == 0 || (pushed && line_stops(line, stop)) || a <= 0 || a
        > next.len() {
        lemma_suffix_refl(next);
    } else {
        lemma_skip_wf(next, a);
        lemma_skip_is_suffix(next, a);
        let stripped = strip_indent(line, indent);
        let t = stripped.data.take(trimmed_len(stripped.data, trailing_ws_pred()));
        if line.starts_with("//"@) && !line.starts_with("///"@) {
            lemma_lines_loop(next.skip(a), acc, pushed, stop, indent);
            lemma_suffix_trans(lines_loop(next, acc, pushed, stop, indent).0, next.skip(a), next);
        } else {
            let acc2 = if pushed {
                acc + seq!['\n'] + t
            } else {
                t
            };
            lemma_lines_loop(next.skip(a), acc2, true, stop, indent);
            lemma_suffix_trans(lines_loop(next, acc, pushed, stop, indent).0, next.skip(a), next);
        }
    }
}

/// Computes the style and list-marker rule of a simple block.
fn style_of(source: &Span, attrlist: Option<&Attrlist>, stop_for_list_items: bool) -> (r: (
    SimpleBlockStyle,
    bool,
))
    requires
        source@.wf(),
    ensures
        r == block_style(
            source@,
            match attrlist {
                Some(a) => Some(a@),
                None => None,
            },
            stop_for_list_items,
        ),
{
    let saw = source.discard_whitespace();
    let (style, stop) = if saw.col() == source.col() {
        (SimpleBlockStyle::Paragraph, stop_for_list_items)
    } else {
        (SimpleBlockStyle::Literal, false)
    };
    match attrlist {
        Some(a) => match a.block_style() {
            Some(s) => if str_eq(s, "normal") {
                (SimpleBlockStyle::Paragraph, stop)
            } else if str_eq(s, "literal") {
                (SimpleBlockStyle::Literal, false)
            } else if str_eq(s, "listing") {
                (SimpleBlockStyle::Listing, false)
            } else if str_eq(s, "source") {
                (SimpleBlockStyle::Source, false)
            } else {
                (style, stop)
            },
            None => (style, stop),
        },
        None => (style, stop),
    }
}

/// Tests whether a line ends a simple block.
fn stops_block(line: &Span, stop_for_list_items: bool) -> (r: bool)
    requires
        line@.wf(),
    ensures
        r == line_stops(line@, stop_for_list_items),
{
    if stop_for_list_items && ListItemMarker::parse(line).is_some() {
        return true;
    }
    str_eq(line.data(), "+") || (line.starts_with("[") && line.ends_with("]"))
        || RawDelimitedBlock::is_valid_delimiter(line) || is_valid_compound_delimiter(line)
}

/// Reads the content-bearing lines of a simple block from `source`.
///
/// Returns `None` if there are none (the first line is empty).
pub fn parse_lines(
    source: &Span,
    attrlist: Option<&Attrlist>,
    stop_for_list_items: bool,
    parser: &Parser,
) -> (r: Option<MatchedItem<(Content, SimpleBlockStyle)>>)
    requires
        source@.wf(),
    ensures
        ({
            let al = match attrlist {
                Some(a) => Some(a@),
                None => None,
            };
            match simple_lines(source@, al, stop_for_list_items, parser@.attributes) {
                Some((content, style, end)) => r matches Some(mi) && mi.item.0@ == content
                    && mi.item.1 == style && mi.after@ == end && end.wf() && end.is_suffix_of(
                    source@,
                ) && end.len() < source@.len(),
                None => r is None,
            }
        }),
{
    let ghost al = match attrlist {
        Some(a) => Some(a@),
        None => None,
    };
    let (style, stop) = style_of(source, attrlist, stop_for_list_items);
    let saw = source.discard_whitespace();
    let indent = saw.col() - 1;
    let ghost target = lines_loop(source@, Seq::empty(), false, stop, indent as int);
    let mut next = source.copy();
    let mut out: Vec<char> = Vec::new();
    let mut pushed = false;
    proof {
        lemma_suffix_refl(source@);
        lemma_lines_loop(source@, Seq::empty(), false, stop, indent as int);
        reveal_strlit("//");
        reveal_strlit("///");
    }
    loop
        invariant_except_break
            next@.wf(),
            next@.is_suffix_of(source@),
            lines_loop(next@, out@, pushed, stop, indent as int) == target,
            !pushed ==> out@ == Seq::<char>::empty(),
        ensures
            next@ == target.0,
            out@ == target.1,
        decreases next@.len(),
    {
        proof {
            lemma_line_lens(next@.data);
        }
        let line_mi = match next.take_non_empty_line() {
            Some(mi) => mi,
            None => {
                assert(lines_loop(next@, out@, pushed, stop, indent as int) == (next@, out@));
                break;
            },
        };
        let line = line_mi.item;
        proof {
            lemma_line_lens(next@.data);
            lemma_skip_is_suffix(next@, line_after_len(next@.data));
            lemma_suffix_trans(line_mi.after@, next@, source@);
        }
        if pushed && stops_block(&line, stop) {
            break;
        }
        let ghost a = line_after_len(next@.data);
        if line.starts_with("//") && !line.starts_with("///") {
            next = line_mi.after;
            continue;
        }
        let ghost old_next = next@;
        let ghost old_out = out@;
        let ghost old_pushed = pushed;
        let ghost orig = line@;
        let ws = line.run_len_from(0, CharClass::Blank);
        proof {
            assert(line@.data.skip(0) =~= line@.data);
            assert(class_pred(CharClass::Blank) == blank_pred());
        }
        let line = if indent > 0 && ws < line.len() {
            let k = if ws < indent {
                ws
            } else {
                indent
            };
            line.discard(k)
        } else {
            line
        };
        let kept = line.trim_trailing_whitespace();
        proof {
            lemma_trimmed_len(line@.data, trailing_ws_pred());
            assert(line@ == strip_indent(orig, indent as int));
            assert(kept@.data =~= line@.data.take(trimmed_len(line@.data, trailing_ws_pred())));
        }
        if pushed {
            out.push('\n');
        }
        push_str(&mut out, kept.data());
        pushed = true;
        next = line_mi.after;
        proof {
            let t = strip_indent(orig, indent as int).data.take(
                trimmed_len(strip_indent(orig, indent as int).data, trailing_ws_pred()),
            );
            assert(out@ =~= if old_pushed {
                old_out + seq!['\n'] + t
            } else {
                t
            });
            assert(orig == old_next.sub(0, line_item_len(old_next.data)));
            assert(!(old_pushed && line_stops(orig, stop)));
            assert(!(orig.starts_with("//"@) && !orig.starts_with("///"@)));
            assert(next@ == old_next.skip(line_after_len(old_next.data)));
            assert(lines_loop(old_next, old_out, old_pushed, stop, indent as int) == lines_loop(next@, out@, true, stop, indent as int));
        }
    }
    let b = source.trim_remainder(&next);
    let src = b.trim_trailing_whitespace();
    if src.is_empty() {
        return None;
    }
    proof {
        lemma_lines_loop(source@, Seq::empty(), false, stop, indent as int);
    }
    let text = chars_to_string(&out);
    let mut content = Content::from_filtered(&src, text);
    let group = match style {
        SimpleBlockStyle::Literal => SubstitutionGroup::Verbatim,
        _ => SubstitutionGroup::Normal,
    };
    let group = group.override_via_attrlist(attrlist);
    group.apply(&mut content, parser);
    Some(MatchedItem { item: (content, style), after: next })
}

impl SimpleBlock {
    fn from_lines(metadata: &BlockMetadata, lines: MatchedItem<(Content, SimpleBlockStyle)>) -> (r: (
        SimpleBlock,
        Span,
    ))
        requires
            metadata.wf(),
            lines.after@.wf(),
        ensures
            r.0@.content == lines.item.0@,
            r.0@.style == lines.item.1,
            r.0@.header == metadata.header_view(),
            ({
                let b = before(metadata.source@, lines.after@);
                r.0@.source == b.sub(0, trimmed_len(b.data, trailing_ws_pred()))
            }),
            r.1@ == lines.after@,
    {
        let (content, style) = lines.item;
        let source = metadata.source.trim_remainder(&lines.after).trim_trailing_whitespace();
        (SimpleBlock { content, source, style, header: metadata.header() }, lines.after)
    }

    /// Parses a simple block (a paragraph, or a literal block found by its
    /// indentation) at the start of the block, up to an empty line or a
    /// line that ends it; blank lines after it are consumed.
    pub fn parse(metadata: &BlockMetadata, parser: &Parser) -> (r: Option<MatchedItem<SimpleBlock>>)
        requires
            metadata.wf(),
        ensures
            match simple_block_of(metadata.md_view(), parser@.attributes, false) {
                Some((v, after)) => r matches Some(mi) && mi.item@ == v && mi.after@ == after,
                None => r is None,
            },
            r matches Some(mi) ==> {
                &&& mi.after@.wf()
                &&& mi.after@.is_suffix_of(metadata.block_start@)
                &&& mi.after@.len() < metadata.block_start@.len()
            },
    {
        let lines = match parse_lines(&metadata.block_start, metadata.attrlist.as_ref(), false, parser) {
            Some(l) => l,
            None => {
                return None;
            },
        };
        let (block, after) = Self::from_lines(metadata, lines);
        proof {
            lemma_past_blank_lines(after@, metadata.block_start@);
            lemma_empty_lines_len(after@.data);
            lemma_skip_wf(after@, empty_lines_len(after@.data));
        }
        Some(MatchedItem { item: block, after: after.discard_empty_lines() })
    }

    /// As [`SimpleBlock::parse`], within a list item: a list item marker
    /// line ends the block (unless it is literal), and blank lines after it
    /// are left in place.
    pub fn parse_for_list_item(metadata: &BlockMetadata, parser: &Parser) -> (r: Option<
        MatchedItem<SimpleBlock>,
    >)
        requires
            metadata.wf(),
        ensures
            match simple_block_of(metadata.md_view(), parser@.attributes, true) {
                Some((v, after)) => r matches Some(mi) && mi.item@ == v && mi.after@ == after,
                None => r is None,
            },
            r matches Some(mi) ==> {
                &&& mi.after@.wf()
                &&& mi.after@.is_suffix_of(metadata.block_start@)
                &&& mi.after@.len() < metadata.block_start@.len()
            },
    {
        let lines = match parse_lines(&metadata.block_start, metadata.attrlist.as_ref(), true, parser) {
            Some(l) => l,
            None => {
                return None;
            },
        };
        let (block, after) = Self::from_lines(metadata, lines);
        Some(MatchedItem { item: block, after })
    }

    /// Parses a simple block that has no metadata directly from `source`.
    pub fn parse_fast(source: &Span, parser: &Parser) -> (r: Option<MatchedItem<SimpleBlock>>)
        requires
            source@.wf(),
        ensures
            match simple_block_of(bare_md(source@), parser@.attributes, false) {
                Some((v, after)) => r matches Some(mi) && mi.item@ == v && mi.after@ == after,
                None => r is None,
            },
            r matches Some(mi) ==> {
                &&& mi.after@.wf()
                &&& mi.after@.is_suffix_of(source@)
                &&& mi.after@.len() < source@.len()
            },
    {
        let lines = match parse_lines(source, None, false, parser) {
            Some(l) => l,
            None => {
                return None;
            },
        };
        let after = lines.after;
        let (content, style) = lines.item;
        let src = content.original().copy();
        proof {
            lemma_past_blank_lines(after@, source@);
            lemma_empty_lines_len(after@.data);
            lemma_skip_wf(after@, empty_lines_len(after@.data));
        }
        Some(MatchedItem {
            item: SimpleBlock { content, source: src, style, header: BlockHeader::empty() },
            after: after.discard_empty_lines(),
        })
    }

    /// Returns the interpreted content of this block.
    pub fn content(&self) -> (r: &Content)
        ensures
            r@ == self@.content,
    {
        &self.content
    }

    /// Returns the style of this block.
    pub fn style(&self) -> (r: SimpleBlockStyle)
        ensures
            r == self@.style,
    {
        self.style
    }

    /// Returns the source text of this block.
    pub fn span(&self) -> (r: &Span)
        ensures
            r@ == self@.source,
    {
        &self.source
    }

    /// Returns the title, anchor and attribute list of this block.
    pub fn header(&self) -> (r: &BlockHeader)
        ensures
            r@ == self@.header,
    {
        &self.header
    }
}


impl IsBlock for SimpleBlock {
    open spec fn block_header(&self) -> HeaderView {
        self@.header
    }

    open spec fn fallback_id(&self) -> Option<Seq<char>> {
        None
    }

    open spec fn block_model(&self) -> ContentModel {
        ContentModel::Simple
    }

    open spec fn block_context(&self) -> Seq<char> {
        "paragraph"@
    }

    open spec fn block_nested(&self) -> Seq<Block> {
        Seq::empty()
    }

    open spec fn block_rendered(&self) -> Option<Seq<char>> {
        Some(self@.content.rendered)
    }

    open spec fn block_group(&self) -> GroupView {
        GroupView::Normal
    }

    fn content_model(&self) -> (r: ContentModel) {
        ContentModel::Simple
    }

    fn raw_context(&self) -> (r: &str) {
        "paragraph"
    }

    fn nested_blocks(&self) -> (r: &[Block]) {
        &[]
    }

    fn title_source(&self) -> (r: Option<&Span>) {
        self.header().title_source()
    }

    fn title(&self) -> (r: Option<&str>) {
        self.header().title()
    }

    fn anchor(&self) -> (r: Option<&Span>) {
        self.header().anchor()
    }

    fn anchor_reftext(&self) -> (r: Option<&Span>) {
        self.header().anchor_reftext()
    }

    fn attrlist(&self) -> (r: Option<&Attrlist>) {
        self.header().attrlist()
    }

    fn generated_id(&self) -> (r: Option<&str>) {
        None
    }

    fn rendered_content(&self) -> (r: Option<&str>) {
        Some(self.content.rendered())
    }

    fn substitution_group(&self) -> (r: SubstitutionGroup) {
        SubstitutionGroup::Normal
    }
}

} // verus!
