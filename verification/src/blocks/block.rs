use vstd::prelude::*;

use crate::attributes::attrlist::{Attrlist, AttrlistView};
use crate::blocks::break_block::{Break, break_of};
use crate::blocks::compound_delimited::{
    CompoundDelimitedBlock, compound_block_of, compound_inside, unterminated_warnings,
};
use crate::blocks::is_block::{ContentModel, IsBlock, id_of};
use crate::blocks::layout::{
    consumed, lemma_consumed_trans, lemma_past_blank_lines, lemma_past_blank_lines_idem, lemma_parser_kept_refl, lemma_parser_kept_trans, parser_kept,
    past_blank_lines,
};
use crate::blocks::list::{ListBlock, item_start, list_parsed, list_starts};
use crate::blocks::list_item::{item_fails, list_item_parsed};
use crate::blocks::list_item::ListItem;
use crate::blocks::list_item_marker::{
    LIST_ITEM_MARKER_PATTERN, ListItemMarker, ListItemMarkerView, marker_at, markers_match,
};
use crate::blocks::media::{MediaBlock, media_block_of};
use crate::blocks::metadata::{
    BlockMetadata, HeaderView, MetadataView, bare_md, empty_header, lemma_md_loop_suffix, md_loop,
    metadata_of_source,
};
use crate::blocks::parse_utils::{blocks_run, catalog_before, run_warnings};
use crate::blocks::preamble::Preamble;
use crate::blocks::raw_delimited::{RawDelimitedBlock, closing_line, next_line, raw_block_of};
use crate::blocks::section::{SectionBlock, section_body, section_dup_warnings, section_parsed};
use crate::blocks::section_title::{parse_title_line, title_line};
use crate::blocks::simple::{
    SimpleBlock, SimpleView, block_style, lines_loop, simple_block_of, simple_lines, skip_blank_col,
};
use crate::content::{GroupView, SubstitutionGroup};
use crate::parser::{Parser, ParserView, RefType, catalog_has};
use crate::patterns::regex_is_match_result;
use crate::span::{
    MatchedItem, Span, SpanView, blank_pred, empty_lines_len, lemma_empty_lines_len,
    lemma_line_lens, lemma_skip_wf, lemma_sub_start_offset, lemma_suffix_offset, lemma_suffix_trans, line_after_len, line_item_len, normalized_line_len, run_len,
    seq_contains_seq,
};
use crate::text::str_eq;
use crate::warnings::{
    MatchAndWarnings, Warning, WarningType, lemma_warnings_extend_append, lemma_warnings_extend_refl,
    lemma_warnings_extend_trans, warning_views, warnings_extend,
};

verus! {

/// **Block elements** form the main structure of an AsciiDoc document,
/// starting with the document itself.
///
/// A block element (aka **block**) is a discrete, line-oriented chunk of
/// content in an AsciiDoc document. Certain blocks may contain other
/// blocks, so blocks can be nested.
#[derive(Debug)]
pub enum Block {
    /// A block that's treated as contiguous lines of paragraph text (and
    /// subject to normal substitutions) (e.g., a paragraph block).
    Simple(SimpleBlock),
    /// A media block is used to represent an image, video, or audio block
    /// macro.
    Media(MediaBlock),
    /// A section helps to partition the document into a content hierarchy.
    Section(SectionBlock),
    /// A list contains a sequence of items prefixed with symbol, such as a
    /// disc (aka bullet).
    List(ListBlock),
    /// A list item is a special kind of block that is a member of a
    /// [`ListBlock`] and contains one or more blocks attached to it.
    ListItem(ListItem),
    /// A delimited block that contains verbatim, raw, or comment text.
    RawDelimited(RawDelimitedBlock),
    /// A delimited block that can contain other blocks.
    CompoundDelimited(CompoundDelimitedBlock),
    /// Content between the end of the document header and the first
    /// section title in the document body.
    Preamble(Preamble),
    /// A thematic or page break.
    Break(Break),
}

/// The first line of `source`, without its line ending and leading
/// blanks.
pub open spec fn first_line_text(source: SpanView) -> SpanView {
    let l = source.sub(0, line_item_len(source.data));
    l.skip(run_len(l.data, blank_pred()))
}

/// Characters that, at the start of a block, may introduce something other
/// than a paragraph.
pub open spec fn is_block_syntax_char(c: char) -> bool {
    c == '.' || c == '#' || c == '=' || c == '/' || c == '-' || c == '+' || c == '*' || c == '_' || c
        == '[' || c == ':' || c == '\'' || c == '<' || c == '\u{2022}'
}

/// A first line that can only start a paragraph: it is not empty, starts
/// with no block syntax character, holds no `::` or `;;`, and does not
/// start with a list item marker.
pub open spec fn fast_path_line(fl: SpanView) -> bool {
    &&& fl.len() > 0
    &&& !is_block_syntax_char(fl.data[0])
    &&& !seq_contains_seq(fl.data, "::"@)
    &&& !seq_contains_seq(fl.data, ";;"@)
    &&& regex_is_match_result(LIST_ITEM_MARKER_PATTERN@, fl.data) != Some(true)
}

/// `extra` is what registering the ID of `b` in `catalog` warns: a
/// duplicate ID warning at the block where its ID is already registered,
/// else nothing.
pub open spec fn dup_id_warnings(
    b: Block,
    catalog: Seq<(Seq<char>, Option<Seq<char>>, RefType)>,
    extra: Seq<(SpanView, WarningType)>,
) -> bool {
    match id_of(b.header_view(), b.fallback_id()) {
        Some(id) if catalog_has(catalog, id) => {
            &&& extra.len() == 1
            &&& extra[0].0 == b.source_view()
            &&& extra[0].1 matches WarningType::DuplicateId(s) && s@ == id
        },
        _ => extra.len() == 0,
    }
}

/// Where `r` is a paragraph or a raw delimited, compound delimited or media
/// block (the kinds whose ID [`Block::parse`] registers), its ID, if it
/// has one, is in `catalog`.
pub open spec fn id_registered(
    r: Option<(Block, SpanView)>,
    catalog: Seq<(Seq<char>, Option<Seq<char>>, RefType)>,
) -> bool {
    match r {
        Some((b, _)) => (b is Simple || b is RawDelimited || b is CompoundDelimited || b is Media) ==> match id_of(
            b.header_view(),
            b.fallback_id(),
        ) {
            Some(id) => catalog_has(catalog, id),
            None => true,
        },
        None => true,
    }
}

/// A block found by a parser and where reading resumes, as a model.
pub open spec fn found_block(r: Option<MatchedItem<Block>>) -> Option<(Block, SpanView)> {
    match r {
        Some(mi) => Some((mi.item, mi.after@)),
        None => None,
    }
}

/// The first line of the block proper, once normalized.
pub open spec fn first_line_of(md: MetadataView) -> SpanView {
    md.block_start.sub(0, normalized_line_len(md.block_start.data))
}

/// The attribute list declares the `literal` block style.
pub open spec fn is_literal_style(al: Option<AttrlistView>) -> bool {
    al matches Some(a) && a.block_style() == Some("literal"@)
}

/// The line names a media block macro.
pub open spec fn has_media_prefix(line: SpanView) -> bool {
    line.starts_with("image::"@) || line.starts_with("video::"@) || line.starts_with("audio::"@)
}

/// The line starts as a section title does.
pub open spec fn has_section_prefix(line: SpanView) -> bool {
    line.len() > 0 && (line.data[0] == '=' || line.data[0] == '#')
}

/// The line starts as a break does.
pub open spec fn has_break_prefix(line: SpanView) -> bool {
    line.len() > 0 && (line.data[0] == '\'' || line.data[0] == '-' || line.data[0] == '*' || line.data[0]
        == '<')
}

/// `r` is the simple block `s` describes, or nothing where `s` is `None`.
pub open spec fn simple_result(s: Option<(SimpleView, SpanView)>, r: Option<(Block, SpanView)>) -> bool {
    match s {
        Some((v, a)) => r matches Some((Block::Simple(b), ra)) && b@ == v && ra == a,
        None => r is None,
    }
}

/// The metadata `md` once it has been given up: its lines are read as
/// paragraph text.
pub open spec fn reset_md(md: MetadataView) -> MetadataView {
    MetadataView {
        source: md.source,
        block_start: md.source,
        header: HeaderView { anchor_reftext: md.header.anchor_reftext, ..empty_header() },
    }
}

/// What a block that is no other kind gives: a paragraph; where there is
/// none but the metadata has a title or an attribute list, a paragraph
/// made of the metadata lines themselves. `in_list` says whether the block
/// is read inside a list item.
pub open spec fn fallback_result(
    md: MetadataView,
    attrs: Seq<(Seq<char>, Option<Seq<char>>)>,
    in_list: bool,
    r: Option<(Block, SpanView)>,
) -> bool {
    if simple_block_of(md, attrs, in_list) is None && (md.header.title is Some || md.header.attrlist
        is Some) {
        simple_result(simple_block_of(reset_md(md), attrs, in_list), r)
    } else {
        simple_result(simple_block_of(md, attrs, in_list), r)
    }
}

/// The views of the list item markers `ps`.
pub open spec fn marker_views(ps: Seq<ListItemMarker>) -> Seq<ListItemMarkerView> {
    ps.map_values(|m: ListItemMarker| m@)
}

/// The markers of the enclosing list items, as views; `None` outside a
/// list.
pub open spec fn parents_view(parents: Option<&[ListItemMarker]>) -> Option<Seq<ListItemMarkerView>> {
    match parents {
        Some(ps) => Some(marker_views(ps@)),
        None => None,
    }
}

/// A list item marker that matches one of the markers `ps` starts `line`.
pub open spec fn parent_marker_at(ps: Seq<ListItemMarkerView>, line: SpanView) -> bool {
    match marker_at(line) {
        Some((m, _)) => exists|j: int| 0 <= j < ps.len() && #[trigger] markers_match(ps[j], m),
        None => false,
    }
}

/// The block starts with a line comment: `//`, but not `///`.
pub open spec fn is_line_comment(bs: SpanView) -> bool {
    bs.starts_with("//"@) && !bs.starts_with("///"@)
}

/// The block that parsing the metadata `md` gives, apart from the blocks
/// nested in it, with `p` the parser's state afterwards; `parents` are the
/// markers of the enclosing list items where the block is read inside a
/// list item. The kinds are tried in this order: a literal-style
/// paragraph, a raw delimited block, a compound delimited block, a media
/// block, then what [`md_tail_shape`] says.
pub open spec fn md_block_shape(
    md: MetadataView,
    attrs: Seq<(Seq<char>, Option<Seq<char>>)>,
    p: ParserView,
    parents: Option<Seq<ListItemMarkerView>>,
    r: Option<(Block, SpanView)>,
) -> bool
    decreases md.block_start.len(), 20int,
{
    let line = first_line_of(md);
    if is_literal_style(md.header.attrlist) {
        simple_result(simple_block_of(md, attrs, parents is Some), r)
    } else if raw_block_of(md, attrs) is Some {
        raw_block_of(md, attrs) matches Some((v, a, _)) && r matches Some((Block::RawDelimited(b), ra))
            && b@ == v && ra == a
    } else if compound_block_of(md) is Some {
        compound_block_of(md) matches Some((v, a)) && r matches Some((Block::CompoundDelimited(b), ra))
            && b@ == v && ra == a
    } else if has_media_prefix(line) && media_block_of(md, attrs).0 is Some {
        media_block_of(md, attrs).0 matches Some((v, a)) && r matches Some((Block::Media(b), ra)) && b@
            == v && ra == a
    } else {
        md_tail_shape(md, attrs, p, parents, r)
    }
}

/// Past the delimited and media blocks: a section (which ends a list item
/// instead), a break, then what [`md_rest_shape`] says.
pub open spec fn md_tail_shape(
    md: MetadataView,
    attrs: Seq<(Seq<char>, Option<Seq<char>>)>,
    p: ParserView,
    parents: Option<Seq<ListItemMarkerView>>,
    r: Option<(Block, SpanView)>,
) -> bool
    decreases md.block_start.len(), 19int,
{
    let line = first_line_of(md);
    if has_section_prefix(line) && title_line(past_blank_lines(md.block_start)).0 is Some {
        if parents is Some {
            r is None
        } else {
            r matches Some((Block::Section(b), a)) && section_parsed(md, p, b@, a)
        }
    } else if has_break_prefix(line) && break_of(md) is Some {
        break_of(md) matches Some((v, a)) && r matches Some((Block::Break(b), ra)) && b@ == v && ra == a
    } else {
        md_rest_shape(md, attrs, parents, r)
    }
}

/// Past every other kind: outside a list, a list where one can be read
/// (where reading its first item fails, as [`item_fails`] says, what
/// follows), else the paragraph that [`fallback_result`] describes. Inside
/// a list item, nothing is found at a marker that matches one of
/// `parents`; a list follows where a marker starts the first line and a
/// list can be read (where its first item fails, what follows); nothing is
/// found at a line comment; else the paragraph that [`fallback_result`]
/// describes.
pub open spec fn md_rest_shape(
    md: MetadataView,
    attrs: Seq<(Seq<char>, Option<Seq<char>>)>,
    parents: Option<Seq<ListItemMarkerView>>,
    r: Option<(Block, SpanView)>,
) -> bool
    decreases md.block_start.len(), 18int,
{
    proof {
        lemma_empty_lines_len(md.block_start.data);
    }
    let line = first_line_of(md);
    let src = past_blank_lines(md.block_start);
    match parents {
        None => if list_starts(md, attrs) {
            ||| r matches Some((Block::List(b), a)) && list_parsed(md, attrs, Seq::empty(), b@, b.items_view(), a)
            ||| item_fails(src, attrs, Seq::empty()) && fallback_result(md, attrs, false, r)
        } else {
            fallback_result(md, attrs, false, r)
        },
        Some(ps) => if parent_marker_at(ps, line) {
            r is None
        } else if marker_at(line) is Some && list_starts(md, attrs) {
            ||| r matches Some((Block::List(b), a)) && list_parsed(md, attrs, ps, b@, b.items_view(), a)
            ||| item_fails(src, attrs, ps) && in_item_rest(md, attrs, r)
        } else {
            in_item_rest(md, attrs, r)
        },
    }
}

/// Inside a list item, where no list is read: nothing at a line comment,
/// else the paragraph that [`fallback_result`] describes.
pub open spec fn in_item_rest(
    md: MetadataView,
    attrs: Seq<(Seq<char>, Option<Seq<char>>)>,
    r: Option<(Block, SpanView)>,
) -> bool {
    if is_line_comment(md.block_start) {
        r is None
    } else {
        fallback_result(md, attrs, true, r)
    }
}

/// Inside a list item whose enclosing markers are `ps`, the block that the
/// metadata `md` introduces ends the list item: no block of a kind tried
/// before is found, and [`tail_stops`] holds.
pub open spec fn stops_list_item(
    md: MetadataView,
    attrs: Seq<(Seq<char>, Option<Seq<char>>)>,
    ps: Seq<ListItemMarkerView>,
    r: Option<(Block, SpanView)>,
) -> bool {
    let line = first_line_of(md);
    &&& !is_literal_style(md.header.attrlist)
    &&& raw_block_of(md, attrs) is None
    &&& compound_block_of(md) is None
    &&& !(has_media_prefix(line) && media_block_of(md, attrs).0 is Some)
    &&& tail_stops(md, attrs, ps, r)
}

/// A section title ends the list item; past a break, [`rest_stops`] says.
pub open spec fn tail_stops(
    md: MetadataView,
    attrs: Seq<(Seq<char>, Option<Seq<char>>)>,
    ps: Seq<ListItemMarkerView>,
    r: Option<(Block, SpanView)>,
) -> bool {
    let line = first_line_of(md);
    if has_section_prefix(line) && title_line(past_blank_lines(md.block_start)).0 is Some {
        true
    } else if has_break_prefix(line) && break_of(md) is Some {
        false
    } else {
        rest_stops(md, attrs, ps, r)
    }
}

/// A marker that matches one of `ps` ends the list item; so does a line
/// comment where no list is read (`r`, the result, is then nothing).
pub open spec fn rest_stops(
    md: MetadataView,
    attrs: Seq<(Seq<char>, Option<Seq<char>>)>,
    ps: Seq<ListItemMarkerView>,
    r: Option<(Block, SpanView)>,
) -> bool {
    parent_marker_at(ps, first_line_of(md)) || (is_line_comment(md.block_start) && r is None)
}

/// The block that parsing at `source` (outside a list) gives, apart from
/// the blocks nested in it, with `p` the parser's state afterwards: a
/// paragraph read directly where the first line can only start one, else
/// what [`md_block_shape`] says of the metadata read from `source`.
#[verifier::opaque]
pub open spec fn block_shape(
    source: SpanView,
    attrs: Seq<(Seq<char>, Option<Seq<char>>)>,
    p: ParserView,
    r: Option<(Block, SpanView)>,
) -> bool {
    let fast = simple_block_of(bare_md(source), attrs, false);
    if fast_path_line(first_line_text(source)) && fast is Some {
        simple_result(fast, r)
    } else {
        md_block_shape(metadata_of_source(source, attrs), attrs, p, None, r)
    }
}

/// The blocks nested in the block `r` that the metadata `md` introduces:
/// those of a compound delimited block are read one after another from its
/// inside, those of a section from the line after its title up to a
/// section title at its level or above; each is as [`block_shape`] says.
pub open spec fn nested_parsed(
    md: MetadataView,
    attrs: Seq<(Seq<char>, Option<Seq<char>>)>,
    r: Option<(Block, SpanView)>,
) -> bool {
    match r {
        Some((Block::CompoundDelimited(b), _)) => compound_nested(md, attrs, b),
        Some((Block::Section(b), a)) => section_nested(md, attrs, b, a),
        _ => true,
    }
}

/// The blocks of the compound delimited block `b` that the metadata `md`
/// introduces were read one after another from its inside.
pub open spec fn compound_nested(
    md: MetadataView,
    attrs: Seq<(Seq<char>, Option<Seq<char>>)>,
    b: CompoundDelimitedBlock,
) -> bool {
    exists|afters: Seq<SpanView>, ps: Seq<ParserView>, end: SpanView|
        #[trigger] blocks_run(compound_inside(md), attrs, None, b.blocks_view(), afters, ps, end)
}

/// The blocks of the section `b` that the metadata `md` introduces, read
/// up to `after`, were read one after another from the line after its
/// title.
pub open spec fn section_nested(
    md: MetadataView,
    attrs: Seq<(Seq<char>, Option<Seq<char>>)>,
    b: SectionBlock,
    after: SpanView,
) -> bool {
    exists|afters: Seq<SpanView>, ps: Seq<ParserView>|
        #[trigger] blocks_run(section_body(md), attrs, Some(b@.level), b.blocks_view(), afters, ps, after)
}

/// What parsing the block that the metadata `md` introduces gives: the
/// block [`md_block_shape`] describes, with nested blocks as
/// [`nested_parsed`] says.
pub open spec fn md_block_parsed(
    md: MetadataView,
    attrs: Seq<(Seq<char>, Option<Seq<char>>)>,
    p: ParserView,
    parents: Option<Seq<ListItemMarkerView>>,
    r: Option<(Block, SpanView)>,
) -> bool {
    &&& md_block_shape(md, attrs, p, parents, r)
    &&& nested_parsed(md, attrs, r)
}

/// What parsing a block at `source` (outside a list) gives: the block
/// [`block_shape`] describes; where it is read past metadata, with nested
/// blocks as [`nested_parsed`] says.
pub open spec fn block_parsed(
    source: SpanView,
    attrs: Seq<(Seq<char>, Option<Seq<char>>)>,
    p: ParserView,
    r: Option<(Block, SpanView)>,
) -> bool {
    let fast = simple_block_of(bare_md(source), attrs, false);
    &&& block_shape(source, attrs, p, r)
    &&& !(fast_path_line(first_line_text(source)) && fast is Some) ==> nested_parsed(
        metadata_of_source(source, attrs),
        attrs,
        r,
    )
}

/// Where the input holds nothing but empty lines, no block is found.
proof fn lemma_blank_input(
    source: SpanView,
    attrs: Seq<(Seq<char>, Option<Seq<char>>)>,
    p: ParserView,
    r: Option<(Block, SpanView)>,
)
    requires
        source.wf(),
        past_blank_lines(source).len() == 0,
        block_parsed(source, attrs, p, r),
    ensures
        r is None,
{
    reveal(block_shape);
    lemma_line_lens(source.data);
    lemma_empty_lines_len(source.data);
    let src = past_blank_lines(source);
    lemma_line_lens(src.data);
    assert(src.data.len() == 0);
    let md = metadata_of_source(source, attrs);
    assert(md.block_start == src);
    assert(md.header == empty_header());
    lemma_line_lens(md.block_start.data);
}

/// Past an empty span there are no blank lines to drop.
proof fn lemma_past_blank_lines_empty(v: SpanView)
    requires
        v.len() == 0,
    ensures
        past_blank_lines(v) == v,
{
    lemma_empty_lines_len(v.data);
    assert(v.data.skip(0) =~= v.data);
    assert(v.skip(0) == v);
}

/// A block found at `source` (outside a list) ends past the blank lines
/// that follow it: no blank line is left in front of what comes next.
pub proof fn lemma_block_consumes_trailing_blank_lines(
    source: SpanView,
    attrs: Seq<(Seq<char>, Option<Seq<char>>)>,
    p: ParserView,
    b: Block,
    after: SpanView,
)
    requires
        block_parsed(source, attrs, p, Some((b, after))),
    ensures
        past_blank_lines(after) == after,
{
    reveal(block_shape);
    let fast = simple_block_of(bare_md(source), attrs, false);
    if fast_path_line(first_line_text(source)) && fast is Some {
        if let Some((_, a)) = fast {
            match simple_lines(bare_md(source).block_start, bare_md(source).header.attrlist, false, attrs) {
                Some((_, _, end)) => lemma_past_blank_lines_idem(end),
                None => {},
            }
        }
    } else {
        let md = metadata_of_source(source, attrs);
        let line = first_line_of(md);
        let r = Some((b, after));
        if is_literal_style(md.header.attrlist) {
            match simple_lines(md.block_start, md.header.attrlist, false, attrs) {
                Some((_, _, end)) => lemma_past_blank_lines_idem(end),
                None => {},
            }
        } else if raw_block_of(md, attrs) is Some {
            let bs = md.block_start;
            let delim = bs.sub(0, normalized_line_len(bs.data));
            let start = next_line(bs);
            match closing_line(start, delim.data) {
                Some(c) => lemma_past_blank_lines_idem(next_line(c)),
                None => lemma_past_blank_lines_empty(start.skip(start.len())),
            }
        } else if compound_block_of(md) is Some {
            let bs = md.block_start;
            let delim = bs.sub(0, normalized_line_len(bs.data));
            let start = next_line(bs);
            match closing_line(start, delim.data) {
                Some(c) => lemma_past_blank_lines_idem(next_line(c)),
                None => lemma_past_blank_lines_empty(start.skip(start.len())),
            }
        } else if has_media_prefix(line) && media_block_of(md, attrs).0 is Some {
            lemma_past_blank_lines_idem(next_line(md.block_start));
        } else if has_section_prefix(line) && title_line(past_blank_lines(md.block_start)).0 is Some {
            if let Block::Section(sb) = b {
                let (afters, ps) = choose|afters: Seq<SpanView>, ps: Seq<ParserView>|
                    #[trigger] blocks_run(section_body(md), attrs, Some(sb@.level), sb.blocks_view(), afters, ps, after);
                let n = sb.blocks_view().len() as int;
                lemma_past_blank_lines_idem(if n == 0 { section_body(md) } else { afters[n - 1] });
            }
        } else if has_break_prefix(line) && break_of(md) is Some {
            lemma_past_blank_lines_idem(md.block_start.skip(line_after_len(md.block_start.data)));
        } else if list_starts(md, attrs) && b is List {
            if let Block::List(lb) = b {
                let src = past_blank_lines(md.block_start);
                let afters = choose|afters: Seq<SpanView>|
                    {
                        &&& afters.len() == lb.items_view().len()
                        &&& after == item_start(src, afters, lb.items_view().len() as int)
                        &&& forall|i: int|
                            0 <= i < lb.items_view().len() ==> (#[trigger] lb.items_view()[i] matches Block::ListItem(li)
                                && list_item_parsed(
                                bare_md(item_start(src, afters, i)),
                                attrs,
                                li@,
                                li.blocks_view(),
                                afters[i],
                            ))
                    };
                lemma_past_blank_lines_idem(afters[lb.items_view().len() - 1]);
            }
        } else {
            if simple_block_of(md, attrs, false) is None && (md.header.title is Some || md.header.attrlist is Some) {
                let rm = reset_md(md);
                match simple_lines(rm.block_start, rm.header.attrlist, false, attrs) {
                    Some((_, _, end)) => lemma_past_blank_lines_idem(end),
                    None => {},
                }
            } else {
                match simple_lines(md.block_start, md.header.attrlist, false, attrs) {
                    Some((_, _, end)) => lemma_past_blank_lines_idem(end),
                    None => {},
                }
            }
        }
    }
}

/// A block found at `source` (outside a list) starts at or past the first
/// line that is not blank: the blank lines in front of it are not part of
/// it.
pub proof fn lemma_block_starts_past_blank_lines(
    source: SpanView,
    attrs: Seq<(Seq<char>, Option<Seq<char>>)>,
    p: ParserView,
    b: Block,
    after: SpanView,
)
    requires
        source.wf(),
        block_parsed(source, attrs, p, Some((b, after))),
    ensures
        past_blank_lines(source).offset <= b.source_view().offset,
{
    reveal(block_shape);
    assert forall|v: SpanView, n: int| #[trigger] v.sub(0, n).offset == v.offset by {
        lemma_sub_start_offset(v, n);
    }
    lemma_empty_lines_len(source.data);
    let fast = simple_block_of(bare_md(source), attrs, false);
    if fast_path_line(first_line_text(source)) && fast is Some {
        // a paragraph is only read where the first line is not blank
        let (style, stop) = block_style(source, None, false);
        assert(normalized_line_len(source.data) != 0 || lines_loop(
            source,
            Seq::empty(),
            false,
            stop,
            skip_blank_col(source) - 1,
        ).0 == source);
        assert(empty_lines_len(source.data) == 0);
        assert(past_blank_lines(source).offset == source.offset);
    } else {
        let md = metadata_of_source(source, attrs);
        let line = first_line_of(md);
        assert(md.source == past_blank_lines(source));
        if !is_literal_style(md.header.attrlist) && raw_block_of(md, attrs) is None && compound_block_of(md) is None
            && !(has_media_prefix(line) && media_block_of(md, attrs).0 is Some) && !(has_section_prefix(line)
            && title_line(past_blank_lines(md.block_start)).0 is Some) && !(has_break_prefix(line) && break_of(md)
            is Some) && list_starts(md, attrs) && b is List {
            lemma_skip_wf(source, empty_lines_len(source.data));
            lemma_md_loop_suffix(md.source, (None, None, None, None), attrs);
            lemma_past_blank_lines(md.block_start, md.source);
            lemma_suffix_offset(past_blank_lines(md.block_start), md.source);
        }
    }
}

/// The warnings from reading the metadata at the start of `source`.
pub open spec fn metadata_warnings(source: SpanView, attrs: Seq<(Seq<char>, Option<Seq<char>>)>) -> Seq<
    (SpanView, WarningType),
> {
    md_loop(source.skip(empty_lines_len(source.data)), (None, None, None, None), attrs).2
}

/// Where the metadata `md` has a title or an attribute list but no
/// paragraph follows it (`in_list`: read inside a list item), a warning at
/// the metadata's source; else nothing.
pub open spec fn missing_block_warnings(
    md: MetadataView,
    attrs: Seq<(Seq<char>, Option<Seq<char>>)>,
    in_list: bool,
) -> Seq<(SpanView, WarningType)> {
    if simple_block_of(md, attrs, in_list) is None && (md.header.title is Some || md.header.attrlist is Some) {
        seq![(md.source, WarningType::MissingBlockAfterTitleOrAttributeList)]
    } else {
        Seq::empty()
    }
}

/// `w` is `w0`, then `extra`, then the duplicate ID warning that
/// registering the ID of the block `r` (if one was found) gives.
pub open spec fn then_dup(
    catalog: Seq<(Seq<char>, Option<Seq<char>>, RefType)>,
    r: Option<(Block, SpanView)>,
    w0: Seq<(SpanView, WarningType)>,
    extra: Seq<(SpanView, WarningType)>,
    w: Seq<(SpanView, WarningType)>,
) -> bool {
    let k = (w0.len() + extra.len()) as int;
    match r {
        Some((b, _)) => k <= w.len() && w.take(k) == w0 + extra && dup_id_warnings(b, catalog, w.skip(k)),
        None => w == w0 + extra,
    }
}

/// The warnings `w` of parsing the compound delimited block `r` that the
/// metadata `md` introduces, where the warnings `w0` came before and
/// `catalog` is the catalog of IDs beforehand: `w0`, then the warning of an
/// unterminated block, then those of reading its blocks one after another,
/// then the duplicate ID warning that registering its ID (once its blocks
/// are read) gives.
pub open spec fn compound_block_warnings(
    md: MetadataView,
    attrs: Seq<(Seq<char>, Option<Seq<char>>)>,
    catalog: Seq<(Seq<char>, Option<Seq<char>>, RefType)>,
    r: Option<(Block, SpanView)>,
    w0: Seq<(SpanView, WarningType)>,
    w: Seq<(SpanView, WarningType)>,
) -> bool {
    match r {
        Some((Block::CompoundDelimited(b), _)) => exists|
            afters: Seq<SpanView>,
            ps: Seq<ParserView>,
            end: SpanView,
            rw: Seq<(SpanView, WarningType)>,
        |
            #![trigger blocks_run(compound_inside(md), attrs, None, b.blocks_view(), afters, ps, end), run_warnings(compound_inside(md), attrs, catalog, None, 0, b.blocks_view(), afters, ps, end, rw)]
            {
                &&& blocks_run(compound_inside(md), attrs, None, b.blocks_view(), afters, ps, end)
                &&& run_warnings(compound_inside(md), attrs, catalog, None, 0, b.blocks_view(), afters, ps, end, rw)
                &&& then_dup(
                    catalog_before(catalog, ps, b.blocks_view().len() as int),
                    r,
                    w0,
                    unterminated_warnings(md) + rw,
                    w,
                )
            },
        _ => false,
    }
}

/// The warnings `w` of parsing the section `r` that the metadata `md`
/// introduces, where the warnings `w0` came before and `catalog` is the
/// catalog of IDs beforehand: `w0`, then those of reading its blocks one
/// after another (with those of the looks for a section title that ends
/// it), then those that registering its ID gives.
pub open spec fn section_block_warnings(
    md: MetadataView,
    attrs: Seq<(Seq<char>, Option<Seq<char>>)>,
    catalog: Seq<(Seq<char>, Option<Seq<char>>, RefType)>,
    r: Option<(Block, SpanView)>,
    w0: Seq<(SpanView, WarningType)>,
    w: Seq<(SpanView, WarningType)>,
) -> bool {
    match r {
        Some((Block::Section(b), after)) => exists|
            afters: Seq<SpanView>,
            ps: Seq<ParserView>,
            rw: Seq<(SpanView, WarningType)>,
        |
            #![trigger blocks_run(section_body(md), attrs, Some(b@.level), b.blocks_view(), afters, ps, after), run_warnings(section_body(md), attrs, catalog, Some(b@.level), b@.level, b.blocks_view(), afters, ps, after, rw)]
            {
                let k = w0.len() + rw.len();
                &&& blocks_run(section_body(md), attrs, Some(b@.level), b.blocks_view(), afters, ps, after)
                &&& run_warnings(section_body(md), attrs, catalog, Some(b@.level), b@.level, b.blocks_view(), afters, ps, after, rw)
                &&& k <= w.len()
                &&& w.take(k as int) == w0 + rw
                &&& section_dup_warnings(
                    md,
                    catalog_before(catalog, ps, b.blocks_view().len() as int),
                    w.skip(k as int),
                )
            },
        _ => false,
    }
}

/// What is known of the warnings `w` of parsing the block that the metadata
/// `md` introduces (`in_list`: inside a list item, where it does not end
/// the item), where the warnings `w0` came before
/// and `catalog` is the catalog of IDs beforehand: `w` begins with `w0`;
/// then come those of a raw delimited block or a media block and the
/// duplicate ID warning that registering its ID gives; past those kinds,
/// what [`md_tail_warnings`] says.
pub open spec fn md_block_warnings(
    md: MetadataView,
    attrs: Seq<(Seq<char>, Option<Seq<char>>)>,
    catalog: Seq<(Seq<char>, Option<Seq<char>>, RefType)>,
    r: Option<(Block, SpanView)>,
    w0: Seq<(SpanView, WarningType)>,
    w: Seq<(SpanView, WarningType)>,
    in_list: bool,
) -> bool {
    let line = first_line_of(md);
    let n = w0.len() as int;
    &&& n <= w.len()
    &&& w.take(n) == w0
    &&& if is_literal_style(md.header.attrlist) {
        then_dup(catalog, r, w0, Seq::empty(), w)
    } else if raw_block_of(md, attrs) is Some {
        raw_block_of(md, attrs) matches Some((_, _, rw)) && then_dup(catalog, r, w0, rw, w)
    } else if compound_block_of(md) is Some {
        true
    } else if has_media_prefix(line) && media_block_of(md, attrs).0 is Some {
        then_dup(catalog, r, w0, media_block_of(md, attrs).1, w)
    } else {
        md_tail_warnings(md, attrs, catalog, r, w0, w, in_list)
    }
}

/// The warnings past the delimited and media blocks: a break adds none;
/// otherwise, past the warnings of a line that looked like a section title
/// but is none, what [`md_rest_warnings`] says.
pub open spec fn md_tail_warnings(
    md: MetadataView,
    attrs: Seq<(Seq<char>, Option<Seq<char>>)>,
    catalog: Seq<(Seq<char>, Option<Seq<char>>, RefType)>,
    r: Option<(Block, SpanView)>,
    w0: Seq<(SpanView, WarningType)>,
    w: Seq<(SpanView, WarningType)>,
    in_list: bool,
) -> bool {
    let line = first_line_of(md);
    if has_section_prefix(line) && title_line(past_blank_lines(md.block_start)).0 is Some {
        true
    } else if has_break_prefix(line) && break_of(md) is Some {
        w == w0
    } else if has_section_prefix(line) {
        md_rest_warnings(md, attrs, catalog, r, w0 + title_line(past_blank_lines(md.block_start)).1, w, in_list)
    } else {
        md_rest_warnings(md, attrs, catalog, r, w0, w, in_list)
    }
}

/// The warnings past every other kind: a list adds none; a paragraph adds those of
/// [`missing_block_warnings`] and the duplicate ID warning that registering
/// its ID gives.
pub open spec fn md_rest_warnings(
    md: MetadataView,
    attrs: Seq<(Seq<char>, Option<Seq<char>>)>,
    catalog: Seq<(Seq<char>, Option<Seq<char>>, RefType)>,
    r: Option<(Block, SpanView)>,
    w0: Seq<(SpanView, WarningType)>,
    w: Seq<(SpanView, WarningType)>,
    in_list: bool,
) -> bool {
    if r matches Some((Block::List(_), _)) {
        w == w0
    } else {
        then_dup(catalog, r, w0, missing_block_warnings(md, attrs, in_list), w)
    }
}

/// What is known of the warnings `w` of parsing a block at `source`
/// (outside a list), with `catalog` the catalog of IDs beforehand: a
/// paragraph read directly gives only the duplicate ID warning of its ID;
/// otherwise the warnings begin with those of the metadata, as
/// [`md_block_warnings`] says.
#[verifier::opaque]
pub open spec fn block_warnings(
    source: SpanView,
    attrs: Seq<(Seq<char>, Option<Seq<char>>)>,
    catalog: Seq<(Seq<char>, Option<Seq<char>>, RefType)>,
    r: Option<(Block, SpanView)>,
    w: Seq<(SpanView, WarningType)>,
) -> bool {
    let fast = simple_block_of(bare_md(source), attrs, false);
    if fast_path_line(first_line_text(source)) && fast is Some {
        r matches Some((b, _)) && dup_id_warnings(b, catalog, w)
    } else {
        md_block_warnings(
            metadata_of_source(source, attrs),
            attrs,
            catalog,
            r,
            metadata_warnings(source, attrs),
            w,
            false,
        )
    }
}

/// The warnings `w` of parsing a compound delimited block or a section
/// that the metadata `md` introduces (outside a list), as
/// [`compound_block_warnings`] and [`section_block_warnings`] say; nothing
/// more is said here of the other kinds (see [`md_block_warnings`]).
pub open spec fn nested_warnings(
    md: MetadataView,
    attrs: Seq<(Seq<char>, Option<Seq<char>>)>,
    catalog: Seq<(Seq<char>, Option<Seq<char>>, RefType)>,
    r: Option<(Block, SpanView)>,
    w0: Seq<(SpanView, WarningType)>,
    w: Seq<(SpanView, WarningType)>,
) -> bool {
    let line = first_line_of(md);
    if is_literal_style(md.header.attrlist) || raw_block_of(md, attrs) is Some {
        true
    } else if compound_block_of(md) is Some {
        compound_block_warnings(md, attrs, catalog, r, w0, w)
    } else if has_media_prefix(line) && media_block_of(md, attrs).0 is Some {
        true
    } else if has_section_prefix(line) && title_line(past_blank_lines(md.block_start)).0 is Some {
        section_block_warnings(md, attrs, catalog, r, w0, w)
    } else {
        true
    }
}

/// The warnings `w` of parsing a block at `source` (outside a list) where
/// it is a compound delimited block or a section read past its metadata,
/// as [`nested_warnings`] says.
#[verifier::opaque]
pub open spec fn block_nested_warnings(
    source: SpanView,
    attrs: Seq<(Seq<char>, Option<Seq<char>>)>,
    catalog: Seq<(Seq<char>, Option<Seq<char>>, RefType)>,
    r: Option<(Block, SpanView)>,
    w: Seq<(SpanView, WarningType)>,
) -> bool {
    let fast = simple_block_of(bare_md(source), attrs, false);
    !(fast_path_line(first_line_text(source)) && fast is Some) ==> nested_warnings(
        metadata_of_source(source, attrs),
        attrs,
        catalog,
        r,
        metadata_warnings(source, attrs),
        w,
    )
}

/// Splitting a sequence that starts with `a + b`.
proof fn lemma_prefix_split<A>(w: Seq<A>, a: Seq<A>, b: Seq<A>)
    requires
        a.len() + b.len() <= w.len(),
        w.take((a.len() + b.len()) as int) == a + b,
    ensures
        w.take(a.len() as int) == a,
        w.skip(a.len() as int).take(b.len() as int) == b,
{
    assert(w.take(a.len() as int) =~= (a + b).take(a.len() as int));
    assert(w.skip(a.len() as int).take(b.len() as int) =~= (a + b).skip(a.len() as int));
}

impl Block {
    /// The source text of this block.
    pub open spec fn source_view(&self) -> SpanView {
        match self {
            Block::Simple(b) => b@.source,
            Block::Media(b) => b@.source,
            Block::Section(b) => b@.source,
            Block::List(b) => b@.source,
            Block::ListItem(b) => b@.source,
            Block::RawDelimited(b) => b@.source,
            Block::CompoundDelimited(b) => b@.source,
            Block::Preamble(b) => b@.source,
            Block::Break(b) => b@.source,
        }
    }

    /// The title, anchor and attribute list of this block.
    pub open spec fn header_view(&self) -> HeaderView {
        match self {
            Block::Simple(b) => b.block_header(),
            Block::Media(b) => b.block_header(),
            Block::Section(b) => b.block_header(),
            Block::List(b) => b.block_header(),
            Block::ListItem(b) => b.block_header(),
            Block::RawDelimited(b) => b.block_header(),
            Block::CompoundDelimited(b) => b.block_header(),
            Block::Preamble(b) => b.block_header(),
            Block::Break(b) => b.block_header(),
        }
    }

    /// Returns the source text of this block.
    pub fn span(&self) -> (r: &Span)
        ensures
            r@ == self.source_view(),
    {
        match self {
            Block::Simple(b) => b.span(),
            Block::Media(b) => b.span(),
            Block::Section(b) => b.span(),
            Block::List(b) => b.span(),
            Block::ListItem(b) => b.span(),
            Block::RawDelimited(b) => b.span(),
            Block::CompoundDelimited(b) => b.span(),
            Block::Preamble(b) => b.span(),
            Block::Break(b) => b.span(),
        }
    }

    /// Parses a block of any type at the start of `source`, with blank
    /// lines before and after it.
    pub fn parse(source: &Span, parser: &mut Parser) -> (r: MatchAndWarnings<Option<MatchedItem<Block>>>)
        requires
            source@.wf(),
        ensures
            parser_kept(old(parser)@, final(parser)@),
            r.item matches Some(mi) ==> consumed(mi.after@, source@),
            r.item is None ==> final(parser)@ == old(parser)@,
            block_parsed(source@, old(parser)@.attributes, final(parser)@, found_block(r.item)),
            block_warnings(
                source@,
                old(parser)@.attributes,
                old(parser)@.catalog,
                found_block(r.item),
                warning_views(r.warnings@),
            ),
            block_nested_warnings(
                source@,
                old(parser)@.attributes,
                old(parser)@.catalog,
                found_block(r.item),
                warning_views(r.warnings@),
            ),
            id_registered(found_block(r.item), final(parser)@.catalog),
            past_blank_lines(source@).len() == 0 ==> r.item is None,
            r.item matches Some(mi) ==> past_blank_lines(mi.after@) == mi.after@,
            r.item matches Some(mi) ==> past_blank_lines(source@).offset <= mi.item.source_view().offset,
    {
        let r = Self::parse_internal(source, parser, None);
        proof {
            if let Some(mi) = &r.item {
                lemma_block_consumes_trailing_blank_lines(
                    source@,
                    old(parser)@.attributes,
                    parser@,
                    mi.item,
                    mi.after@,
                );
                lemma_block_starts_past_blank_lines(source@, old(parser)@.attributes, parser@, mi.item, mi.after@);
            }
            if past_blank_lines(source@).len() == 0 {
                lemma_blank_input(source@, old(parser)@.attributes, parser@, found_block(r.item));
            }
        }
        r
    }

    /// Parses a block outside a list, as [`Block::parse`] does, for the
    /// readers of runs of blocks.
    pub(crate) fn parse_outside_list(source: &Span, parser: &mut Parser) -> (r: MatchAndWarnings<
        Option<MatchedItem<Block>>,
    >)
        requires
            source@.wf(),
        ensures
            parser_kept(old(parser)@, final(parser)@),
            r.item is None ==> final(parser)@ == old(parser)@,
            r.item matches Some(mi) ==> consumed(mi.after@, source@),
            block_parsed(source@, old(parser)@.attributes, final(parser)@, found_block(r.item)),
            block_warnings(
                source@,
                old(parser)@.attributes,
                old(parser)@.catalog,
                found_block(r.item),
                warning_views(r.warnings@),
            ),
        decreases source@.len(), 9int,
    {
        Self::parse_internal(source, parser, None)
    }

    /// Parses a block inside a list item whose marker and those of the
    /// items that enclose it are `parents`: a section title, a marker of a
    /// parent list, or a line comment ends the list item instead, with no
    /// warning and no change to the parser; otherwise the warnings are those
    /// of the metadata, then as [`md_block_warnings`] says.
    pub fn parse_for_list_item(source: &Span, parser: &mut Parser, parents: &[ListItemMarker]) -> (r:
        MatchAndWarnings<Option<MatchedItem<Block>>>)
        requires
            source@.wf(),
        ensures
            parser_kept(old(parser)@, final(parser)@),
            r.item matches Some(mi) ==> consumed(mi.after@, source@),
            r.item is None ==> final(parser)@ == old(parser)@,
            md_block_parsed(
                metadata_of_source(source@, old(parser)@.attributes),
                old(parser)@.attributes,
                final(parser)@,
                Some(marker_views(parents@)),
                found_block(r.item),
            ),
            stops_list_item(
                metadata_of_source(source@, old(parser)@.attributes),
                old(parser)@.attributes,
                marker_views(parents@),
                found_block(r.item),
            ) ==> r.warnings@.len() == 0 && final(parser)@ == old(parser)@,
            !stops_list_item(
                metadata_of_source(source@, old(parser)@.attributes),
                old(parser)@.attributes,
                marker_views(parents@),
                found_block(r.item),
            ) ==> md_block_warnings(
                metadata_of_source(source@, old(parser)@.attributes),
                old(parser)@.attributes,
                old(parser)@.catalog,
                found_block(r.item),
                metadata_warnings(source@, old(parser)@.attributes),
                warning_views(r.warnings@),
                true,
            ),
            id_registered(found_block(r.item), final(parser)@.catalog),
    {
        Self::parse_internal(source, parser, Some(parents))
    }

    /// Registers this block's ID, if it has one, in the catalog (with its
    /// title as reference text); warns if the ID is already taken.
    fn register_block_id(&self, parser: &mut Parser, warnings: &mut Vec<Warning>)
        ensures
            parser_kept(old(parser)@, final(parser)@),
            match id_of(self.header_view(), self.fallback_id()) {
                Some(id) => if catalog_has(old(parser)@.catalog, id) {
                    final(parser)@ == old(parser)@
                } else {
                    final(parser)@ == (ParserView {
                        catalog: old(parser)@.catalog.push((id, self.header_view().title, RefType::Anchor)),
                        ..old(parser)@
                    })
                },
                None => final(parser)@ == old(parser)@,
            },
            warnings_extend(old(warnings)@, final(warnings)@),
            id_of(self.header_view(), self.fallback_id()) matches Some(id) ==> catalog_has(
                final(parser)@.catalog,
                id,
            ),
            dup_id_warnings(
                *self,
                old(parser)@.catalog,
                warning_views(final(warnings)@).skip(old(warnings)@.len() as int),
            ),
    {
        proof {
            lemma_parser_kept_refl(parser@);
        }
        let ghost w0 = warnings@;
        if let Some(id) = self.id() {
            if !parser.register_ref(id, self.title(), RefType::Anchor) {
                warnings.push(Warning { source: self.span().copy(), warning: WarningType::DuplicateId(id.to_owned()) });
                proof {
                    assert(warning_views(warnings@).take(w0.len() as int) =~= warning_views(w0));
                    assert(warning_views(warnings@).skip(w0.len() as int).len() == 1);
                }
            } else {
                assert(parser@.catalog.take(old(parser)@.catalog.len() as int) =~= old(parser)@.catalog);
                assert(warning_views(warnings@).take(w0.len() as int) =~= warning_views(w0));
                assert(parser@.catalog[old(parser)@.catalog.len() as int].0 == id@);
            }
        } else {
            assert(warning_views(warnings@).take(w0.len() as int) =~= warning_views(w0));
        }
    }

    fn finish(self, after: Span, warnings: Vec<Warning>, parser: &mut Parser) -> (r: MatchAndWarnings<
        Option<MatchedItem<Block>>,
    >)
        ensures
            parser_kept(old(parser)@, final(parser)@),
            r.item matches Some(mi) && mi.after@ == after@ && mi.item == self,
            warnings_extend(warnings@, r.warnings@),
            id_of(self.header_view(), self.fallback_id()) matches Some(id) ==> catalog_has(
                final(parser)@.catalog,
                id,
            ),
            dup_id_warnings(self, old(parser)@.catalog, warning_views(r.warnings@).skip(warnings@.len() as int)),
    {
        let mut warnings = warnings;
        self.register_block_id(parser, &mut warnings);
        MatchAndWarnings { item: Some(MatchedItem { item: self, after }), warnings }
    }

    /// Shared parser for [`Block::parse`] and [`Block::parse_for_list_item`].
    pub fn parse_internal(source: &Span, parser: &mut Parser, parents: Option<&[ListItemMarker]>) -> (r:
        MatchAndWarnings<Option<MatchedItem<Block>>>)
        requires
            source@.wf(),
        ensures
            parser_kept(old(parser)@, final(parser)@),
            r.item matches Some(mi) ==> consumed(mi.after@, source@),
            r.item is None ==> final(parser)@ == old(parser)@,
            parents is None ==> block_parsed(source@, old(parser)@.attributes, final(parser)@, found_block(r.item)),
            parents is None ==> block_warnings(
                source@,
                old(parser)@.attributes,
                old(parser)@.catalog,
                found_block(r.item),
                warning_views(r.warnings@),
            ),
            parents is None ==> block_nested_warnings(
                source@,
                old(parser)@.attributes,
                old(parser)@.catalog,
                found_block(r.item),
                warning_views(r.warnings@),
            ),
            id_registered(found_block(r.item), final(parser)@.catalog),
            parents is Some ==> md_block_parsed(
                metadata_of_source(source@, old(parser)@.attributes),
                old(parser)@.attributes,
                final(parser)@,
                parents_view(parents),
                found_block(r.item),
            ),
            parents_view(parents) matches Some(ps) && stops_list_item(
                metadata_of_source(source@, old(parser)@.attributes),
                old(parser)@.attributes,
                ps,
                found_block(r.item),
            ) ==> r.warnings@.len() == 0 && final(parser)@ == old(parser)@,
            parents_view(parents) matches Some(ps) && !stops_list_item(
                metadata_of_source(source@, old(parser)@.attributes),
                old(parser)@.attributes,
                ps,
                found_block(r.item),
            ) ==> md_block_warnings(
                metadata_of_source(source@, old(parser)@.attributes),
                old(parser)@.attributes,
                old(parser)@.catalog,
                found_block(r.item),
                metadata_warnings(source@, old(parser)@.attributes),
                warning_views(r.warnings@),
                true,
            ),
        decreases source@.len(), 8int,
    {
        proof {
            lemma_parser_kept_refl(parser@);
            crate::span::lemma_suffix_refl(source@);
            reveal(block_warnings);
            reveal(block_nested_warnings);
            reveal(block_shape);
        }
        let first_line = source.take_line().item.discard_whitespace();
        if first_line.len() > 0 && parents.is_none() {
            let c = first_line.char_at(0);
            if !(c == '.' || c == '#' || c == '=' || c == '/' || c == '-' || c == '+' || c == '*' || c
                == '_' || c == '[' || c == ':' || c == '\'' || c == '<' || c == '\u{2022}')
                && !first_line.contains_str("::") && !first_line.contains_str(";;")
                && !ListItemMarker::starts_with_marker(&first_line) {
                if let Some(mi) = SimpleBlock::parse_fast(source, parser) {
                    return Block::Simple(mi.item).finish(mi.after, Vec::new(), parser);
                }
            }
        }
        let md_maw = BlockMetadata::parse(source, parser);
        proof {
            lemma_suffix_trans(md_maw.item.block_start@, md_maw.item.source@, source@);
        }
        let ghost src = md_maw.item.source@;
        let r = Self::parse_with_metadata(md_maw.item, md_maw.warnings, parser, parents);
        proof {
            if let Some(mi) = &r.item {
                lemma_consumed_trans(mi.after@, src, source@);
            }
        }
        r
    }

    /// Parses the block that the metadata `md` introduces; `warnings` are
    /// those found so far.
    #[verifier::rlimit(60)]
    #[verifier::spinoff_prover]
    fn parse_with_metadata(
        md: BlockMetadata,
        warnings: Vec<Warning>,
        parser: &mut Parser,
        parents: Option<&[ListItemMarker]>,
    ) -> (r: MatchAndWarnings<Option<MatchedItem<Block>>>)
        requires
            md.wf(),
        ensures
            parser_kept(old(parser)@, final(parser)@),
            r.item matches Some(mi) ==> consumed(mi.after@, md.source@),
            r.item is None ==> final(parser)@ == old(parser)@,
            md_block_parsed(
                md.md_view(),
                old(parser)@.attributes,
                final(parser)@,
                parents_view(parents),
                found_block(r.item),
            ),
            parents_view(parents) matches Some(ps) && stops_list_item(md.md_view(), old(parser)@.attributes, ps, found_block(r.item))
                ==> r.warnings@.len() == 0 && final(parser)@ == old(parser)@,
            !(parents_view(parents) matches Some(ps) && stops_list_item(md.md_view(), old(parser)@.attributes, ps, found_block(r.item)))
                ==> md_block_warnings(
                md.md_view(),
                old(parser)@.attributes,
                old(parser)@.catalog,
                found_block(r.item),
                warning_views(warnings@),
                warning_views(r.warnings@),
                parents is Some,
            ),
            parents is None ==> nested_warnings(
                md.md_view(),
                old(parser)@.attributes,
                old(parser)@.catalog,
                found_block(r.item),
                warning_views(warnings@),
                warning_views(r.warnings@),
            ),
            id_registered(found_block(r.item), final(parser)@.catalog),
        decreases md.source@.len(), 7int,
    {
        proof {
            lemma_parser_kept_refl(parser@);
            lemma_warnings_extend_refl(warnings@);
        }
        let ghost w_in = warnings@;
        let mut warnings = warnings;
        let ghost bs = md.block_start@;
        let is_literal = match &md.attrlist {
            Some(a) => match a.block_style() {
                Some(s) => str_eq(s, "literal"),
                None => false,
            },
            None => false,
        };
        if is_literal {
            return Self::finish_simple(md, warnings, parser, parents.is_some());
        }
        if let Some(rdb_maw) = RawDelimitedBlock::parse(&md, parser) {
            if let Some(rdb) = rdb_maw.item {
                let mut w = rdb_maw.warnings;
                let ghost rw = w@;
                warnings.append(&mut w);
                proof {
                    lemma_consumed_trans(rdb.after@, bs, md.source@);
                    lemma_warnings_extend_append(w_in, rw);
                }
                let ghost w_mid = warnings@;
                let r = Block::RawDelimited(rdb.item).finish(rdb.after, warnings, parser);
                proof {
                    lemma_prefix_split(warning_views(r.warnings@), warning_views(w_in), warning_views(rw));
                    lemma_warnings_extend_trans(w_in, w_mid, r.warnings@);
                    assert(warning_views(w_mid) =~= warning_views(w_in) + warning_views(rw));
                }
                return r;
            }
        }
        let ghost p0 = parser@;
        if let Some(cdb_maw) = CompoundDelimitedBlock::parse(&md, parser) {
            if let Some(cdb) = cdb_maw.item {
                let mut w = cdb_maw.warnings;
                let ghost cw = w@;
                warnings.append(&mut w);
                proof {
                    lemma_consumed_trans(cdb.after@, bs, md.source@);
                    lemma_warnings_extend_append(w_in, cw);
                }
                let ghost w_mid = warnings@;
                let ghost p1 = parser@;
                let block = Block::CompoundDelimited(cdb.item);
                proof {
                    assert(compound_nested(md.md_view(), old(parser)@.attributes, cdb.item));
                }
                let r = block.finish(cdb.after, warnings, parser);
                proof {
                    lemma_parser_kept_trans(p0, p1, parser@);
                    lemma_warnings_extend_trans(w_in, w_mid, r.warnings@);
                }
                return r;
            }
        }
        let line = md.block_start.take_normalized_line();
        if line.item.starts_with("image::") || line.item.starts_with("video::") || line.item.starts_with("audio::") {
            let media_maw = MediaBlock::parse(&md, parser);
            if let Some(media) = media_maw.item {
                let mut w = media_maw.warnings;
                let ghost mw = w@;
                warnings.append(&mut w);
                proof {
                    lemma_consumed_trans(media.after@, bs, md.source@);
                    lemma_warnings_extend_append(w_in, mw);
                }
                let ghost w_mid = warnings@;
                let ghost p1 = parser@;
                let r = Block::Media(media.item).finish(media.after, warnings, parser);
                proof {
                    lemma_parser_kept_trans(old(parser)@, p1, parser@);
                    lemma_prefix_split(warning_views(r.warnings@), warning_views(w_in), warning_views(mw));
                    lemma_warnings_extend_trans(w_in, w_mid, r.warnings@);
                    assert(warning_views(w_mid) =~= warning_views(w_in) + warning_views(mw));
                }
                return r;
            }
        }
        Self::parse_tail(md, warnings, parser, parents)
    }

    /// Parses, past the delimited and media blocks, a section or a break,
    /// else what [`Block::parse_rest`] finds.
    #[verifier::rlimit(40)]
    #[verifier::spinoff_prover]
    fn parse_tail(
        md: BlockMetadata,
        warnings: Vec<Warning>,
        parser: &mut Parser,
        parents: Option<&[ListItemMarker]>,
    ) -> (r: MatchAndWarnings<Option<MatchedItem<Block>>>)
        requires
            md.wf(),
        ensures
            parser_kept(old(parser)@, final(parser)@),
            r.item matches Some(mi) ==> consumed(mi.after@, md.source@),
            r.item is None ==> final(parser)@ == old(parser)@,
            md_tail_shape(md.md_view(), old(parser)@.attributes, final(parser)@, parents_view(parents), found_block(r.item)),
            nested_parsed(md.md_view(), old(parser)@.attributes, found_block(r.item)),
            parents_view(parents) matches Some(ps) && tail_stops(md.md_view(), old(parser)@.attributes, ps, found_block(r.item))
                ==> r.warnings@.len() == 0 && final(parser)@ == old(parser)@,
            !(parents_view(parents) matches Some(ps) && tail_stops(md.md_view(), old(parser)@.attributes, ps, found_block(r.item)))
                ==> warnings_extend(warnings@, r.warnings@),
            !(parents_view(parents) matches Some(ps) && tail_stops(md.md_view(), old(parser)@.attributes, ps, found_block(r.item)))
                ==> md_tail_warnings(
                md.md_view(),
                old(parser)@.attributes,
                old(parser)@.catalog,
                found_block(r.item),
                warning_views(warnings@),
                warning_views(r.warnings@),
                parents is Some,
            ),
            parents is None && has_section_prefix(first_line_of(md.md_view())) && title_line(
                past_blank_lines(md.md_view().block_start),
            ).0 is Some ==> section_block_warnings(
                md.md_view(),
                old(parser)@.attributes,
                old(parser)@.catalog,
                found_block(r.item),
                warning_views(warnings@),
                warning_views(r.warnings@),
            ),
            id_registered(found_block(r.item), final(parser)@.catalog),
        decreases md.source@.len(), 6int,
    {
        proof {
            lemma_parser_kept_refl(parser@);
            lemma_warnings_extend_refl(warnings@);
        }
        let ghost w_in = warnings@;
        let mut warnings = warnings;
        let ghost bs = md.block_start@;
        let line = md.block_start.take_normalized_line();
        if line.item.starts_with_char('=') || line.item.starts_with_char('#') {
            if parents.is_some() {
                // A section title ends the list item. The section is only
                // recognized here, not parsed: it is read again once the list
                // has ended, and registering its ID or assigning its number
                // now would give it a second ID (`_section_2`) and skip a
                // section number then.
                let title_source = md.block_start.discard_empty_lines();
                if parse_title_line(&title_source, &mut warnings).is_some() {
                    return MatchAndWarnings { item: None, warnings: Vec::new() };
                }
            } else {
                let section = SectionBlock::parse(&md, parser, &mut warnings);
                if let Some(section) = section {
                    proof {
                        lemma_consumed_trans(section.after@, bs, md.source@);
                        assert(section_nested(md.md_view(), old(parser)@.attributes, section.item, section.after@));
                    }
                    let block = Block::Section(section.item);
                    return MatchAndWarnings { item: Some(MatchedItem { item: block, after: section.after }), warnings };
                }
            }
            proof {
                assert(warning_views(warnings@).take(w_in.len() as int) =~= warning_views(w_in));
            }
        }
        if line.item.starts_with_char('\'') || line.item.starts_with_char('-') || line.item.starts_with_char('*')
            || line.item.starts_with_char('<') {
            if let Some(brk) = Break::parse(&md, parser) {
                proof {
                    lemma_consumed_trans(brk.after@, bs, md.source@);
                }
                return MatchAndWarnings {
                    item: Some(MatchedItem { item: Block::Break(brk.item), after: brk.after }),
                    warnings,
                };
            }
        }
        let ghost w_mid = warnings@;
        let r = Self::parse_rest(md, warnings, parser, parents);
        proof {
            if !(parents_view(parents) matches Some(ps) && tail_stops(md.md_view(), old(parser)@.attributes, ps, found_block(r.item))) {
                lemma_warnings_extend_trans(w_in, w_mid, r.warnings@);
            }
        }
        r
    }

    /// Parses, past every other kind, a list, or else a paragraph; inside a
    /// list item, a marker of an enclosing item or a line comment ends the
    /// item instead.
    #[verifier::rlimit(40)]
    #[verifier::spinoff_prover]
    fn parse_rest(
        md: BlockMetadata,
        warnings: Vec<Warning>,
        parser: &mut Parser,
        parents: Option<&[ListItemMarker]>,
    ) -> (r: MatchAndWarnings<Option<MatchedItem<Block>>>)
        requires
            md.wf(),
        ensures
            parser_kept(old(parser)@, final(parser)@),
            r.item matches Some(mi) ==> consumed(mi.after@, md.source@),
            r.item is None ==> final(parser)@ == old(parser)@,
            md_rest_shape(md.md_view(), old(parser)@.attributes, parents_view(parents), found_block(r.item)),
            parents_view(parents) matches Some(ps) && rest_stops(md.md_view(), old(parser)@.attributes, ps, found_block(r.item))
                ==> r.warnings@.len() == 0 && final(parser)@ == old(parser)@,
            !(parents_view(parents) matches Some(ps) && rest_stops(md.md_view(), old(parser)@.attributes, ps, found_block(r.item)))
                ==> warnings_extend(warnings@, r.warnings@),
            !(parents_view(parents) matches Some(ps) && rest_stops(md.md_view(), old(parser)@.attributes, ps, found_block(r.item)))
                ==> md_rest_warnings(
                md.md_view(),
                old(parser)@.attributes,
                old(parser)@.catalog,
                found_block(r.item),
                warning_views(warnings@),
                warning_views(r.warnings@),
                parents is Some,
            ),
            id_registered(found_block(r.item), final(parser)@.catalog),
        decreases md.source@.len(), 5int,
    {
        proof {
            lemma_parser_kept_refl(parser@);
            lemma_warnings_extend_refl(warnings@);
        }
        let ghost w_in = warnings@;
        let mut warnings = warnings;
        let ghost bs = md.block_start@;
        let line = md.block_start.take_normalized_line();
        if let Some(ps) = parents {
            if let Some(this_marker) = ListItemMarker::parse(&line.item) {
                let mut parent_match = false;
                let mut i: usize = 0;
                while i < ps.len()
                    invariant
                        i <= ps@.len(),
                        parent_match == exists|j: int| 0 <= j < i && #[trigger] markers_match(
                            marker_views(ps@)[j],
                            this_marker.item@,
                        ),
                    decreases ps@.len() - i,
                {
                    let hit = ps[i].is_match_for(&this_marker.item);
                    proof {
                        assert(marker_views(ps@)[i as int] == ps@[i as int]@);
                        if hit {
                            assert(markers_match(marker_views(ps@)[i as int], this_marker.item@));
                        } else {
                            assert(!markers_match(marker_views(ps@)[i as int], this_marker.item@));
                        }
                    }
                    if hit {
                        parent_match = true;
                    }
                    i = i + 1;
                }
                if parent_match {
                    return MatchAndWarnings { item: None, warnings: Vec::new() };
                }
                let list = ListBlock::parse_inside_list(&md, ps, parser, &mut warnings);
                if let Some(list) = list {
                    proof {
                        lemma_consumed_trans(list.after@, bs, md.source@);
                    }
                    return MatchAndWarnings {
                        item: Some(MatchedItem { item: Block::List(list.item), after: list.after }),
                        warnings,
                    };
                }
            }
        } else {
            let list = ListBlock::parse(&md, parser, &mut warnings);
            if let Some(list) = list {
                proof {
                    lemma_consumed_trans(list.after@, bs, md.source@);
                }
                return MatchAndWarnings {
                    item: Some(MatchedItem { item: Block::List(list.item), after: list.after }),
                    warnings,
                };
            }
        }
        if parents.is_some() && md.block_start.starts_with("//") && !md.block_start.starts_with("///") {
            return MatchAndWarnings { item: None, warnings: Vec::new() };
        }
        let simple = if parents.is_some() {
            SimpleBlock::parse_for_list_item(&md, parser)
        } else {
            SimpleBlock::parse(&md, parser)
        };
        if simple.is_none() && !md.is_empty() {
            let ghost w_before = warnings@;
            warnings.push(Warning { source: md.source.copy(), warning: WarningType::MissingBlockAfterTitleOrAttributeList });
            proof {
                assert(warning_views(warnings@).take(w_before.len() as int) =~= warning_views(w_before));
                assert(warning_views(warnings@) =~= warning_views(w_before) + missing_block_warnings(
                    md.md_view(),
                    old(parser)@.attributes,
                    parents is Some,
                ));
                lemma_warnings_extend_trans(w_in, w_before, warnings@);
            }
            let reset = BlockMetadata {
                title_source: None,
                title: None,
                anchor: None,
                anchor_reftext: md.anchor_reftext,
                attrlist: None,
                source: md.source.copy(),
                block_start: md.source.copy(),
            };
            proof {
                crate::span::lemma_suffix_refl(reset.source@);
            }
            let ghost w_mid = warnings@;
            let r = Self::finish_simple(reset, warnings, parser, parents.is_some());
            proof {
                lemma_warnings_extend_trans(w_in, w_mid, r.warnings@);
            }
            return r;
        }
        proof {
            assert(warning_views(warnings@) =~= warning_views(w_in) + missing_block_warnings(
                md.md_view(),
                old(parser)@.attributes,
                parents is Some,
            ));
        }
        Self::finish_simple(md, warnings, parser, parents.is_some())
    }

    /// Reads the block that the metadata `md` introduces as a paragraph
    /// (`in_list`: inside a list item) and registers its ID.
    fn finish_simple(md: BlockMetadata, warnings: Vec<Warning>, parser: &mut Parser, in_list: bool) -> (r:
        MatchAndWarnings<Option<MatchedItem<Block>>>)
        requires
            md.wf(),
        ensures
            parser_kept(old(parser)@, final(parser)@),
            r.item matches Some(mi) ==> consumed(mi.after@, md.source@),
            r.item is None ==> final(parser)@ == old(parser)@,
            simple_result(simple_block_of(md.md_view(), old(parser)@.attributes, in_list), found_block(r.item)),
            warnings_extend(warnings@, r.warnings@),
            then_dup(
                old(parser)@.catalog,
                found_block(r.item),
                warning_views(warnings@),
                Seq::empty(),
                warning_views(r.warnings@),
            ),
            id_registered(found_block(r.item), final(parser)@.catalog),
    {
        proof {
            lemma_parser_kept_refl(parser@);
            lemma_warnings_extend_refl(warnings@);
            assert(warning_views(warnings@) + Seq::<(SpanView, WarningType)>::empty() =~= warning_views(warnings@));
        }
        let ghost bs = md.block_start@;
        let simple = if in_list {
            SimpleBlock::parse_for_list_item(&md, parser)
        } else {
            SimpleBlock::parse(&md, parser)
        };
        match simple {
            Some(mi) => {
                proof {
                    lemma_consumed_trans(mi.after@, bs, md.source@);
                }
                Block::Simple(mi.item).finish(mi.after, warnings, parser)
            },
            None => MatchAndWarnings { item: None, warnings },
        }
    }
}

impl IsBlock for Block {
    open spec fn block_header(&self) -> HeaderView {
        self.header_view()
    }

    open spec fn fallback_id(&self) -> Option<Seq<char>> {
        match self {
            Block::Simple(b) => b.fallback_id(),
            Block::Media(b) => b.fallback_id(),
            Block::Section(b) => b.fallback_id(),
            Block::List(b) => b.fallback_id(),
            Block::ListItem(b) => b.fallback_id(),
            Block::RawDelimited(b) => b.fallback_id(),
            Block::CompoundDelimited(b) => b.fallback_id(),
            Block::Preamble(b) => b.fallback_id(),
            Block::Break(b) => b.fallback_id(),
        }
    }

    open spec fn block_model(&self) -> ContentModel {
        match self {
            Block::Simple(b) => b.block_model(),
            Block::Media(b) => b.block_model(),
            Block::Section(b) => b.block_model(),
            Block::List(b) => b.block_model(),
            Block::ListItem(b) => b.block_model(),
            Block::RawDelimited(b) => b.block_model(),
            Block::CompoundDelimited(b) => b.block_model(),
            Block::Preamble(b) => b.block_model(),
            Block::Break(b) => b.block_model(),
        }
    }

    open spec fn block_context(&self) -> Seq<char> {
        match self {
            Block::Simple(b) => b.block_context(),
            Block::Media(b) => b.block_context(),
            Block::Section(b) => b.block_context(),
            Block::List(b) => b.block_context(),
            Block::ListItem(b) => b.block_context(),
            Block::RawDelimited(b) => b.block_context(),
            Block::CompoundDelimited(b) => b.block_context(),
            Block::Preamble(b) => b.block_context(),
            Block::Break(b) => b.block_context(),
        }
    }

    open spec fn block_nested(&self) -> Seq<Block> {
        match self {
            Block::Simple(b) => b.block_nested(),
            Block::Media(b) => b.block_nested(),
            Block::Section(b) => b.block_nested(),
            Block::List(b) => b.block_nested(),
            Block::ListItem(b) => b.block_nested(),
            Block::RawDelimited(b) => b.block_nested(),
            Block::CompoundDelimited(b) => b.block_nested(),
            Block::Preamble(b) => b.block_nested(),
            Block::Break(b) => b.block_nested(),
        }
    }

    open spec fn block_rendered(&self) -> Option<Seq<char>> {
        match self {
            Block::Simple(b) => b.block_rendered(),
            Block::Media(b) => b.block_rendered(),
            Block::Section(b) => b.block_rendered(),
            Block::List(b) => b.block_rendered(),
            Block::ListItem(b) => b.block_rendered(),
            Block::RawDelimited(b) => b.block_rendered(),
            Block::CompoundDelimited(b) => b.block_rendered(),
            Block::Preamble(b) => b.block_rendered(),
            Block::Break(b) => b.block_rendered(),
        }
    }

    open spec fn block_group(&self) -> GroupView {
        match self {
            Block::Simple(b) => b.block_group(),
            Block::Media(b) => b.block_group(),
            Block::Section(b) => b.block_group(),
            Block::List(b) => b.block_group(),
            Block::ListItem(b) => b.block_group(),
            Block::RawDelimited(b) => b.block_group(),
            Block::CompoundDelimited(b) => b.block_group(),
            Block::Preamble(b) => b.block_group(),
            Block::Break(b) => b.block_group(),
        }
    }

    fn content_model(&self) -> (r: ContentModel) {
        match self {
            Block::Simple(b) => b.content_model(),
            Block::Media(b) => b.content_model(),
            Block::Section(b) => b.content_model(),
            Block::List(b) => b.content_model(),
            Block::ListItem(b) => b.content_model(),
            Block::RawDelimited(b) => b.content_model(),
            Block::CompoundDelimited(b) => b.content_model(),
            Block::Preamble(b) => b.content_model(),
            Block::Break(b) => b.content_model(),
        }
    }

    fn raw_context(&self) -> (r: &str) {
        match self {
            Block::Simple(b) => b.raw_context(),
            Block::Media(b) => b.raw_context(),
            Block::Section(b) => b.raw_context(),
            Block::List(b) => b.raw_context(),
            Block::ListItem(b) => b.raw_context(),
            Block::RawDelimited(b) => b.raw_context(),
            Block::CompoundDelimited(b) => b.raw_context(),
            Block::Preamble(b) => b.raw_context(),
            Block::Break(b) => b.raw_context(),
        }
    }

    fn nested_blocks(&self) -> (r: &[Block]) {
        match self {
            Block::Simple(b) => b.nested_blocks(),
            Block::Media(b) => b.nested_blocks(),
            Block::Section(b) => b.nested_blocks(),
            Block::List(b) => b.nested_blocks(),
            Block::ListItem(b) => b.nested_blocks(),
            Block::RawDelimited(b) => b.nested_blocks(),
            Block::CompoundDelimited(b) => b.nested_blocks(),
            Block::Preamble(b) => b.nested_blocks(),
            Block::Break(b) => b.nested_blocks(),
        }
    }

    fn title_source(&self) -> (r: Option<&Span>) {
        match self {
            Block::Simple(b) => b.title_source(),
            Block::Media(b) => b.title_source(),
            Block::Section(b) => b.title_source(),
            Block::List(b) => b.title_source(),
            Block::ListItem(b) => b.title_source(),
            Block::RawDelimited(b) => b.title_source(),
            Block::CompoundDelimited(b) => b.title_source(),
            Block::Preamble(b) => b.title_source(),
            Block::Break(b) => b.title_source(),
        }
    }

    fn title(&self) -> (r: Option<&str>) {
        match self {
            Block::Simple(b) => b.title(),
            Block::Media(b) => b.title(),
            Block::Section(b) => b.title(),
            Block::List(b) => b.title(),
            Block::ListItem(b) => b.title(),
            Block::RawDelimited(b) => b.title(),
            Block::CompoundDelimited(b) => b.title(),
            Block::Preamble(b) => b.title(),
            Block::Break(b) => b.title(),
        }
    }

    fn anchor(&self) -> (r: Option<&Span>) {
        match self {
            Block::Simple(b) => b.anchor(),
            Block::Media(b) => b.anchor(),
            Block::Section(b) => b.anchor(),
            Block::List(b) => b.anchor(),
            Block::ListItem(b) => b.anchor(),
            Block::RawDelimited(b) => b.anchor(),
            Block::CompoundDelimited(b) => b.anchor(),
            Block::Preamble(b) => b.anchor(),
            Block::Break(b) => b.anchor(),
        }
    }

    fn anchor_reftext(&self) -> (r: Option<&Span>) {
        match self {
            Block::Simple(b) => b.anchor_reftext(),
            Block::Media(b) => b.anchor_reftext(),
            Block::Section(b) => b.anchor_reftext(),
            Block::List(b) => b.anchor_reftext(),
            Block::ListItem(b) => b.anchor_reftext(),
            Block::RawDelimited(b) => b.anchor_reftext(),
            Block::CompoundDelimited(b) => b.anchor_reftext(),
            Block::Preamble(b) => b.anchor_reftext(),
            Block::Break(b) => b.anchor_reftext(),
        }
    }

    fn attrlist(&self) -> (r: Option<&Attrlist>) {
        match self {
            Block::Simple(b) => b.attrlist(),
            Block::Media(b) => b.attrlist(),
            Block::Section(b) => b.attrlist(),
            Block::List(b) => b.attrlist(),
            Block::ListItem(b) => b.attrlist(),
            Block::RawDelimited(b) => b.attrlist(),
            Block::CompoundDelimited(b) => b.attrlist(),
            Block::Preamble(b) => b.attrlist(),
            Block::Break(b) => b.attrlist(),
        }
    }

    fn generated_id(&self) -> (r: Option<&str>) {
        match self {
            Block::Simple(b) => b.generated_id(),
            Block::Media(b) => b.generated_id(),
            Block::Section(b) => b.generated_id(),
            Block::List(b) => b.generated_id(),
            Block::ListItem(b) => b.generated_id(),
            Block::RawDelimited(b) => b.generated_id(),
            Block::CompoundDelimited(b) => b.generated_id(),
            Block::Preamble(b) => b.generated_id(),
            Block::Break(b) => b.generated_id(),
        }
    }

    fn rendered_content(&self) -> (r: Option<&str>) {
        match self {
            Block::Simple(b) => b.rendered_content(),
            Block::Media(b) => b.rendered_content(),
            Block::Section(b) => b.rendered_content(),
            Block::List(b) => b.rendered_content(),
            Block::ListItem(b) => b.rendered_content(),
            Block::RawDelimited(b) => b.rendered_content(),
            Block::CompoundDelimited(b) => b.rendered_content(),
            Block::Preamble(b) => b.rendered_content(),
            Block::Break(b) => b.rendered_content(),
        }
    }

    fn substitution_group(&self) -> (r: SubstitutionGroup) {
        match self {
            Block::Simple(b) => b.substitution_group(),
            Block::Media(b) => b.substitution_group(),
            Block::Section(b) => b.substitution_group(),
            Block::List(b) => b.substitution_group(),
            Block::ListItem(b) => b.substitution_group(),
            Block::RawDelimited(b) => b.substitution_group(),
            Block::CompoundDelimited(b) => b.substitution_group(),
            Block::Preamble(b) => b.substitution_group(),
            Block::Break(b) => b.substitution_group(),
        }
    }
}

} // verus!
