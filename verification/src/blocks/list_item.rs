use vstd::prelude::*;
use crate::blocks::is_block::{ContentModel, IsBlock};
use crate::attributes::attrlist::Attrlist;
use crate::content::{GroupView, SubstitutionGroup};

use crate::blocks::block::{Block, marker_views, md_block_parsed, md_block_shape};
use crate::blocks::layout::{
    before, consumed, lemma_parser_kept_refl, lemma_parser_kept_trans, parser_kept,
    past_blank_lines,
};
use crate::blocks::list::{ListBlock, list_parsed, list_starts};
use crate::blocks::list_item_marker::{
    DESCRIPTION_LIST_MARKER_PATTERN, LIST_ITEM_MARKER_PATTERN, ListItemMarker, ListItemMarkerView,
    group, marker_at, markers_match, skip_blanks,
};
use crate::patterns::regex_captures_result;
use crate::blocks::metadata::{
    BlockHeader, BlockMetadata, HeaderView, MetadataView, bare_md, lemma_skip_is_suffix,
    lemma_md_loop_suffix, metadata_of_source,
};
use crate::blocks::simple::{SimpleBlock, simple_block_of};
use crate::parser::{Parser, ParserView};
use crate::blocks::raw_delimited::next_line;
use crate::span::{
    MatchedItem, Span, SpanView, blank_pred, empty_lines_len, lemma_empty_lines_len,
    lemma_line_lens, lemma_run_len, lemma_skip_wf, lemma_suffix_trans, line_after_len, normalized_line_len,
    run_len,
    trailing_ws_pred, trimmed_len,
};
use crate::text::str_eq;
use crate::warnings::Warning;

verus! {

pub struct ListItemView {
    pub marker: ListItemMarkerView,
    pub source: SpanView,
    pub header: HeaderView,
}

/// A list item is a special kind of block that contains one or more blocks
/// attached to it. In the simplest case, this will be a single
/// [`SimpleBlock`] with the principal text for the list item. In other
/// cases, it may be any number of blocks of any type which, together, form
/// an entry in a list which is the immediate parent of this block.
#[derive(Debug)]
pub struct ListItem {
    marker: ListItemMarker,
    blocks: Vec<Block>,
    source: Span,
    header: BlockHeader,
}

impl View for ListItem {
    type V = ListItemView;

    closed spec fn view(&self) -> ListItemView {
        ListItemView { marker: self.marker@, source: self.source@, header: self.header@ }
    }
}

/// What follows a marker is a tail of where the marker was read.
pub proof fn lemma_marker_at_suffix(source: SpanView)
    requires
        source.wf(),
    ensures
        marker_at(source) matches Some((m, after)) ==> after.is_suffix_of(source) && after.wf(),
{
    let r0 = run_len(source.data, blank_pred());
    lemma_run_len(source.data, blank_pred());
    let s = source.skip(r0);
    lemma_skip_wf(source, r0);
    if let Some((m, after)) = marker_at(source) {
        let k: int = match regex_captures_result(LIST_ITEM_MARKER_PATTERN@, s.data) {
            Some(c) => group(c, 1)->0.len() as int,
            None => group(regex_captures_result(DESCRIPTION_LIST_MARKER_PATTERN@, s.data)->0, 0)->0.len() as int,
        };
        assert(0 <= k <= s.len());
        let t = s.skip(k);
        lemma_run_len(t.data, blank_pred());
        let r1 = run_len(t.data, blank_pred());
        assert(after == t.skip(r1));
        crate::span::lemma_skip_skip(source, r0, k);
        crate::span::lemma_skip_skip(source, r0 + k, r1);
        lemma_skip_is_suffix(source, r0 + k + r1);
        lemma_skip_wf(source, r0 + k + r1);
    }
}

/// What is known of the list item `v`, with blocks `blocks`, that the
/// metadata `md` introduces, read up to `after`: its marker is the one that
/// starts the block, its first block is the simple block read from the
/// text after the marker, its source runs from the marker to where it
/// ends, and it carries the anchor and attribute list of the metadata but
/// no title.
pub open spec fn list_item_parsed(
    md: MetadataView,
    attrs: Seq<(Seq<char>, Option<Seq<char>>)>,
    v: ListItemView,
    blocks: Seq<Block>,
    after: SpanView,
) -> bool {
    let src = past_blank_lines(md.block_start);
    let b = before(src, after);
    &&& marker_at(src) matches Some((m, text))
    &&& v.marker == m
    &&& blocks.len() > 0
    &&& simple_block_of(bare_md(text), attrs, true) matches Some((first, _))
    &&& blocks[0] matches Block::Simple(sb)
    &&& sb@ == first
    &&& v.source == b.sub(0, trimmed_len(b.data, trailing_ws_pred()))
    &&& v.header == (HeaderView { title_source: None, title: None, ..md.header })
    &&& consumed(after, md.block_start)
}

/// One of the markers `ps` matches `m2`.
pub open spec fn parent_matches(ps: Seq<ListItemMarkerView>, m2: ListItemMarkerView) -> bool {
    exists|j: int| 0 <= j < ps.len() && #[trigger] markers_match(ps[j], m2)
}

/// The first line of `next`, normalized.
pub open spec fn attach_line(next: SpanView) -> SpanView {
    next.sub(0, normalized_line_len(next.data))
}

/// `next` starts with a space or a tab.
pub open spec fn is_indented(next: SpanView) -> bool {
    next.len() > 0 && (next.data[0] == ' ' || next.data[0] == '\t')
}

/// No block can be read at `next` inside a list item whose own marker and
/// those of the items that enclose it are `nested`.
pub open spec fn no_block_at(
    next: SpanView,
    attrs: Seq<(Seq<char>, Option<Seq<char>>)>,
    nested: Seq<ListItemMarkerView>,
) -> bool {
    exists|p: ParserView| #[trigger] md_block_parsed(metadata_of_source(next, attrs), attrs, p, Some(nested), None)
}

/// One step of reading what is attached to a list item: from `next`, where
/// `must_indent` says whether a block was attached last (so that a further
/// block must be indented), to `next2` and `must_indent2`, attaching
/// `added` (`parser` is the parser's state after the step).
pub struct AttachStep {
    pub next: SpanView,
    pub must_indent: bool,
    pub added: Option<Block>,
    pub next2: SpanView,
    pub must_indent2: bool,
    pub parser: ParserView,
}

/// A step of reading what is attached to a list item with marker `m`,
/// whose enclosing items have markers `ps`, that goes on: a `+` line is
/// skipped (the next block need not be indented); outside a nested list,
/// blank lines are skipped; a marker that matches neither `m` nor one of
/// `ps` starts a nested list that is attached; else, unless a block was
/// attached last and this one is not indented, the block read there is
/// attached.
pub open spec fn attach_step(
    attrs: Seq<(Seq<char>, Option<Seq<char>>)>,
    m: ListItemMarkerView,
    ps: Seq<ListItemMarkerView>,
    s: AttachStep,
) -> bool {
    let line = attach_line(s.next);
    &&& s.next.len() > 0
    &&& if line.data == "+"@ {
        s.added is None && s.next2 == next_line(s.next) && !s.must_indent2
    } else if line.len() == 0 {
        ps.len() == 0 && s.added is None && s.next2 == past_blank_lines(s.next) && s.must_indent2
            == s.must_indent
    } else {
        match marker_at(skip_blanks(s.next)) {
            Some((m2, _)) => {
                &&& !markers_match(m, m2)
                &&& !parent_matches(ps, m2)
                &&& s.added matches Some(Block::List(b))
                &&& list_parsed(bare_md(s.next), attrs, ps.push(m), b@, b.items_view(), s.next2)
                &&& s.must_indent2
            },
            None => {
                &&& !(s.must_indent && !is_indented(s.next))
                &&& s.added matches Some(b)
                &&& md_block_parsed(metadata_of_source(s.next, attrs), attrs, s.parser, Some(ps.push(m)), Some((b, s.next2)))
                &&& s.must_indent2
            },
        }
    }
}

/// Reading what is attached to a list item with marker `m`, whose
/// enclosing items have markers `ps`, stops at `next` (with `must_indent`
/// as in [`AttachStep`]), and the item ends at `after`: at the end of the
/// input; inside a nested list, after a blank line; at a marker that
/// matches `m` or one of `ps`; where a block was attached last and this one
/// is not indented; or where no block can be read.
pub open spec fn attach_stop(
    attrs: Seq<(Seq<char>, Option<Seq<char>>)>,
    m: ListItemMarkerView,
    ps: Seq<ListItemMarkerView>,
    next: SpanView,
    must_indent: bool,
    after: SpanView,
) -> bool {
    let line = attach_line(next);
    if next.len() == 0 {
        after == next
    } else if line.data == "+"@ {
        false
    } else if line.len() == 0 {
        ps.len() > 0 && after == next_line(next)
    } else {
        &&& after == next
        &&& match marker_at(skip_blanks(next)) {
            Some((m2, _)) => markers_match(m, m2) || parent_matches(ps, m2),
            None => (must_indent && !is_indented(next)) || no_block_at(next, attrs, ps.push(m)),
        }
    }
}

/// A step of reading what is attached to a list item as [`attach_step`]
/// says, with the block read at a step described by [`md_block_shape`]
/// alone (where it ends, not what is nested in it).
pub open spec fn attach_step_shape(
    attrs: Seq<(Seq<char>, Option<Seq<char>>)>,
    m: ListItemMarkerView,
    ps: Seq<ListItemMarkerView>,
    s: AttachStep,
) -> bool
    decreases s.next.len() + 1, 0int,
{
    let line = attach_line(s.next);
    &&& s.next.len() > 0
    &&& if line.data == "+"@ {
        s.added is None && s.next2 == next_line(s.next) && !s.must_indent2
    } else if line.len() == 0 {
        ps.len() == 0 && s.added is None && s.next2 == past_blank_lines(s.next) && s.must_indent2
            == s.must_indent
    } else {
        match marker_at(skip_blanks(s.next)) {
            Some((m2, _)) => {
                &&& !markers_match(m, m2)
                &&& !parent_matches(ps, m2)
                &&& s.added matches Some(Block::List(b))
                &&& list_parsed(bare_md(s.next), attrs, ps.push(m), b@, b.items_view(), s.next2)
                &&& s.must_indent2
            },
            None => {
                proof {
                    lemma_metadata_within(s.next, attrs);
                }
                &&& !(s.must_indent && !is_indented(s.next))
                &&& s.added matches Some(b)
                &&& md_block_shape(metadata_of_source(s.next, attrs), attrs, s.parser, Some(ps.push(m)), Some((b, s.next2)))
                &&& s.must_indent2
            },
        }
    }
}

/// Step `i` starts where the one before ended and goes on as
/// [`attach_step_shape`] says.
pub open spec fn attach_ok_shape(
    start: SpanView,
    attrs: Seq<(Seq<char>, Option<Seq<char>>)>,
    m: ListItemMarkerView,
    ps: Seq<ListItemMarkerView>,
    steps: Seq<AttachStep>,
    i: int,
) -> bool
    decreases steps[i].next.len() + 1, 1int,
{
    &&& steps[i].next == attach_state(start, steps, i).0
    &&& steps[i].must_indent == attach_state(start, steps, i).1
    &&& attach_step_shape(attrs, m, ps, steps[i])
}

/// The metadata read at `v` lies within `v`.
pub proof fn lemma_metadata_within(v: SpanView, attrs: Seq<(Seq<char>, Option<Seq<char>>)>)
    ensures
        metadata_of_source(v, attrs).block_start.len() <= v.len(),
{
    lemma_empty_lines_len(v.data);
    let src = v.skip(empty_lines_len(v.data));
    lemma_md_loop_suffix(src, (None, None, None, None), attrs);
}

/// One list item in a chain along which reading fails: the item at `start`
/// reads what is attached to it in the steps `steps` and then stands at
/// `at`, where a marker of a new kind starts a nested list.
pub struct FailLink {
    pub start: SpanView,
    pub steps: Seq<AttachStep>,
    pub at: SpanView,
}

/// The marker of the item that the link `l` reads.
pub open spec fn link_marker(l: FailLink) -> ListItemMarkerView {
    marker_at(l.start).unwrap().0
}

/// The item at `l.start`, whose enclosing items have markers `ps`, starts
/// with a marker and text, reads what is attached to it step by step as
/// [`attach_step_shape`] says, and then stands at `l.at`: a line that is
/// neither empty nor `+`, starting with a marker that matches neither the
/// item's own nor one of `ps`, so that a nested list is read there.
pub open spec fn link_ok(
    attrs: Seq<(Seq<char>, Option<Seq<char>>)>,
    ps: Seq<ListItemMarkerView>,
    l: FailLink,
) -> bool
    decreases l.start.len(), 13int,
{
    match marker_at(l.start) {
        Some((m, text)) => match simple_block_of(bare_md(text), attrs, true) {
            Some((_, first_after)) => {
                let k = l.steps.len() as int;
                let line = attach_line(l.at);
                &&& forall|i: int|
                    #![trigger l.steps[i]]
                    0 <= i < k ==> l.steps[i].next.len() < l.start.len() && attach_ok_shape(
                        first_after,
                        attrs,
                        m,
                        ps,
                        l.steps,
                        i,
                    )
                &&& l.at == attach_state(first_after, l.steps, k).0
                &&& l.at.len() > 0
                &&& line.data != "+"@
                &&& line.len() != 0
                &&& marker_at(skip_blanks(l.at)) matches Some((m2, _))
                &&& !markers_match(m, m2)
                &&& !parent_matches(ps, m2)
            },
            None => false,
        },
        None => false,
    }
}

/// A chain of list items along which reading fails, from the item at
/// `src` (enclosed by items with markers `ps`): the first item reads up to
/// a nested list (see [`link_ok`]); where a list can be read there, the
/// rest of the chain starts at that nested list's first item (enclosed by
/// this item too); at the last link no list can be read at all (its marker
/// has nothing after it).
pub open spec fn fail_chain(
    src: SpanView,
    attrs: Seq<(Seq<char>, Option<Seq<char>>)>,
    ps: Seq<ListItemMarkerView>,
    chain: Seq<FailLink>,
) -> bool
    decreases src.len(), 14int,
{
    if chain.len() == 0 {
        false
    } else {
        let l = chain[0];
        &&& l.start == src
        &&& link_ok(attrs, ps, l)
        &&& l.at.len() < src.len()
        &&& if chain.len() == 1 {
            !list_starts(bare_md(l.at), attrs)
        } else {
            proof {
                lemma_empty_lines_len(l.at.data);
            }
            &&& list_starts(bare_md(l.at), attrs)
            &&& fail_chain(past_blank_lines(l.at), attrs, ps.push(link_marker(l)), chain.drop_first())
        }
    }
}

/// Reading the list item at `src`, whose enclosing items have markers
/// `ps`, fails: it reaches a nested list that cannot be read, as
/// [`fail_chain`] says.
pub open spec fn item_fails(
    src: SpanView,
    attrs: Seq<(Seq<char>, Option<Seq<char>>)>,
    ps: Seq<ListItemMarkerView>,
) -> bool
    decreases src.len(), 15int,
{
    exists|chain: Seq<FailLink>| fail_chain(src, attrs, ps, #[trigger] links(chain))
}

/// The links of a chain (the chain itself; the name by which a chain is
/// offered as the witness of [`item_fails`]).
pub open spec fn links(chain: Seq<FailLink>) -> Seq<FailLink> {
    chain
}

/// A list item marker, with text after it, starts `src`.
pub open spec fn item_starts(src: SpanView, attrs: Seq<(Seq<char>, Option<Seq<char>>)>) -> bool {
    match marker_at(src) {
        Some((_, text)) => simple_block_of(bare_md(text), attrs, true) is Some,
        None => false,
    }
}

/// Where step `i` of reading what is attached starts: at `start`, where
/// nothing need be indented, for the first; else where step `i - 1` ended.
pub open spec fn attach_state(start: SpanView, steps: Seq<AttachStep>, i: int) -> (SpanView, bool) {
    if i == 0 {
        (start, false)
    } else {
        (steps[i - 1].next2, steps[i - 1].must_indent2)
    }
}

/// Step `i` starts where the one before ended and goes on as
/// [`attach_step`] says.
pub open spec fn attach_ok(
    start: SpanView,
    attrs: Seq<(Seq<char>, Option<Seq<char>>)>,
    m: ListItemMarkerView,
    ps: Seq<ListItemMarkerView>,
    steps: Seq<AttachStep>,
    i: int,
) -> bool {
    &&& steps[i].next == attach_state(start, steps, i).0
    &&& steps[i].must_indent == attach_state(start, steps, i).1
    &&& attach_step(attrs, m, ps, steps[i])
}

/// The blocks that the steps attach, in order.
pub open spec fn attached_blocks(steps: Seq<AttachStep>) -> Seq<Block>
    decreases steps.len(),
{
    if steps.len() == 0 {
        Seq::empty()
    } else {
        attached_blocks(steps.drop_last()) + match steps.last().added {
            Some(b) => seq![b],
            None => Seq::empty(),
        }
    }
}

/// What is attached to a list item with marker `m`, whose enclosing items
/// have markers `ps`, read from `start` (the end of its first block): the
/// blocks `blocks`, read step by step, until reading stops with the item
/// ending at `after`.
pub open spec fn attached_run(
    start: SpanView,
    attrs: Seq<(Seq<char>, Option<Seq<char>>)>,
    m: ListItemMarkerView,
    ps: Seq<ListItemMarkerView>,
    steps: Seq<AttachStep>,
    blocks: Seq<Block>,
    after: SpanView,
) -> bool {
    let k = steps.len() as int;
    &&& forall|i: int| 0 <= i < k ==> #[trigger] attach_ok(start, attrs, m, ps, steps, i)
    &&& attach_stop(attrs, m, ps, attach_state(start, steps, k).0, attach_state(start, steps, k).1, after)
    &&& blocks == attached_blocks(steps)
}

/// One more step keeps the steps before it as they were.
proof fn lemma_attach_push(
    start: SpanView,
    attrs: Seq<(Seq<char>, Option<Seq<char>>)>,
    m: ListItemMarkerView,
    ps: Seq<ListItemMarkerView>,
    steps: Seq<AttachStep>,
    s: AttachStep,
)
    requires
        forall|i: int| 0 <= i < steps.len() ==> #[trigger] attach_ok(start, attrs, m, ps, steps, i),
        s.next == attach_state(start, steps, steps.len() as int).0,
        s.must_indent == attach_state(start, steps, steps.len() as int).1,
        attach_step(attrs, m, ps, s),
    ensures
        forall|i: int| 0 <= i < steps.len() + 1 ==> #[trigger] attach_ok(start, attrs, m, ps, steps.push(s), i),
        attached_blocks(steps.push(s)) == attached_blocks(steps) + match s.added {
            Some(b) => seq![b],
            None => Seq::<Block>::empty(),
        },
        attach_state(start, steps.push(s), (steps.len() + 1) as int) == (s.next2, s.must_indent2),
{
    let n = steps.len() as int;
    assert forall|i: int| 0 <= i < n + 1 implies #[trigger] attach_ok(start, attrs, m, ps, steps.push(s), i) by {
        if i < n {
            assert(attach_ok(start, attrs, m, ps, steps, i));
            assert(steps.push(s)[i] == steps[i]);
            assert(attach_state(start, steps.push(s), i) == attach_state(start, steps, i));
        }
    }
    assert(steps.push(s).drop_last() =~= steps);
}

/// Where the item at `source` (with marker `m` and text `text`, whose
/// first block ends at `start`) has read the steps `steps` up to `next`,
/// where a marker `m2` of a new kind stands, these make a link of a chain
/// along which reading fails.
proof fn lemma_link_at(
    source: SpanView,
    attrs: Seq<(Seq<char>, Option<Seq<char>>)>,
    ps: Seq<ListItemMarkerView>,
    m: ListItemMarkerView,
    text: SpanView,
    start: SpanView,
    steps: Seq<AttachStep>,
    next: SpanView,
    m2: ListItemMarkerView,
)
    requires
        marker_at(source) == Some((m, text)),
        simple_block_of(bare_md(text), attrs, true) matches Some((_, a)) && a == start,
        forall|i: int| 0 <= i < steps.len() ==> #[trigger] attach_ok(start, attrs, m, ps, steps, i),
        forall|i: int| 0 <= i < steps.len() ==> (#[trigger] steps[i]).next.len() < source.len(),
        next == attach_state(start, steps, steps.len() as int).0,
        next.len() > 0,
        attach_line(next).data != "+"@,
        attach_line(next).len() != 0,
        marker_at(skip_blanks(next)) matches Some((mm, _)) && mm == m2,
        !markers_match(m, m2),
        !parent_matches(ps, m2),
    ensures
        link_ok(attrs, ps, FailLink { start: source, steps: steps, at: next }),
        link_marker(FailLink { start: source, steps: steps, at: next }) == m,
{
    assert forall|i: int| #![trigger steps[i]] 0 <= i < steps.len() implies steps[i].next.len() < source.len()
        && attach_ok_shape(start, attrs, m, ps, steps, i) by {
        assert(attach_ok(start, attrs, m, ps, steps, i));
    }
    reveal(link_ok);
}

/// A link whose nested list cannot be read at all is a chain along which
/// reading fails.
proof fn lemma_fail_chain_one(
    src: SpanView,
    attrs: Seq<(Seq<char>, Option<Seq<char>>)>,
    ps: Seq<ListItemMarkerView>,
    l: FailLink,
)
    requires
        l.start == src,
        link_ok(attrs, ps, l),
        l.at.len() < src.len(),
        !list_starts(bare_md(l.at), attrs),
    ensures
        fail_chain(src, attrs, ps, seq![l]),
{
}

/// A link whose nested list fails, in front of the chain along which it
/// fails, is a chain along which reading fails.
proof fn lemma_fail_chain_prepend(
    src: SpanView,
    attrs: Seq<(Seq<char>, Option<Seq<char>>)>,
    ps: Seq<ListItemMarkerView>,
    l: FailLink,
    rest: Seq<FailLink>,
)
    requires
        l.start == src,
        link_ok(attrs, ps, l),
        l.at.len() < src.len(),
        list_starts(bare_md(l.at), attrs),
        fail_chain(past_blank_lines(l.at), attrs, ps.push(link_marker(l)), rest),
    ensures
        fail_chain(src, attrs, ps, seq![l] + rest),
{
    let chain = seq![l] + rest;
    assert(chain[0] == l);
    assert(chain.drop_first() =~= rest);
}

/// Where, moreover, the nested list read at `next` cannot be read, reading
/// the item at `source` fails.
proof fn lemma_item_fails_at(
    source: SpanView,
    attrs: Seq<(Seq<char>, Option<Seq<char>>)>,
    ps: Seq<ListItemMarkerView>,
    m: ListItemMarkerView,
    steps: Seq<AttachStep>,
    next: SpanView,
)
    requires
        link_ok(attrs, ps, FailLink { start: source, steps: steps, at: next }),
        link_marker(FailLink { start: source, steps: steps, at: next }) == m,
        next.len() < source.len(),
        list_starts(bare_md(next), attrs) ==> item_fails(past_blank_lines(next), attrs, ps.push(m)),
    ensures
        item_fails(source, attrs, ps),
{
    let link = FailLink { start: source, steps: steps, at: next };
    if list_starts(bare_md(next), attrs) {
        let rest = choose|c: Seq<FailLink>| fail_chain(past_blank_lines(next), attrs, ps.push(m), #[trigger] links(c));
        lemma_fail_chain_prepend(source, attrs, ps, link, rest);
        assert(fail_chain(source, attrs, ps, links(seq![link] + rest)));
    } else {
        lemma_fail_chain_one(source, attrs, ps, link);
        assert(fail_chain(source, attrs, ps, links(seq![link])));
    }
}

impl ListItem {
    /// The blocks of this list item.
    pub closed spec fn blocks_view(&self) -> Seq<Block> {
        self.blocks@
    }

    /// Parses a list item: its marker, the text after it, and the blocks
    /// attached to it (by `+` continuation lines, by indentation, or as a
    /// nested list with a new kind of marker). `parents` are the markers of
    /// the items that enclose this one.
    ///
    /// The item ends at a peer or parent item's marker, at an empty line
    /// (in a nested list), or at a block that is not attached to it. Where
    /// the nested list that a marker of a new kind starts cannot be read, no
    /// item is read and the parser is left as it was; this happens exactly
    /// along a chain of nested items that ends at a marker with nothing
    /// after it (see [`item_fails`]).
    #[verifier::rlimit(100)]
    #[verifier::spinoff_prover]
    pub fn parse(
        metadata: &BlockMetadata,
        parents: &[ListItemMarker],
        parser: &mut Parser,
        warnings: &mut Vec<Warning>,
    ) -> (r: Option<MatchedItem<ListItem>>)
        requires
            metadata.wf(),
        ensures
            parser_kept(old(parser)@, final(parser)@),
            final(warnings)@ == old(warnings)@,
            !item_starts(past_blank_lines(metadata.block_start@), old(parser)@.attributes) ==> r is None,
            r is None && item_starts(past_blank_lines(metadata.block_start@), old(parser)@.attributes)
                ==> item_fails(
                past_blank_lines(metadata.block_start@),
                old(parser)@.attributes,
                marker_views(parents@),
            ),
            r is None ==> final(parser)@ == old(parser)@,
            r matches Some(mi) ==> list_item_parsed(
                metadata.md_view(),
                old(parser)@.attributes,
                mi.item@,
                mi.item.blocks_view(),
                mi.after@,
            ),
            r matches Some(mi) ==> match marker_at(past_blank_lines(metadata.block_start@)) {
                Some((m, text)) => match simple_block_of(bare_md(text), old(parser)@.attributes, true) {
                    Some((_, first_after)) => exists|steps: Seq<AttachStep>|
                        #[trigger] attached_run(
                            first_after,
                            old(parser)@.attributes,
                            m,
                            marker_views(parents@),
                            steps,
                            mi.item.blocks_view().drop_first(),
                            mi.after@,
                        ),
                    None => false,
                },
                None => false,
            },
        decreases metadata.source@.len(), 1int,
    {
        proof {
            lemma_parser_kept_refl(parser@);
        }
        let ghost bs = metadata.block_start@;
        let source = metadata.block_start.discard_empty_lines();
        proof {
            lemma_suffix_trans(source@, bs, metadata.source@);
            lemma_marker_at_suffix(source@);
        }
        let marker_mi = match ListItemMarker::parse(&source) {
            Some(mi) => mi,
            None => {
                return None;
            },
        };
        let marker = marker_mi.item;
        let text_md = BlockMetadata::bare(&marker_mi.after);
        let simple = match SimpleBlock::parse_for_list_item(&text_md, parser) {
            Some(s) => s,
            None => {
                return None;
            },
        };
        let mut blocks: Vec<Block> = Vec::new();
        blocks.push(Block::Simple(simple.item));
        let ghost first = blocks@[0];
        let mut nested_markers: Vec<ListItemMarker> = Vec::new();
        let mut i: usize = 0;
        while i < parents.len()
            invariant
                i <= parents@.len(),
                nested_markers@.len() == i,
                forall|j: int| 0 <= j < i ==> #[trigger] nested_markers@[j]@ == parents@[j]@,
            decreases parents@.len() - i,
        {
            nested_markers.push(parents[i].copy());
            i = i + 1;
        }
        nested_markers.push(marker.copy());
        let ghost attrs = old(parser)@.attributes;
        let ghost m0 = marker@;
        let ghost pv = marker_views(parents@);
        let ghost start = simple.after@;
        proof {
            assert(marker_views(nested_markers@) =~= pv.push(m0));
        }
        let saved = parser.copy();
        let mut next = simple.after;
        let mut must_indent = false;
        let ghost mut steps: Seq<AttachStep> = Seq::empty();
        proof {
            lemma_suffix_trans(next@, marker_mi.after@, source@);
            lemma_suffix_trans(next@, source@, bs);
            assert(blocks@ =~= seq![first] + attached_blocks(steps));
        }
        loop
            invariant_except_break
                next@ == attach_state(start, steps, steps.len() as int).0,
                must_indent == attach_state(start, steps, steps.len() as int).1,
            invariant
                metadata.wf(),
                bs == metadata.block_start@,
                source@.is_suffix_of(bs),
                next@.wf(),
                next@.is_suffix_of(bs),
                next@.is_suffix_of(source@),
                saved@ == old(parser)@,
                source@ == past_blank_lines(bs),
                next@.len() < source@.len(),
                source@.len() <= metadata.source@.len(),
                blocks@.len() > 0,
                blocks@[0] == first,
                parser_kept(old(parser)@, parser@),
                warnings@ == old(warnings)@,
                attrs == old(parser)@.attributes,
                m0 == marker@,
                pv == marker_views(parents@),
                marker_views(nested_markers@) == pv.push(m0),
                forall|i: int| 0 <= i < steps.len() ==> #[trigger] attach_ok(start, attrs, m0, pv, steps, i),
                forall|i: int| 0 <= i < steps.len() ==> (#[trigger] steps[i]).next.len() < source@.len(),
                marker_at(source@) == Some((m0, marker_mi.after@)),
                simple_block_of(bare_md(marker_mi.after@), attrs, true) matches Some((_, a)) && a == start,
                blocks@ == seq![first] + attached_blocks(steps),
            ensures
                attach_stop(
                    attrs,
                    m0,
                    pv,
                    attach_state(start, steps, steps.len() as int).0,
                    attach_state(start, steps, steps.len() as int).1,
                    next@,
                ),
                blocks@ == seq![first] + attached_blocks(steps),
                forall|i: int| 0 <= i < steps.len() ==> #[trigger] attach_ok(start, attrs, m0, pv, steps, i),
            decreases next@.len(),
        {
            let ghost cur = next@;
            let ghost mi0 = must_indent;
            let ghost blocks0 = blocks@;
            if next.is_empty() {
                break;
            }
            let line = next.take_normalized_line();
            proof {
                lemma_line_lens(next@.data);
                lemma_skip_is_suffix(next@, line_after_len(next@.data));
                lemma_suffix_trans(line.after@, next@, bs);
                lemma_suffix_trans(line.after@, next@, source@);
            }
            if str_eq(line.item.data(), "+") {
                let ghost st = AttachStep {
                    next: cur,
                    must_indent: mi0,
                    added: None,
                    next2: line.after@,
                    must_indent2: false,
                    parser: parser@,
                };
                proof {
                    lemma_attach_push(start, attrs, m0, pv, steps, st);
                    steps = steps.push(st);
                    assert(blocks@ =~= seq![first] + attached_blocks(steps));
                }
                next = line.after;
                must_indent = false;
                continue;
            }
            if line.item.is_empty() {
                if parents.len() == 0 {
                    proof {
                        lemma_empty_lines_len(next@.data);
                        crate::blocks::layout::lemma_past_blank_lines(next@, bs);
                        lemma_empty_lines_len(next@.data.skip(line_after_len(next@.data)));
                        assert(empty_lines_len(next@.data) > 0);
                    }
                    let skipped = next.discard_empty_lines();
                    let ghost st = AttachStep {
                        next: cur,
                        must_indent: mi0,
                        added: None,
                        next2: skipped@,
                        must_indent2: mi0,
                        parser: parser@,
                    };
                    proof {
                        assert(pv.len() == 0);
                        lemma_attach_push(start, attrs, m0, pv, steps, st);
                        steps = steps.push(st);
                        assert(blocks@ =~= seq![first] + attached_blocks(steps));
                    }
                    proof {
                        lemma_suffix_trans(skipped@, next@, source@);
                    }
                    next = skipped;
                    continue;
                } else {
                    next = line.after;
                    break;
                }
            }
            let is_indented = next.starts_with_char(' ') || next.starts_with_char('\t');
            let indented_next = next.discard_whitespace();
            match ListItemMarker::parse(&indented_next) {
                Some(new_mi) => {
                    if marker.is_match_for(&new_mi.item) {
                        break;
                    }
                    let mut parent_match = false;
                    let mut j: usize = 0;
                    while j < parents.len()
                        invariant
                            j <= parents@.len(),
                            parser_kept(old(parser)@, parser@),
                            pv == marker_views(parents@),
                            parent_match == exists|jj: int| 0 <= jj < j && #[trigger] markers_match(
                                pv[jj],
                                new_mi.item@,
                            ),
                        decreases parents@.len() - j,
                    {
                        let hit = parents[j].is_match_for(&new_mi.item);
                        proof {
                            assert(pv[j as int] == parents@[j as int]@);
                            if hit {
                                assert(markers_match(pv[j as int], new_mi.item@));
                            } else {
                                assert(!markers_match(pv[j as int], new_mi.item@));
                            }
                        }
                        if hit {
                            parent_match = true;
                        }
                        j = j + 1;
                    }
                    if parent_match {
                        break;
                    }
                    let nested_md = BlockMetadata::bare(&next);
                    let ghost p0 = parser@;
                    let nested = ListBlock::parse_inside_list(&nested_md, nested_markers.as_slice(), parser, warnings);
                    proof {
                        lemma_parser_kept_trans(old(parser)@, p0, parser@);
                    }
                    let nested = match nested {
                        Some(n) => n,
                        None => {
                            proof {
                                lemma_link_at(
                                    source@,
                                    attrs,
                                    pv,
                                    m0,
                                    marker_mi.after@,
                                    start,
                                    steps,
                                    next@,
                                    new_mi.item@,
                                );
                                lemma_item_fails_at(source@, attrs, pv, m0, steps, next@);
                            }
                            *parser = saved;
                            proof {
                                lemma_parser_kept_refl(parser@);
                                assert(source@ == past_blank_lines(bs));
                            }
                            return None;
                        },
                    };
                    proof {
                        lemma_suffix_trans(nested.after@, next@, bs);
                        lemma_suffix_trans(nested.after@, next@, source@);
                    }
                    let ghost st = AttachStep {
                        next: cur,
                        must_indent: mi0,
                        added: Some(Block::List(nested.item)),
                        next2: nested.after@,
                        must_indent2: true,
                        parser: parser@,
                    };
                    proof {
                        lemma_attach_push(start, attrs, m0, pv, steps, st);
                    }
                    blocks.push(Block::List(nested.item));
                    proof {
                        steps = steps.push(st);
                        assert(blocks@ =~= seq![first] + attached_blocks(steps));
                    }
                    next = nested.after;
                    must_indent = true;
                    continue;
                },
                None => {},
            }
            if must_indent && !is_indented {
                break;
            }
            let ghost p0 = parser@;
            let maw = Block::parse_internal(&next, parser, Some(nested_markers.as_slice()));
            proof {
                lemma_parser_kept_trans(old(parser)@, p0, parser@);
            }
            match maw.item {
                Some(mi) => {
                    proof {
                        lemma_suffix_trans(mi.after@, next@, bs);
                        lemma_suffix_trans(mi.after@, next@, source@);
                    }
                    let ghost st = AttachStep {
                        next: cur,
                        must_indent: mi0,
                        added: Some(mi.item),
                        next2: mi.after@,
                        must_indent2: true,
                        parser: parser@,
                    };
                    proof {
                        lemma_attach_push(start, attrs, m0, pv, steps, st);
                    }
                    blocks.push(mi.item);
                    proof {
                        steps = steps.push(st);
                        assert(blocks@ =~= seq![first] + attached_blocks(steps));
                    }
                    next = mi.after;
                    must_indent = true;
                },
                None => {
                    proof {
                        assert(md_block_parsed(
                            metadata_of_source(cur, attrs),
                            attrs,
                            parser@,
                            Some(pv.push(m0)),
                            None,
                        ));
                    }
                    break;
                },
            }
        }
        proof {
            assert(blocks@.drop_first() =~= attached_blocks(steps));
            assert(attached_run(start, attrs, m0, pv, steps, blocks@.drop_first(), next@));
        }
        let src = source.trim_remainder(&next).trim_trailing_whitespace();
        let item = ListItem { marker, blocks, source: src, header: metadata.header_without_title() };
        proof {
            assert(source@ == past_blank_lines(bs));
            assert(marker_at(past_blank_lines(bs)) == Some((m0, marker_mi.after@)));
            assert(text_md.md_view() == bare_md(marker_mi.after@));
            assert(simple_block_of(bare_md(marker_mi.after@), attrs, true) matches Some((_, a)) && a == start);
            assert(item.blocks_view().drop_first() == blocks@.drop_first());
            assert(attached_run(start, attrs, m0, pv, steps, item.blocks_view().drop_first(), next@));
        }
        let r = Some(MatchedItem { item, after: next });
        proof {
            let mi = r->0;
            assert(attached_run(
                start,
                old(parser)@.attributes,
                m0,
                marker_views(parents@),
                steps,
                mi.item.blocks_view().drop_first(),
                mi.after@,
            ));
            assert(match simple_block_of(bare_md(marker_mi.after@), old(parser)@.attributes, true) {
                Some((_, first_after)) => exists|steps: Seq<AttachStep>|
                    #[trigger] attached_run(
                        first_after,
                        old(parser)@.attributes,
                        m0,
                        marker_views(parents@),
                        steps,
                        mi.item.blocks_view().drop_first(),
                        mi.after@,
                    ),
                None => false,
            });
        }
        r
    }

    /// Returns the list item marker that was used for this item.
    pub fn list_item_marker(&self) -> (r: &ListItemMarker)
        ensures
            r@ == self@.marker,
    {
        &self.marker
    }

    /// Returns the blocks of this list item.
    pub fn blocks(&self) -> (r: &[Block])
        ensures
            r@ == self.blocks_view(),
    {
        self.blocks.as_slice()
    }

    /// Returns the source text of this block.
    pub fn span(&self) -> (r: &Span)
        ensures
            r@ == self@.source,
    {
        &self.source
    }

    /// Returns the anchor and attribute list of this block (a list item has
    /// no title).
    pub fn header(&self) -> (r: &BlockHeader)
        ensures
            r@ == self@.header,
    {
        &self.header
    }
}


impl IsBlock for ListItem {
    open spec fn block_header(&self) -> HeaderView {
        self@.header
    }

    open spec fn fallback_id(&self) -> Option<Seq<char>> {
        None
    }

    open spec fn block_model(&self) -> ContentModel {
        ContentModel::Compound
    }

    open spec fn block_context(&self) -> Seq<char> {
        "list_item"@
    }

    open spec fn block_nested(&self) -> Seq<Block> {
        self.blocks_view()
    }

    open spec fn block_rendered(&self) -> Option<Seq<char>> {
        None
    }

    open spec fn block_group(&self) -> GroupView {
        GroupView::Normal
    }

    fn content_model(&self) -> (r: ContentModel) {
        ContentModel::Compound
    }

    fn raw_context(&self) -> (r: &str) {
        "list_item"
    }

    fn nested_blocks(&self) -> (r: &[Block]) {
        self.blocks.as_slice()
    }

    fn title_source(&self) -> (r: Option<&Span>) {
        self.header().title_source()
    }

    fn title(&self) -> (r: Option<&str>) {
        self.header().title()
    }

    fn anchor(&self) -> (r: Option<&Span>) {
        self.header().anchor()
    }

    fn anchor_reftext(&self) -> (r: Option<&Span>) {
        self.header().anchor_reftext()
    }

    fn attrlist(&self) -> (r: Option<&Attrlist>) {
        self.header().attrlist()
    }

    fn generated_id(&self) -> (r: Option<&str>) {
        None
    }

    fn rendered_content(&self) -> (r: Option<&str>) {
        None
    }

    fn substitution_group(&self) -> (r: SubstitutionGroup) {
        SubstitutionGroup::Normal
    }
}

} // verus!
