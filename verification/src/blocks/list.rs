use vstd::prelude::*;
use crate::blocks::is_block::{ContentModel, IsBlock};
use crate::attributes::attrlist::Attrlist;
use crate::content::{GroupView, SubstitutionGroup};

use crate::blocks::block::{Block, marker_views};
use crate::blocks::layout::{
    before, consumed, lemma_consumed_trans, lemma_parser_kept_refl, lemma_parser_kept_trans,
    lemma_past_blank_lines_idem, parser_kept, past_blank_lines, without_line_end,
};
use crate::blocks::list_item::{ListItem, item_fails, item_starts, list_item_parsed};
use crate::blocks::simple::simple_block_of;
use crate::blocks::list_item_marker::{
    ListItemMarker, ListItemMarkerView, lemma_markers_match_text, marker_at, marker_span, markers_match,
    same_kind, symbol_marker,
};
use crate::blocks::metadata::{BlockHeader, BlockMetadata, HeaderView, MetadataView, bare_md};
use crate::parser::Parser;
use crate::span::{
    MatchedItem, Span, SpanView, lemma_empty_lines_len, lemma_suffix_trans, trailing_ws_pred,
    trimmed_len,
};
use crate::warnings::Warning;

verus! {

/// Represents the type of a list.
#[derive(Clone, Copy, Debug, PartialEq, Eq, Structural)]
pub enum ListType {
    /// An unordered list is a list with items prefixed with symbol, such as
    /// a disc (aka bullet).
    Unordered,
    /// An ordered list is a list with items prefixed with a number or other
    /// sequential mark.
    Ordered,
    /// A description list: terms, each followed by its description.
    Description,
}

/// The type of the list whose first item has marker `m`.
pub open spec fn list_type_of(m: ListItemMarkerView) -> ListType {
    match m {
        ListItemMarkerView::Hyphen(_) | ListItemMarkerView::Asterisks(_)
        | ListItemMarkerView::Bullet(_) => ListType::Unordered,
        ListItemMarkerView::Dots(_) | ListItemMarkerView::AlphaListCapital(_) => ListType::Ordered,
        ListItemMarkerView::DefinedTerm { .. } => ListType::Description,
    }
}

pub struct ListView {
    pub type_: ListType,
    pub source: SpanView,
    pub header: HeaderView,
}

/// A list contains a sequence of items prefixed with symbol, such as a disc
/// (aka bullet). Each individual item in the list is represented by a
/// [`ListItem`].
#[derive(Debug)]
pub struct ListBlock {
    type_: ListType,
    items: Vec<Block>,
    source: Span,
    header: BlockHeader,
}

impl View for ListBlock {
    type V = ListView;

    closed spec fn view(&self) -> ListView {
        ListView { type_: self.type_, source: self.source@, header: self.header@ }
    }
}

fn list_type_exec(m: &ListItemMarker) -> (r: ListType)
    ensures
        r == list_type_of(m@),
{
    match m {
        ListItemMarker::Hyphen(_) | ListItemMarker::Asterisks(_) | ListItemMarker::Bullet(_) => ListType::Unordered,
        ListItemMarker::Dots(_) | ListItemMarker::AlphaListCapital(_) => ListType::Ordered,
        ListItemMarker::DefinedTerm { .. } => ListType::Description,
    }
}

/// Where item `i` of a list read from `src` starts: `src` itself for the
/// first, else past the blank lines after the previous item (which ends at
/// `afters[i - 1]`).
pub open spec fn item_start(src: SpanView, afters: Seq<SpanView>, i: int) -> SpanView {
    if i == 0 {
        src
    } else {
        past_blank_lines(afters[i - 1])
    }
}

/// No list item whose marker matches `m` can be read at `after` (inside
/// items with markers `ps`): either no item starts there, or its marker
/// does not match, or reading that item fails as [`item_fails`] says.
pub open spec fn no_matching_item(
    m: ListItemMarkerView,
    attrs: Seq<(Seq<char>, Option<Seq<char>>)>,
    ps: Seq<ListItemMarkerView>,
    after: SpanView,
) -> bool
    decreases after.len(), 16int,
{
    match marker_at(after) {
        Some((m2, text)) => simple_block_of(bare_md(text), attrs, true) is Some && markers_match(m, m2)
            ==> item_fails(after, attrs, ps),
        None => true,
    }
}

/// A list can be read where a list item marker with text after it starts
/// the block (past blank lines).
pub open spec fn list_starts(md: MetadataView, attrs: Seq<(Seq<char>, Option<Seq<char>>)>) -> bool {
    match marker_at(past_blank_lines(md.block_start)) {
        Some((_, text)) => simple_block_of(bare_md(text), attrs, true) is Some,
        None => false,
    }
}

/// What is known of the list `v`, with items `items`, that the metadata
/// `md` introduces inside items with markers `ps`, read up to `after`: its type is that of the marker that
/// starts it; each item is a list item whose marker matches that one (the
/// first has that very marker), read where the previous one ended as
/// [`ListItem::parse`] reads it; the list ends past the blank lines after
/// its last item, where no item with a matching marker can be read; its source runs from the first marker to the end of its
/// last item, and it carries the metadata's header.
pub open spec fn list_parsed(
    md: MetadataView,
    attrs: Seq<(Seq<char>, Option<Seq<char>>)>,
    ps: Seq<ListItemMarkerView>,
    v: ListView,
    items: Seq<Block>,
    after: SpanView,
) -> bool
    decreases md.block_start.len(), 17int,
{
    let src = past_blank_lines(md.block_start);
    let b = without_line_end(before(src, after));
    &&& consumed(after, md.block_start)
    &&& marker_at(src) matches Some((m, _))
    &&& no_matching_item(m, attrs, ps, after)
    &&& v.type_ == list_type_of(m)
    &&& items.len() > 0
    &&& items[0] matches Block::ListItem(first)
    &&& first@.marker == m
    &&& forall|i: int|
        0 <= i < items.len() ==> (#[trigger] items[i] matches Block::ListItem(li) && markers_match(
            m,
            li@.marker,
        ))
    &&& exists|afters: Seq<SpanView>|
        {
            &&& afters.len() == items.len()
            &&& after == item_start(src, afters, items.len() as int)
            &&& forall|i: int|
                0 <= i < items.len() ==> (#[trigger] items[i] matches Block::ListItem(li)
                    && list_item_parsed(
                    bare_md(item_start(src, afters, i)),
                    attrs,
                    li@,
                    li.blocks_view(),
                    afters[i],
                ))
        }
    &&& v.source == b.sub(0, trimmed_len(b.data, trailing_ws_pred()))
    &&& v.header == md.header
}

/// The type of a list follows from the marker of its first item: hyphens,
/// asterisks and the bullet make an unordered list, dots and capital
/// letters an ordered one, a term a description list. Every item's marker
/// is of the first one's kind, and where that is made of symbols, it is
/// the very same text: a `..` item after a `.` item is not one of its
/// siblings.
pub proof fn lemma_list_items_like_first(
    md: MetadataView,
    attrs: Seq<(Seq<char>, Option<Seq<char>>)>,
    ps: Seq<ListItemMarkerView>,
    v: ListView,
    items: Seq<Block>,
    after: SpanView,
)
    requires
        list_parsed(md, attrs, ps, v, items, after),
    ensures
        marker_at(past_blank_lines(md.block_start)) matches Some((m, _)) && {
            &&& (m is Hyphen || m is Asterisks || m is Bullet) ==> v.type_ == ListType::Unordered
            &&& (m is Dots || m is AlphaListCapital) ==> v.type_ == ListType::Ordered
            &&& m is DefinedTerm ==> v.type_ == ListType::Description
            &&& forall|i: int|
                0 <= i < items.len() ==> (#[trigger] items[i] matches Block::ListItem(li) && same_kind(
                    m,
                    li@.marker,
                ) && (symbol_marker(m) ==> marker_span(li@.marker).data == marker_span(m).data))
        },
{
    let m = marker_at(past_blank_lines(md.block_start)).unwrap().0;
    assert forall|i: int| 0 <= i < items.len() implies (#[trigger] items[i] matches Block::ListItem(li)
        && same_kind(m, li@.marker) && (symbol_marker(m) ==> marker_span(li@.marker).data == marker_span(
        m,
    ).data)) by {
        if let Block::ListItem(li) = items[i] {
            lemma_markers_match_text(m, li@.marker);
        }
    }
}

impl ListBlock {
    /// The items of this list.
    pub closed spec fn items_view(&self) -> Seq<Block> {
        self.items@
    }

    /// Parses a list at the start of the block: a run of list items whose
    /// markers match the first one.
    pub fn parse(metadata: &BlockMetadata, parser: &mut Parser, warnings: &mut Vec<Warning>) -> (r: Option<
        MatchedItem<ListBlock>,
    >)
        requires
            metadata.wf(),
        ensures
            parser_kept(old(parser)@, final(parser)@),
            final(warnings)@ == old(warnings)@,
            r is Some ==> list_starts(metadata.md_view(), old(parser)@.attributes),
            !list_starts(metadata.md_view(), old(parser)@.attributes) ==> r is None,
            r is None && list_starts(metadata.md_view(), old(parser)@.attributes) ==> item_fails(
                past_blank_lines(metadata.block_start@),
                old(parser)@.attributes,
                Seq::empty(),
            ),
            r is None ==> final(parser)@ == old(parser)@,
            r matches Some(mi) ==> list_parsed(
                metadata.md_view(),
                old(parser)@.attributes,
                Seq::empty(),
                mi.item@,
                mi.item.items_view(),
                mi.after@,
            ),
        decreases metadata.source@.len(), 3int,
    {
        let parents: Vec<ListItemMarker> = Vec::new();
        proof {
            assert(marker_views(parents@) =~= Seq::<ListItemMarkerView>::empty());
        }
        Self::parse_inside_list(metadata, parents.as_slice(), parser, warnings)
    }

    /// Parses a list nested in a list item whose own marker and those of
    /// the items that enclose it are `parents`.
    ///
    /// The list ends at the first item whose marker does not match the
    /// first item's marker.
    pub fn parse_inside_list(
        metadata: &BlockMetadata,
        parents: &[ListItemMarker],
        parser: &mut Parser,
        warnings: &mut Vec<Warning>,
    ) -> (r: Option<MatchedItem<ListBlock>>)
        requires
            metadata.wf(),
        ensures
            parser_kept(old(parser)@, final(parser)@),
            final(warnings)@ == old(warnings)@,
            r is Some ==> list_starts(metadata.md_view(), old(parser)@.attributes),
            !list_starts(metadata.md_view(), old(parser)@.attributes) ==> r is None,
            r is None && list_starts(metadata.md_view(), old(parser)@.attributes) ==> item_fails(
                past_blank_lines(metadata.block_start@),
                old(parser)@.attributes,
                marker_views(parents@),
            ),
            r is None ==> final(parser)@ == old(parser)@,
            r matches Some(mi) ==> list_parsed(
                metadata.md_view(),
                old(parser)@.attributes,
                marker_views(parents@),
                mi.item@,
                mi.item.items_view(),
                mi.after@,
            ),
        decreases metadata.source@.len(), 2int,
    {
        let source = metadata.block_start.discard_empty_lines();
        let ghost bs = metadata.block_start@;
        let mut items: Vec<Block> = Vec::new();
        let mut next = source.copy();
        let mut first: Option<ListItemMarker> = None;
        let ghost m0 = match marker_at(source@) {
            Some((m, _)) => m,
            None => arbitrary(),
        };
        let ghost attrs = parser@.attributes;
        let ghost mut afters: Seq<SpanView> = Seq::empty();
        proof {
            crate::span::lemma_suffix_refl(source@);
            lemma_suffix_trans(source@, bs, metadata.source@);
            lemma_parser_kept_refl(parser@);
            lemma_past_blank_lines_idem(bs);
        }
        loop
            invariant
                attrs == old(parser)@.attributes,
                afters.len() == items@.len(),
                next@ == item_start(source@, afters, items@.len() as int),
                forall|i: int|
                    0 <= i < items@.len() ==> (#[trigger] items@[i] matches Block::ListItem(li)
                        && list_item_parsed(
                        bare_md(item_start(source@, afters, i)),
                        attrs,
                        li@,
                        li.blocks_view(),
                        afters[i],
                    )),
                source@ == past_blank_lines(bs),
                past_blank_lines(source@) == source@,
                marker_at(source@) matches Some((mm, _)) ==> m0 == mm,
                first matches Some(f) ==> f@ == m0 && marker_at(source@) is Some,
                items@.len() > 0 ==> (items@[0] matches Block::ListItem(li) && li@.marker == m0),
                forall|i: int|
                    0 <= i < items@.len() ==> (#[trigger] items@[i] matches Block::ListItem(li)
                        && markers_match(m0, li@.marker)),
                items@.len() == 0 ==> next@ == source@,
                metadata.wf(),
                bs == metadata.block_start@,
                source@.wf(),
                source@.is_suffix_of(bs),
                source@.is_suffix_of(metadata.source@),
                next@.wf(),
                next@.is_suffix_of(source@),
                first is Some == (items@.len() > 0),
                items@.len() > 0 ==> next@.len() < source@.len(),
                parser_kept(old(parser)@, parser@),
                warnings@ == old(warnings)@,
                past_blank_lines(next@) == next@,
                items@.len() == 0 ==> parser@ == old(parser)@,
            ensures
                items@.len() > 0 ==> no_matching_item(m0, attrs, marker_views(parents@), next@),
                items@.len() == 0 ==> (!list_starts(metadata.md_view(), attrs) || item_fails(
                    source@,
                    attrs,
                    marker_views(parents@),
                )),
            decreases next@.len(),
        {
            proof {
                lemma_suffix_trans(next@, source@, metadata.source@);
            }
            let item_md = BlockMetadata::bare(&next);
            let ghost p0 = parser@;
            let mi = match ListItem::parse(&item_md, parents, parser, warnings) {
                Some(mi) => mi,
                None => {
                    proof {
                        lemma_parser_kept_trans(old(parser)@, p0, parser@);
                    }
                    break;
                },
            };
            proof {
                lemma_parser_kept_trans(old(parser)@, p0, parser@);
            }
            let marker = mi.item.list_item_marker();
            let matches_first = match &first {
                Some(f) => f.is_match_for(marker),
                None => true,
            };
            if !matches_first {
                break;
            }
            if first.is_none() {
                proof {
                    assert(next@ == source@);
                    assert(item_md.md_view().block_start == source@);
                    assert(past_blank_lines(item_md.md_view().block_start) == source@);
                    assert(list_item_parsed(item_md.md_view(), p0.attributes, mi.item@, mi.item.blocks_view(), mi.after@));
                    assert(mi.item@.marker == m0);
                    crate::blocks::list_item_marker::lemma_markers_match_reflexive(m0);
                }
                first = Some(marker.copy());
            }
            proof {
                let n = items@.len() as int;
                let old_afters = afters;
                afters = afters.push(mi.after@);
                assert forall|i: int| 0 <= i < n implies item_start(source@, afters, i) == item_start(
                    source@,
                    old_afters,
                    i,
                ) by {}
                assert(item_start(source@, afters, n) == next@);
                assert(item_md.md_view() == bare_md(next@));
            }
            items.push(Block::ListItem(mi.item));
            proof {
                lemma_suffix_trans(mi.after@, next@, source@);
                crate::blocks::layout::lemma_past_blank_lines(mi.after@, source@);
                lemma_empty_lines_len(mi.after@.data);
            }
            proof {
                lemma_past_blank_lines_idem(mi.after@);
            }
            next = mi.after.discard_empty_lines();
        }
        let first = match first {
            Some(f) => f,
            None => {
                return None;
            },
        };
        let type_ = list_type_exec(&first);
        proof {
            lemma_suffix_trans(next@, source@, bs);
        }
        let src = source.trim_remainder(&next).trim_trailing_line_end().trim_trailing_whitespace();
        proof {
            lemma_consumed_trans(next@, source@, bs);
        }
        Some(MatchedItem {
            item: ListBlock { type_, items, source: src, header: metadata.header() },
            after: next,
        })
    }

    /// Returns the type of this list.
    pub fn type_(&self) -> (r: ListType)
        ensures
            r == self@.type_,
    {
        self.type_
    }

    /// Returns the items of this list.
    pub fn items(&self) -> (r: &[Block])
        ensures
            r@ == self.items_view(),
    {
        self.items.as_slice()
    }

    /// Returns the source text of this block.
    pub fn span(&self) -> (r: &Span)
        ensures
            r@ == self@.source,
    {
        &self.source
    }

    /// Returns the title, anchor and attribute list of this block.
    pub fn header(&self) -> (r: &BlockHeader)
        ensures
            r@ == self@.header,
    {
        &self.header
    }
}


impl IsBlock for ListBlock {
    open spec fn block_header(&self) -> HeaderView {
        self@.header
    }

    open spec fn fallback_id(&self) -> Option<Seq<char>> {
        None
    }

    open spec fn block_model(&self) -> ContentModel {
        ContentModel::Compound
    }

    open spec fn block_context(&self) -> Seq<char> {
        "list"@
    }

    open spec fn block_nested(&self) -> Seq<Block> {
        self.items_view()
    }

    open spec fn block_rendered(&self) -> Option<Seq<char>> {
        None
    }

    open spec fn block_group(&self) -> GroupView {
        GroupView::Normal
    }

    fn content_model(&self) -> (r: ContentModel) {
        ContentModel::Compound
    }

    fn raw_context(&self) -> (r: &str) {
        "list"
    }

    fn nested_blocks(&self) -> (r: &[Block]) {
        self.items.as_slice()
    }

    fn title_source(&self) -> (r: Option<&Span>) {
        self.header().title_source()
    }

    fn title(&self) -> (r: Option<&str>) {
        self.header().title()
    }

    fn anchor(&self) -> (r: Option<&Span>) {
        self.header().anchor()
    }

    fn anchor_reftext(&self) -> (r: Option<&Span>) {
        self.header().anchor_reftext()
    }

    fn attrlist(&self) -> (r: Option<&Attrlist>) {
        self.header().attrlist()
    }

    fn generated_id(&self) -> (r: Option<&str>) {
        None
    }

    fn rendered_content(&self) -> (r: Option<&str>) {
        None
    }

    fn substitution_group(&self) -> (r: SubstitutionGroup) {
        SubstitutionGroup::Normal
    }
}

} // verus!
