use vstd::prelude::*;

use crate::attributes::attrlist::{Attrlist, AttrlistView, al_parse, lemma_warnings_at};
use crate::attributes::element_attribute::AttrlistContext;
use crate::content::{Content, SubstitutionGroup, apply_group, GroupView};
use crate::parser::{Parser, default_attributes};
use crate::span::{
    MatchedItem, Span, SpanView, first_index_of, is_blank, is_xml_name_seq, line_after_len,
    lemma_line_lens, normalized_line_len, empty_lines_len, lemma_skip_wf, lemma_suffix_trans,
    lemma_suffix_refl,
};
use crate::warnings::{MatchAndWarnings, Warning, WarningType, all_at, warning_views};

verus! {

pub type WarningViews = Seq<(SpanView, WarningType)>;

/// A block title line (`.Title`) at the start of `bs`: the title and what
/// follows the line.
pub open spec fn title_at(bs: SpanView) -> Option<(SpanView, SpanView)> {
    let n = normalized_line_len(bs.data);
    if n > 0 && bs.data[0] == '.' && !(n > 1 && (bs.data[1] == '.' || is_blank(bs.data[1]))) {
        Some((bs.sub(1, n), bs.skip(line_after_len(bs.data))))
    } else {
        None
    }
}

/// A block anchor line (`[[anchor]]`) at the start of `bs`: the text
/// between the double brackets and what follows the line, or a warning if
/// that text is empty.
pub open spec fn anchor_at(bs: SpanView) -> (Option<(SpanView, SpanView)>, WarningViews) {
    let n = normalized_line_len(bs.data);
    if !(bs.len() >= 2 && bs.data[0] == '[' && bs.data[1] == '[') {
        (None, Seq::empty())
    } else if n < 4 || bs.data[n - 2] != ']' || bs.data[n - 1] != ']' {
        (None, Seq::empty())
    } else if n == 4 {
        (None, seq![(bs.sub(2, 2), WarningType::EmptyBlockAnchorName)])
    } else {
        (Some((bs.sub(2, n - 2), bs.skip(line_after_len(bs.data)))), Seq::empty())
    }
}

/// A block attribute list line (`[...]`) at the start of `bs`: the list,
/// what follows the line, and the warnings from parsing the list.
pub open spec fn attrlist_at(bs: SpanView, attrs: Seq<(Seq<char>, Option<Seq<char>>)>) -> Option<
    (AttrlistView, SpanView, WarningViews),
> {
    let n = normalized_line_len(bs.data);
    if bs.len() == 0 || bs.data[0] != '[' || n < 2 || bs.data[n - 1] != ']' {
        None
    } else {
        let src = bs.sub(1, n - 1);
        if src.len() > 0 && (is_blank(src.data[0]) || (src.data[0] == '[' && src.data.last()
            == ']')) {
            None
        } else {
            let p = al_parse(src.data, attrs, AttrlistContext::Block);
            Some(
                (
                    AttrlistView { attributes: p.0, anchor: p.1, source: src },
                    bs.skip(line_after_len(bs.data)),
                    all_at(src, p.2),
                ),
            )
        }
    }
}

/// The metadata found so far: title, anchor, anchor reftext, attribute
/// list.
pub type MdState = (Option<SpanView>, Option<SpanView>, Option<SpanView>, Option<AttrlistView>);

/// The effect of looking for an anchor line at `bs` (when no anchor has
/// been found yet): the new metadata, where reading goes on, the warnings.
pub open spec fn anchor_result(bs: SpanView, st: MdState) -> (MdState, SpanView, WarningViews) {
    let (am, aw) = if st.1 is None {
        anchor_at(bs)
    } else {
        (None, Seq::empty())
    };
    let (new_st, new_bs, w2) = match am {
        Some((item, after)) => {
            let c = first_index_of(item.data, ',');
            if c is Some && c->0 < item.len() - 1 {
                let anchor = item.sub(0, c->0);
                if is_xml_name_seq(anchor.data) {
                    ((st.0, Some(anchor), Some(item.skip(c->0 + 1)), st.3), after, Seq::empty())
                } else {
                    (st, bs, seq![(anchor, WarningType::InvalidBlockAnchorName)])
                }
            } else if is_xml_name_seq(item.data) {
                ((st.0, Some(item), st.2, st.3), after, Seq::empty())
            } else {
                (st, bs, seq![(item, WarningType::InvalidBlockAnchorName)])
            }
        },
        None => (st, bs, Seq::empty()),
    };
    (new_st, new_bs, aw + w2)
}

/// Reads block metadata lines (title, anchor, attribute list, in any order,
/// each at most once) from `bs` on. Returns where the block proper starts,
/// the metadata found and the warnings.
pub open spec fn md_loop(
    bs: SpanView,
    st: MdState,
    attrs: Seq<(Seq<char>, Option<Seq<char>>)>,
) -> (SpanView, MdState, WarningViews)
    decreases bs.len(),
{
    let title = title_at(bs);
    if st.0 is None && title is Some && title.unwrap().1.len() < bs.len() {
        md_loop(title.unwrap().1, (Some(title.unwrap().0), st.1, st.2, st.3), attrs)
    } else {
        let (new_st, new_bs, w) = anchor_result(bs, st);
        if new_bs.len() < bs.len() {
            let r = md_loop(new_bs, new_st, attrs);
            (r.0, r.1, w + r.2)
        } else {
            let al = attrlist_at(bs, attrs);
            if st.3 is None && al is Some && al.unwrap().1.len() < bs.len() {
                let r = md_loop(al.unwrap().1, (st.0, st.1, st.2, Some(al.unwrap().0)), attrs);
                (r.0, r.1, w + al.unwrap().2 + r.2)
            } else {
                (bs, st, w)
            }
        }
    }
}

/// The title, anchor, attribute list and other metadata that can precede a
/// block, and where the block itself starts.
#[derive(Debug)]
pub struct BlockMetadata {
    /// The block's raw title, if any.
    pub title_source: Option<Span>,
    /// The block's rendered title, if any.
    pub title: Option<String>,
    /// The block's anchor, if any (without the brackets or reftext).
    pub anchor: Option<Span>,
    /// The block anchor's reftext, if any.
    pub anchor_reftext: Option<Span>,
    /// The block's attribute list, if any.
    pub attrlist: Option<Attrlist>,
    /// The source where the metadata starts.
    pub source: Span,
    /// The source after the metadata: where the block proper starts.
    pub block_start: Span,
}

pub open spec fn opt_view(s: Option<Span>) -> Option<SpanView> {
    match s {
        Some(x) => Some(x@),
        None => None,
    }
}

pub open spec fn opt_al_view(a: Option<Attrlist>) -> Option<AttrlistView> {
    match a {
        Some(x) => Some(x@),
        None => None,
    }
}

pub open spec fn opt_string_view(s: Option<String>) -> Option<Seq<char>> {
    match s {
        Some(x) => Some(x@),
        None => None,
    }
}

fn copy_opt_span(s: &Option<Span>) -> (r: Option<Span>)
    ensures
        opt_view(r) == opt_view(*s),
{
    match s {
        Some(x) => Some(x.copy()),
        None => None,
    }
}

pub fn copy_opt_attrlist(a: &Option<Attrlist>) -> (r: Option<Attrlist>)
    ensures
        opt_al_view(r) == opt_al_view(*a),
{
    match a {
        Some(x) => Some(x.copy()),
        None => None,
    }
}

pub fn copy_opt_string(s: &Option<String>) -> (r: Option<String>)
    ensures
        r == *s,
{
    match s {
        Some(x) => Some(x.clone()),
        None => None,
    }
}

/// Looks for a block anchor line (`[[anchor]]`) at the start of `source`.
pub fn parse_maybe_block_anchor(source: &Span) -> (r: MatchAndWarnings<Option<MatchedItem<Span>>>)
    requires
        source@.wf(),
    ensures
        r.item is Some == anchor_at(source@).0 is Some,
        r.item matches Some(mi) ==> anchor_at(source@).0 == Some((mi.item@, mi.after@)) && mi.item@.wf()
            && mi.after@.wf(),
        warning_views(r.warnings@) == anchor_at(source@).1,
{
    let none = MatchAndWarnings { item: None, warnings: Vec::new() };
    assert(warning_views(none.warnings@) =~= Seq::<(SpanView, WarningType)>::empty());
    if !(source.len() >= 2 && source.char_at(0) == '[' && source.char_at(1) == '[') {
        return none;
    }
    let line = source.take_normalized_line();
    proof {
        lemma_line_lens(source@.data);
    }
    let n = line.item.len();
    if n < 4 || line.item.char_at(n - 2) != ']' || line.item.char_at(n - 1) != ']' {
        return none;
    }
    let anchor_src = line.item.slice(2, n - 2);
    proof {
        crate::span::lemma_sub_sub(source@, 0, n as int, 2, n - 2);
    }
    if n == 4 {
        let mut w: Vec<Warning> = Vec::new();
        w.push(Warning { source: anchor_src, warning: WarningType::EmptyBlockAnchorName });
        assert(warning_views(w@) =~= anchor_at(source@).1);
        return MatchAndWarnings { item: None, warnings: w };
    }
    MatchAndWarnings { item: Some(MatchedItem { item: anchor_src, after: line.after }), warnings: Vec::new() }
}


/// Looks for a block attribute list line (`[...]`) at the start of
/// `source`.
pub fn parse_maybe_attrlist_line(source: &Span, parser: &Parser) -> (r: Option<
    MatchAndWarnings<MatchedItem<Attrlist>>,
>)
    requires
        source@.wf(),
    ensures
        r is Some == attrlist_at(source@, parser@.attributes) is Some,
        r matches Some(maw) ==> {
            let a = attrlist_at(source@, parser@.attributes).unwrap();
            &&& maw.item.item@ == a.0
            &&& maw.item.after@ == a.1
            &&& maw.item.after@.wf()
            &&& warning_views(maw.warnings@) == a.2
        },
{
    if source.len() == 0 || source.char_at(0) != '[' {
        return None;
    }
    let line = source.take_normalized_line();
    proof {
        lemma_line_lens(source@.data);
    }
    let n = line.item.len();
    if n < 2 || line.item.char_at(n - 1) != ']' {
        return None;
    }
    let src = line.item.slice(1, n - 1);
    proof {
        crate::span::lemma_sub_sub(source@, 0, n as int, 1, n - 1);
    }
    let sl = src.len();
    if sl > 0 && (src.char_at(0) == ' ' || src.char_at(0) == '\t' || (src.char_at(0) == '['
        && src.char_at(sl - 1) == ']')) {
        return None;
    }
    let maw = Attrlist::parse(&src, parser, AttrlistContext::Block);
    proof {
        lemma_warnings_at(maw.warnings@, src@, al_parse(src@.data, parser@.attributes, AttrlistContext::Block).2);
    }
    Some(MatchAndWarnings { item: MatchedItem { item: maw.item.item, after: line.after }, warnings: maw.warnings })
}

/// Metadata gathered while reading metadata lines.
struct MdAcc {
    title_source: Option<Span>,
    anchor: Option<Span>,
    anchor_reftext: Option<Span>,
    attrlist: Option<Attrlist>,
    block_start: Span,
    warnings: Vec<Warning>,
}

spec fn acc_state(a: MdAcc) -> MdState {
    (opt_view(a.title_source), opt_view(a.anchor), opt_view(a.anchor_reftext), opt_al_view(a.attrlist))
}

/// Looks for a title line at the start of what is left.
fn title_step(acc: &mut MdAcc) -> (r: bool)
    requires
        old(acc).block_start@.wf(),
    ensures
        final(acc).block_start@.wf(),
        final(acc).warnings == old(acc).warnings,
        final(acc).anchor == old(acc).anchor,
        final(acc).anchor_reftext == old(acc).anchor_reftext,
        final(acc).attrlist == old(acc).attrlist,
        ({
            let bs = old(acc).block_start@;
            let t = title_at(bs);
            let cond = old(acc).title_source is None && t is Some && t.unwrap().1.len() < bs.len();
            &&& r == cond
            &&& r ==> opt_view(final(acc).title_source) == Some(t.unwrap().0) && final(acc).block_start@
                == t.unwrap().1
            &&& !r ==> final(acc).title_source == old(acc).title_source && final(acc).block_start
                == old(acc).block_start
        }),
{
    let ghost bs = acc.block_start@;
    proof {
        lemma_line_lens(bs.data);
    }
    if acc.title_source.is_none() {
        let line = acc.block_start.take_normalized_line();
        let n = line.item.len();
        if n > 0 && line.item.char_at(0) == '.' && !(n > 1 && (line.item.char_at(1) == '.'
            || line.item.char_at(1) == ' ' || line.item.char_at(1) == '\t')) {
            let title = line.item.discard(1);
            proof {
                crate::span::lemma_sub_skip(bs, 0, n as int, 1);
            }
            if line.after.len() < acc.block_start.len() {
                acc.title_source = Some(title);
                acc.block_start = line.after;
                return true;
            }
        }
    }
    false
}

/// Looks for an anchor line at the start of what is left (if no anchor has
/// been found yet).
fn anchor_step(acc: &mut MdAcc) -> (r: bool)
    requires
        old(acc).block_start@.wf(),
    ensures
        final(acc).block_start@.wf(),
        final(acc).title_source == old(acc).title_source,
        final(acc).attrlist == old(acc).attrlist,
        ({
            let a = anchor_result(old(acc).block_start@, acc_state(*old(acc)));
            &&& acc_state(*final(acc)) == a.0
            &&& final(acc).block_start@ == a.1
            &&& warning_views(final(acc).warnings@) == warning_views(old(acc).warnings@) + a.2
            &&& r == (a.1.len() < old(acc).block_start@.len())
            &&& !r ==> acc_state(*final(acc)) == acc_state(*old(acc)) && final(acc).block_start@
                == old(acc).block_start@
        }),
{
    let ghost bs = acc.block_start@;
    let ghost w0 = warning_views(acc.warnings@);
    proof {
        lemma_line_lens(bs.data);
        crate::span::lemma_skip_wf(bs, line_after_len(bs.data));
    }
    if acc.anchor.is_some() {
        assert(warning_views(acc.warnings@) =~= w0 + Seq::<(SpanView, WarningType)>::empty());
        return false;
    }
    let amaw = parse_maybe_block_anchor(&acc.block_start);
    let mut aw = amaw.warnings;
    let ghost awv = warning_views(aw@);
    acc.warnings.append(&mut aw);
    assert(warning_views(acc.warnings@) =~= w0 + awv);
    match amaw.item {
        Some(mi) => {
            let ilen = mi.item.len();
            let c = mi.item.position_of(',');
            let use_comma = match c {
                Some(ci) => ci + 1 < ilen,
                None => false,
            };
            if use_comma {
                let ci = c.unwrap();
                let anchor_span = mi.item.slice(0, ci);
                let reftext_span = mi.item.discard(ci + 1);
                if anchor_span.is_xml_name() {
                    acc.anchor = Some(anchor_span);
                    acc.anchor_reftext = Some(reftext_span);
                    acc.block_start = mi.after;
                    assert(warning_views(acc.warnings@) =~= w0 + awv + Seq::<(SpanView, WarningType)>::empty());
                    true
                } else {
                    let ghost wb = warning_views(acc.warnings@);
                    let ghost av = anchor_span@;
                    acc.warnings.push(Warning { source: anchor_span, warning: WarningType::InvalidBlockAnchorName });
                    assert(warning_views(acc.warnings@) =~= w0 + awv + seq![(av, WarningType::InvalidBlockAnchorName)]);
                    false
                }
            } else {
                if mi.item.is_xml_name() {
                    acc.anchor = Some(mi.item);
                    acc.block_start = mi.after;
                    assert(warning_views(acc.warnings@) =~= w0 + awv + Seq::<(SpanView, WarningType)>::empty());
                    true
                } else {
                    let ghost iv = mi.item@;
                    acc.warnings.push(Warning { source: mi.item, warning: WarningType::InvalidBlockAnchorName });
                    assert(warning_views(acc.warnings@) =~= w0 + awv + seq![(iv, WarningType::InvalidBlockAnchorName)]);
                    false
                }
            }
        },
        None => {
            assert(warning_views(acc.warnings@) =~= w0 + awv + Seq::<(SpanView, WarningType)>::empty());
            false
        },
    }
}

/// Looks for an attribute list line at the start of what is left (if no
/// attribute list has been found yet).
fn attrlist_step(acc: &mut MdAcc, parser: &Parser) -> (r: bool)
    requires
        old(acc).block_start@.wf(),
    ensures
        final(acc).block_start@.wf(),
        final(acc).title_source == old(acc).title_source,
        final(acc).anchor == old(acc).anchor,
        final(acc).anchor_reftext == old(acc).anchor_reftext,
        ({
            let bs = old(acc).block_start@;
            let al = attrlist_at(bs, parser@.attributes);
            let cond = old(acc).attrlist is None && al is Some && al.unwrap().1.len() < bs.len();
            &&& r == cond
            &&& r ==> opt_al_view(final(acc).attrlist) == Some(al.unwrap().0) && final(acc).block_start@
                == al.unwrap().1 && warning_views(final(acc).warnings@) == warning_views(old(acc).warnings@)
                + al.unwrap().2
            &&& !r ==> final(acc).attrlist == old(acc).attrlist && final(acc).block_start
                == old(acc).block_start && final(acc).warnings == old(acc).warnings
        }),
{
    if acc.attrlist.is_none() {
        match parse_maybe_attrlist_line(&acc.block_start, parser) {
            Some(maw) => {
                if maw.item.after.len() < acc.block_start.len() {
                    let ghost w0 = warning_views(acc.warnings@);
                    let mut w = maw.warnings;
                    let ghost wv = warning_views(w@);
                    acc.warnings.append(&mut w);
                    assert(warning_views(acc.warnings@) =~= w0 + wv);
                    acc.attrlist = Some(maw.item.item);
                    acc.block_start = maw.item.after;
                    return true;
                }
            },
            None => {},
        }
    }
    false
}

/// Reads one metadata line, if there is one. Returns `false` when no more
/// metadata is found.
fn md_step(acc: &mut MdAcc, parser: &Parser) -> (r: bool)
    requires
        old(acc).block_start@.wf(),
    ensures
        final(acc).block_start@.wf(),
        ({
            let before = md_loop(old(acc).block_start@, acc_state(*old(acc)), parser@.attributes);
            let after = md_loop(final(acc).block_start@, acc_state(*final(acc)), parser@.attributes);
            if r {
                &&& final(acc).block_start@.len() < old(acc).block_start@.len()
                &&& before.0 == after.0
                &&& before.1 == after.1
                &&& warning_views(old(acc).warnings@) + before.2 == warning_views(final(acc).warnings@) + after.2
            } else {
                &&& final(acc).block_start@ == old(acc).block_start@
                &&& acc_state(*final(acc)) == acc_state(*old(acc))
                &&& before.0 == old(acc).block_start@
                &&& before.1 == acc_state(*old(acc))
                &&& warning_views(final(acc).warnings@) == warning_views(old(acc).warnings@) + before.2
            }
        }),
{
    let ghost bs = acc.block_start@;
    let ghost st = acc_state(*acc);
    let ghost w0 = warning_views(acc.warnings@);
    if title_step(acc) {
        return true;
    }
    let ghost a = anchor_result(bs, st);
    if anchor_step(acc) {
        proof {
            let after = md_loop(acc.block_start@, acc_state(*acc), parser@.attributes);
            assert(w0 + md_loop(bs, st, parser@.attributes).2 =~= warning_views(acc.warnings@) + after.2);
        }
        return true;
    }
    let ghost w1 = warning_views(acc.warnings@);
    assert(acc_state(*acc) == st);
    assert(acc.block_start@ == bs);
    let ghost acc_mid_attrlist = acc.attrlist;
    if attrlist_step(acc, parser) {
        proof {
            let after = md_loop(acc.block_start@, acc_state(*acc), parser@.attributes);
            assert(w0 + md_loop(bs, st, parser@.attributes).2 =~= warning_views(acc.warnings@) + after.2);
        }
        return true;
    }
    false
}

impl BlockMetadata {
    /// Parses the title, anchor and attribute list lines that may precede a
    /// block, after skipping blank lines.
    pub fn parse(source: &Span, parser: &Parser) -> (r: MatchAndWarnings<BlockMetadata>)
        requires
            source@.wf(),
        ensures
            ({
                let src = source@.skip(empty_lines_len(source@.data));
                let m = md_loop(src, (None, None, None, None), parser@.attributes);
                &&& r.item.source@ == src
                &&& r.item.block_start@ == m.0
                &&& opt_view(r.item.title_source) == m.1.0
                &&& opt_view(r.item.anchor) == m.1.1
                &&& opt_view(r.item.anchor_reftext) == m.1.2
                &&& opt_al_view(r.item.attrlist) == m.1.3
                &&& warning_views(r.warnings@) == m.2
                &&& opt_string_view(r.item.title) == match m.1.0 {
                    Some(t) => Some(apply_group(GroupView::Normal, t.data, parser@.attributes)),
                    None => None,
                }
            }),
            r.item.md_view() == metadata_of_source(source@, parser@.attributes),
            r.item.source@.wf(),
            r.item.block_start@.wf(),
            r.item.source@.is_suffix_of(source@),
            r.item.wf(),
    {
        let src = source.discard_empty_lines();
        let mut acc = MdAcc {
            title_source: None,
            anchor: None,
            anchor_reftext: None,
            attrlist: None,
            block_start: src.copy(),
            warnings: Vec::new(),
        };
        let ghost total = md_loop(src@, (None, None, None, None), parser@.attributes);
        assert(warning_views(acc.warnings@) =~= Seq::<(SpanView, WarningType)>::empty());
        assert(total.2 =~= warning_views(acc.warnings@) + total.2);
        loop
            invariant_except_break
                acc.block_start@.wf(),
                total == md_loop(src@, (None, None, None, None), parser@.attributes),
                total.0 == md_loop(acc.block_start@, acc_state(acc), parser@.attributes).0,
                total.1 == md_loop(acc.block_start@, acc_state(acc), parser@.attributes).1,
                total.2 == warning_views(acc.warnings@) + md_loop(acc.block_start@, acc_state(acc), parser@.attributes).2,
            ensures
                acc.block_start@.wf(),
                total.0 == acc.block_start@,
                total.1 == acc_state(acc),
                total.2 == warning_views(acc.warnings@),
            decreases acc.block_start@.len(),
        {
            let ghost w_before = warning_views(acc.warnings@);
            let ghost r_before = md_loop(acc.block_start@, acc_state(acc), parser@.attributes);
            if !md_step(&mut acc, parser) {
                proof {
                    assert(total.2 =~= warning_views(acc.warnings@));
                }
                break;
            }
            proof {
                let r_after = md_loop(acc.block_start@, acc_state(acc), parser@.attributes);
                assert(total.2 =~= warning_views(acc.warnings@) + r_after.2);
            }
        }
        proof {
            lemma_md_loop_suffix(src@, (None, None, None, None), parser@.attributes);
        }
        let title = match &acc.title_source {
            Some(t) => {
                let mut content = Content::from_span(t);
                SubstitutionGroup::Normal.apply(&mut content, parser);
                Some(content.rendered().to_owned())
            },
            None => None,
        };
        MatchAndWarnings {
            item: BlockMetadata {
                title_source: acc.title_source,
                title,
                anchor: acc.anchor,
                anchor_reftext: acc.anchor_reftext,
                attrlist: acc.attrlist,
                source: src,
                block_start: acc.block_start,
            },
            warnings: acc.warnings,
        }
    }

    /// Parses block metadata from a piece of text, with a default parser.
    pub fn new(data: &str) -> (r: BlockMetadata)
        requires
            4 * data@.len() <= usize::MAX,
        ensures
            r.md_view() == metadata_of_source(
                SpanView { data: data@, line: 1, col: 1, offset: 0 },
                default_attributes(),
            ),
            r.wf(),
    {
        let parser = Parser::default();
        let span = Span::new(data);
        Self::parse(&span, &parser).item
    }

    /// Returns `true` if there is neither a title nor an attribute list.
    pub fn is_empty(&self) -> (r: bool)
        ensures
            r == (self.title is None && self.attrlist is None),
    {
        self.title.is_none() && self.attrlist.is_none()
    }

    /// Returns `true` if the block style is `discrete` or `float`.
    pub fn is_discrete(&self) -> (r: bool)
        ensures
            r == (match self.attrlist {
                Some(a) => a@.block_style() == Some("discrete"@) || a@.block_style() == Some(
                    "float"@,
                ),
                None => false,
            }),
    {
        match &self.attrlist {
            Some(a) => match a.block_style() {
                Some(bs) => crate::text::str_eq(bs, "discrete") || crate::text::str_eq(bs, "float"),
                None => false,
            },
            None => false,
        }
    }
}


/// A tail of a span is a suffix of it.
pub proof fn lemma_skip_is_suffix(v: SpanView, k: int)
    requires
        0 <= k <= v.len(),
    ensures
        v.skip(k).is_suffix_of(v),
{
}

/// Metadata reading only ever moves forward.
pub proof fn lemma_md_loop_suffix(
    bs: SpanView,
    st: MdState,
    attrs: Seq<(Seq<char>, Option<Seq<char>>)>,
)
    ensures
        md_loop(bs, st, attrs).0.is_suffix_of(bs),
    decreases bs.len(),
{
    lemma_line_lens(bs.data);
    let title = title_at(bs);
    if st.0 is None && title is Some && title.unwrap().1.len() < bs.len() {
        lemma_md_loop_suffix(title.unwrap().1, (Some(title.unwrap().0), st.1, st.2, st.3), attrs);
        lemma_suffix_trans(md_loop(bs, st, attrs).0, title.unwrap().1, bs);
    } else {
        let (new_st, new_bs, w) = anchor_result(bs, st);
        if new_bs.len() < bs.len() {
            lemma_md_loop_suffix(new_bs, new_st, attrs);
            lemma_suffix_trans(md_loop(bs, st, attrs).0, new_bs, bs);
        } else {
            let al = attrlist_at(bs, attrs);
            if st.3 is None && al is Some && al.unwrap().1.len() < bs.len() {
                lemma_md_loop_suffix(al.unwrap().1, (st.0, st.1, st.2, Some(al.unwrap().0)), attrs);
                lemma_suffix_trans(md_loop(bs, st, attrs).0, al.unwrap().1, bs);
            } else {
                lemma_suffix_refl(bs);
            }
        }
    }
}

/// Where metadata reading moves past the start of `bs`, the first line of
/// `bs` is a title, anchor or attribute list line: it starts with `.` or
/// `[`.
pub proof fn lemma_md_loop_first(
    bs: SpanView,
    st: MdState,
    attrs: Seq<(Seq<char>, Option<Seq<char>>)>,
)
    ensures
        md_loop(bs, st, attrs).0 == bs || (bs.len() > 0 && (bs.data[0] == '.' || bs.data[0] == '[')),
{
    lemma_line_lens(bs.data);
}

/// Each kind of metadata line is read at most once: a title, an anchor
/// (with its reference text) or an attribute list found before stays as it
/// was, whatever lines follow.
pub proof fn lemma_md_loop_keeps(
    bs: SpanView,
    st: MdState,
    attrs: Seq<(Seq<char>, Option<Seq<char>>)>,
)
    ensures
        st.0 is Some ==> md_loop(bs, st, attrs).1.0 == st.0,
        st.1 is Some ==> md_loop(bs, st, attrs).1.1 == st.1 && md_loop(bs, st, attrs).1.2 == st.2,
        st.3 is Some ==> md_loop(bs, st, attrs).1.3 == st.3,
    decreases bs.len(),
{
    let title = title_at(bs);
    if st.0 is None && title is Some && title.unwrap().1.len() < bs.len() {
        lemma_md_loop_keeps(title.unwrap().1, (Some(title.unwrap().0), st.1, st.2, st.3), attrs);
    } else {
        let (new_st, new_bs, w) = anchor_result(bs, st);
        if new_bs.len() < bs.len() {
            lemma_md_loop_keeps(new_bs, new_st, attrs);
        } else {
            let al = attrlist_at(bs, attrs);
            if st.3 is None && al is Some && al.unwrap().1.len() < bs.len() {
                lemma_md_loop_keeps(al.unwrap().1, (st.0, st.1, st.2, Some(al.unwrap().0)), attrs);
            }
        }
    }
}

impl BlockMetadata {
    /// The metadata spans are well-formed and the block starts at or after
    /// where the metadata starts.
    pub open spec fn wf(&self) -> bool {
        &&& self.source@.wf()
        &&& self.block_start@.wf()
        &&& self.block_start@.is_suffix_of(self.source@)
    }
}


/// The title, anchor and attribute list of a block, as a model.
pub struct HeaderView {
    pub title_source: Option<SpanView>,
    pub title: Option<Seq<char>>,
    pub anchor: Option<SpanView>,
    pub anchor_reftext: Option<SpanView>,
    pub attrlist: Option<AttrlistView>,
}

/// Block metadata as a model: where it starts, where the block proper
/// starts, and the header that the block carries.
pub struct MetadataView {
    pub source: SpanView,
    pub block_start: SpanView,
    pub header: HeaderView,
}

/// The header of a block that has no title, anchor or attribute list.
pub open spec fn empty_header() -> HeaderView {
    HeaderView { title_source: None, title: None, anchor: None, anchor_reftext: None, attrlist: None }
}

/// Metadata with nothing in it, for a block that starts right at `source`.
pub open spec fn bare_md(source: SpanView) -> MetadataView {
    MetadataView { source, block_start: source, header: empty_header() }
}

/// The metadata that parsing `source` gives, under the document attributes
/// `attrs`: blank lines are skipped, then title, anchor and attribute list
/// lines are read; the title is rendered with normal substitutions.
pub open spec fn metadata_of_source(source: SpanView, attrs: Seq<(Seq<char>, Option<Seq<char>>)>) -> MetadataView {
    let src = source.skip(empty_lines_len(source.data));
    let m = md_loop(src, (None, None, None, None), attrs);
    MetadataView {
        source: src,
        block_start: m.0,
        header: HeaderView {
            title_source: m.1.0,
            title: match m.1.0 {
                Some(t) => Some(apply_group(GroupView::Normal, t.data, attrs)),
                None => None,
            },
            anchor: m.1.1,
            anchor_reftext: m.1.2,
            attrlist: m.1.3,
        },
    }
}

/// The title, anchor and attribute list that a block carries from its
/// metadata.
#[derive(Debug)]
pub struct BlockHeader {
    title_source: Option<Span>,
    title: Option<String>,
    anchor: Option<Span>,
    anchor_reftext: Option<Span>,
    attrlist: Option<Attrlist>,
}

impl View for BlockHeader {
    type V = HeaderView;

    closed spec fn view(&self) -> HeaderView {
        HeaderView {
            title_source: opt_view(self.title_source),
            title: opt_string_view(self.title),
            anchor: opt_view(self.anchor),
            anchor_reftext: opt_view(self.anchor_reftext),
            attrlist: opt_al_view(self.attrlist),
        }
    }
}

impl BlockMetadata {
    /// This metadata as a model.
    pub open spec fn md_view(&self) -> MetadataView {
        MetadataView { source: self.source@, block_start: self.block_start@, header: self.header_view() }
    }

    /// The title, anchor and attribute list of this metadata, as a model.
    pub open spec fn header_view(&self) -> HeaderView {
        HeaderView {
            title_source: opt_view(self.title_source),
            title: opt_string_view(self.title),
            anchor: opt_view(self.anchor),
            anchor_reftext: opt_view(self.anchor_reftext),
            attrlist: opt_al_view(self.attrlist),
        }
    }

    /// A copy of the title, anchor and attribute list of this metadata.
    pub fn header(&self) -> (r: BlockHeader)
        ensures
            r@ == self.header_view(),
    {
        BlockHeader {
            title_source: copy_opt_span(&self.title_source),
            title: copy_opt_string(&self.title),
            anchor: copy_opt_span(&self.anchor),
            anchor_reftext: copy_opt_span(&self.anchor_reftext),
            attrlist: copy_opt_attrlist(&self.attrlist),
        }
    }
}

impl BlockHeader {
    /// A header with no title, anchor or attribute list.
    pub fn empty() -> (r: BlockHeader)
        ensures
            r@ == (HeaderView {
                title_source: None,
                title: None,
                anchor: None,
                anchor_reftext: None,
                attrlist: None,
            }),
    {
        BlockHeader { title_source: None, title: None, anchor: None, anchor_reftext: None, attrlist: None }
    }

    /// Returns the source text of the title, if any.
    pub fn title_source(&self) -> (r: Option<&Span>)
        ensures
            r is Some == self@.title_source is Some,
            r matches Some(s) ==> self@.title_source == Some(s@),
    {
        self.title_source.as_ref()
    }

    /// Returns the rendered title, if any.
    pub fn title(&self) -> (r: Option<&str>)
        ensures
            r is Some == self@.title is Some,
            r matches Some(s) ==> self@.title == Some(s@),
    {
        match &self.title {
            Some(t) => Some(t.as_str()),
            None => None,
        }
    }

    /// Returns the anchor, if any.
    pub fn anchor(&self) -> (r: Option<&Span>)
        ensures
            r is Some == self@.anchor is Some,
            r matches Some(s) ==> self@.anchor == Some(s@),
    {
        self.anchor.as_ref()
    }

    /// Returns the anchor's reference text, if any.
    pub fn anchor_reftext(&self) -> (r: Option<&Span>)
        ensures
            r is Some == self@.anchor_reftext is Some,
            r matches Some(s) ==> self@.anchor_reftext == Some(s@),
    {
        self.anchor_reftext.as_ref()
    }

    /// Returns the attribute list, if any.
    pub fn attrlist(&self) -> (r: Option<&Attrlist>)
        ensures
            r is Some == self@.attrlist is Some,
            r matches Some(a) ==> self@.attrlist == Some(a@),
    {
        self.attrlist.as_ref()
    }
}


impl BlockMetadata {
    /// Metadata with no title, anchor or attribute list, for a block that
    /// starts right at `source`.
    pub fn bare(source: &Span) -> (r: BlockMetadata)
        requires
            source@.wf(),
        ensures
            r.source@ == source@,
            r.block_start@ == source@,
            r.title_source is None,
            r.title is None,
            r.anchor is None,
            r.anchor_reftext is None,
            r.attrlist is None,
            r.wf(),
    {
        proof {
            crate::span::lemma_suffix_refl(source@);
        }
        BlockMetadata {
            title_source: None,
            title: None,
            anchor: None,
            anchor_reftext: None,
            attrlist: None,
            source: source.copy(),
            block_start: source.copy(),
        }
    }

    /// A copy of the anchor and attribute list of this metadata, without its
    /// title.
    pub fn header_without_title(&self) -> (r: BlockHeader)
        ensures
            r@ == (HeaderView { title_source: None, title: None, ..self.header_view() }),
    {
        BlockHeader {
            title_source: None,
            title: None,
            anchor: copy_opt_span(&self.anchor),
            anchor_reftext: copy_opt_span(&self.anchor_reftext),
            attrlist: copy_opt_attrlist(&self.attrlist),
        }
    }
}
} // verus!
