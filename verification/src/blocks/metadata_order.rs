use vstd::prelude::*;

use crate::attributes::element_attribute::ElementAttributeView;
use crate::blocks::metadata::{
    MdState, anchor_at, anchor_result, attrlist_at, lemma_md_loop_keeps, md_loop, metadata_of_source, title_at,
};
use crate::span::{
    Pos, SpanView, empty_lines_len, is_xml_name_seq, lemma_line_lens, lemma_pos_after_lines_commute,
    lemma_run_len_unique, lemma_skip_skip, lemma_trimmed_len_unique, line_after_len, line_len,
    normalized_line_len, not_char, trailing_ws_pred,
};

verus! {

/// The text of the metadata found so far, apart from where it stands in
/// the document: title, anchor, anchor reftext, and the attribute list's
/// attributes, anchor and source text.
pub open spec fn md_text(st: MdState) -> (
    Option<Seq<char>>,
    Option<Seq<char>>,
    Option<Seq<char>>,
    Option<(Seq<ElementAttributeView>, Option<Seq<char>>, Seq<char>)>,
) {
    (
        match st.0 {
            Some(t) => Some(t.data),
            None => None,
        },
        match st.1 {
            Some(a) => Some(a.data),
            None => None,
        },
        match st.2 {
            Some(r) => Some(r.data),
            None => None,
        },
        match st.3 {
            Some(al) => Some((al.attributes, al.anchor, al.source.data)),
            None => None,
        },
    )
}

/// `x` is one whole line: it ends with its only line feed.
pub open spec fn single_line(x: Seq<char>) -> bool {
    &&& x.len() > 0
    &&& x.last() == '\n'
    &&& forall|j: int| 0 <= j < x.len() - 1 ==> x[j] != '\n'
}

/// The line `x` on its own, at the start of a document.
pub open spec fn line_span(x: Seq<char>) -> SpanView {
    SpanView::at(x, (1, 1, 0))
}

/// The metadata state once the metadata line at the start of `bs` is read
/// in state `st`: a title where none was found yet, else an anchor that
/// [`anchor_result`] accepts, else an attribute list.
pub open spec fn md_step(bs: SpanView, st: MdState, attrs: Seq<(Seq<char>, Option<Seq<char>>)>) -> MdState {
    if st.0 is None && title_at(bs) is Some {
        (Some(title_at(bs).unwrap().0), st.1, st.2, st.3)
    } else if anchor_result(bs, st).1.len() < bs.len() {
        anchor_result(bs, st).0
    } else {
        (st.0, st.1, st.2, Some(attrlist_at(bs, attrs).unwrap().0))
    }
}

/// The kind of metadata line that `x` is: 0 a title, 1 an anchor, 2 an
/// attribute list, 3 none of these.
pub open spec fn md_line_kind(x: Seq<char>, attrs: Seq<(Seq<char>, Option<Seq<char>>)>) -> int {
    let ls = line_span(x);
    if title_at(ls) is Some {
        0
    } else if anchor_result(ls, (None, None, None, None)).1.len() < ls.len() {
        1
    } else if attrlist_at(ls, attrs) is Some {
        2
    } else {
        3
    }
}

/// The metadata slot that a line of kind `k` fills is still empty in `st`.
pub open spec fn slot_free(st: MdState, k: int) -> bool {
    if k == 0 {
        st.0 is None
    } else if k == 1 {
        st.1 is None
    } else {
        st.3 is None
    }
}

/// Where `s` starts with the whole line `x`, the lengths of its first line
/// are those of `x`.
proof fn lemma_first_line(s: Seq<char>, x: Seq<char>)
    requires
        single_line(x),
        x.len() <= s.len(),
        s.take(x.len() as int) == x,
    ensures
        line_len(s) == x.len() - 1,
        line_after_len(s) == x.len(),
        normalized_line_len(s) == normalized_line_len(x),
        normalized_line_len(s) < x.len(),
{
    lemma_line_lens(s);
    lemma_line_lens(x);
    assert(s[x.len() - 1] == x[x.len() - 1]);
    assert forall|j: int| 0 <= j < x.len() - 1 implies s[j] != '\n' by {
        assert(s[j] == x[j]);
    }
    assert(line_len(x) == x.len() - 1);
    assert(line_len(s) == x.len() - 1);
    assert(s.take(line_len(s)) =~= x.take(line_len(x)));
}

/// A metadata line at the start of `bs` is read as it would be on its own:
/// reading goes on right after it, and what it adds to the state has the
/// same text.
proof fn lemma_md_line(
    bs: SpanView,
    x: Seq<char>,
    st: MdState,
    attrs: Seq<(Seq<char>, Option<Seq<char>>)>,
)
    requires
        single_line(x),
        x.len() <= bs.len(),
        bs.data.take(x.len() as int) == x,
        md_line_kind(x, attrs) < 3,
        slot_free(st, md_line_kind(x, attrs)),
    ensures
        md_loop(bs, st, attrs).0 == md_loop(bs.skip(x.len() as int), md_step(bs, st, attrs), attrs).0,
        md_loop(bs, st, attrs).1 == md_loop(bs.skip(x.len() as int), md_step(bs, st, attrs), attrs).1,
        md_text(md_step(bs, st, attrs)) == md_text(md_step(line_span(x), st, attrs)),
{
    let ls = line_span(x);
    lemma_first_line(bs.data, x);
    assert(ls.data.take(x.len() as int) =~= x);
    lemma_first_line(ls.data, x);
    let n = normalized_line_len(x);
    assert forall|i: int| 0 <= i < x.len() implies bs.data[i] == x[i] by {
        assert(bs.data.take(x.len() as int)[i] == x[i]);
    }
    if n >= 1 {
        assert(bs.data.subrange(1, n) =~= x.subrange(1, n));
    }
    if n >= 2 {
        assert(bs.data.subrange(1, n - 1) =~= x.subrange(1, n - 1));
    }
    if n >= 4 {
        assert(bs.data.subrange(2, n - 2) =~= x.subrange(2, n - 2));
    }
    let k = md_line_kind(x, attrs);
    if k == 0 {
        assert(title_at(bs) is Some);
    } else if k == 1 {
        assert(title_at(bs) is None);
        assert(anchor_result(bs, st).1.len() < bs.len());
    } else {
        assert(title_at(bs) is None);
        assert(anchor_result(bs, st).1 == bs);
        assert(attrlist_at(bs, attrs) is Some);
    }
}

/// Reading metadata depends on the state only through its text: from two
/// states with the same text, reading stops at the same place and ends
/// with states of the same text.
proof fn lemma_md_loop_by_text(
    bs: SpanView,
    a: MdState,
    b: MdState,
    attrs: Seq<(Seq<char>, Option<Seq<char>>)>,
)
    requires
        md_text(a) == md_text(b),
    ensures
        md_loop(bs, a, attrs).0 == md_loop(bs, b, attrs).0,
        md_text(md_loop(bs, a, attrs).1) == md_text(md_loop(bs, b, attrs).1),
    decreases bs.len(),
{
    let title = title_at(bs);
    if a.0 is None && title is Some && title.unwrap().1.len() < bs.len() {
        lemma_md_loop_by_text(
            title.unwrap().1,
            (Some(title.unwrap().0), a.1, a.2, a.3),
            (Some(title.unwrap().0), b.1, b.2, b.3),
            attrs,
        );
    } else {
        let (sa, ba, _) = anchor_result(bs, a);
        let (sb, bb, _) = anchor_result(bs, b);
        if ba.len() < bs.len() {
            lemma_md_loop_by_text(ba, sa, sb, attrs);
        } else {
            let al = attrlist_at(bs, attrs);
            if a.3 is None && al is Some && al.unwrap().1.len() < bs.len() {
                lemma_md_loop_by_text(
                    al.unwrap().1,
                    (a.0, a.1, a.2, Some(al.unwrap().0)),
                    (b.0, b.1, b.2, Some(al.unwrap().0)),
                    attrs,
                );
            }
        }
    }
}

/// What reading one metadata line adds depends on the state only through
/// its text.
proof fn lemma_md_step_by_text(
    bs: SpanView,
    a: MdState,
    b: MdState,
    attrs: Seq<(Seq<char>, Option<Seq<char>>)>,
)
    requires
        md_text(a) == md_text(b),
    ensures
        md_text(md_step(bs, a, attrs)) == md_text(md_step(bs, b, attrs)),
{
}

/// Reading two metadata lines of different kinds, each on its own, in
/// either order gives metadata with the same text.
proof fn lemma_md_steps_commute(
    x: Seq<char>,
    y: Seq<char>,
    st: MdState,
    attrs: Seq<(Seq<char>, Option<Seq<char>>)>,
)
    requires
        md_line_kind(x, attrs) < 3,
        md_line_kind(y, attrs) < 3,
        md_line_kind(x, attrs) != md_line_kind(y, attrs),
        slot_free(st, md_line_kind(x, attrs)),
        slot_free(st, md_line_kind(y, attrs)),
    ensures
        md_text(md_step(line_span(y), md_step(line_span(x), st, attrs), attrs)) == md_text(
            md_step(line_span(x), md_step(line_span(y), st, attrs), attrs),
        ),
{
}

/// Two metadata lines of different kinds (a title, an anchor, an attribute
/// list) may come in either order: with the same text after them, reading
/// the metadata, from any state in which both kinds are still missing,
/// stops at the same place and finds metadata with the same text.
#[verifier::spinoff_prover]
#[verifier::rlimit(40)]
pub proof fn lemma_metadata_lines_commute(
    p: Pos,
    x: Seq<char>,
    y: Seq<char>,
    rest: Seq<char>,
    st: MdState,
    attrs: Seq<(Seq<char>, Option<Seq<char>>)>,
)
    requires
        single_line(x),
        single_line(y),
        md_line_kind(x, attrs) < 3,
        md_line_kind(y, attrs) < 3,
        md_line_kind(x, attrs) != md_line_kind(y, attrs),
        slot_free(st, md_line_kind(x, attrs)),
        slot_free(st, md_line_kind(y, attrs)),
    ensures
        md_loop(SpanView::at(x + y + rest, p), st, attrs).0 == md_loop(SpanView::at(y + x + rest, p), st, attrs).0,
        md_text(md_loop(SpanView::at(x + y + rest, p), st, attrs).1) == md_text(
            md_loop(SpanView::at(y + x + rest, p), st, attrs).1,
        ),
{
    let s1 = SpanView::at(x + y + rest, p);
    let s2 = SpanView::at(y + x + rest, p);
    let kx = md_line_kind(x, attrs);
    let ky = md_line_kind(y, attrs);
    // x then y
    assert(s1.data.take(x.len() as int) =~= x);
    lemma_md_line(s1, x, st, attrs);
    let a1 = md_step(s1, st, attrs);
    let t1 = s1.skip(x.len() as int);
    assert(t1.data =~= y + rest);
    assert(t1.data.take(y.len() as int) =~= y);
    assert(slot_free(a1, ky));
    lemma_md_line(t1, y, a1, attrs);
    let b1 = md_step(t1, a1, attrs);
    lemma_skip_skip(s1, x.len() as int, y.len() as int);
    // y then x
    assert(s2.data.take(y.len() as int) =~= y);
    lemma_md_line(s2, y, st, attrs);
    let a2 = md_step(s2, st, attrs);
    let t2 = s2.skip(y.len() as int);
    assert(t2.data =~= x + rest);
    assert(t2.data.take(x.len() as int) =~= x);
    assert(slot_free(a2, kx));
    lemma_md_line(t2, x, a2, attrs);
    let b2 = md_step(t2, a2, attrs);
    lemma_skip_skip(s2, y.len() as int, x.len() as int);
    // both end at the same place
    let k: int = (x.len() + y.len()) as int;
    assert(s1.data.take(k) =~= x + y);
    assert(s2.data.take(k) =~= y + x);
    lemma_pos_after_lines_commute(p, x, y);
    assert(s1.data.skip(k) =~= s2.data.skip(k));
    assert(s1.skip(k) == s2.skip(k));
    lemma_md_step_by_text(line_span(y), a1, md_step(line_span(x), st, attrs), attrs);
    lemma_md_step_by_text(line_span(x), a2, md_step(line_span(y), st, attrs), attrs);
    lemma_md_steps_commute(x, y, st, attrs);
    assert(md_text(b1) == md_text(b2));
    lemma_md_loop_by_text(s1.skip(k), b1, b2, attrs);
}

/// Reading a metadata line depends only on that line: two inputs that start
/// with the same line at the same place move to the same state, and go on
/// at the same place in what follows it.
proof fn lemma_md_step_same_line(
    a: SpanView,
    b: SpanView,
    x: Seq<char>,
    st: MdState,
    attrs: Seq<(Seq<char>, Option<Seq<char>>)>,
)
    requires
        single_line(x),
        x.len() <= a.len(),
        x.len() <= b.len(),
        a.data.take(x.len() as int) == x,
        b.data.take(x.len() as int) == x,
        a.pos() == b.pos(),
    ensures
        md_step(a, st, attrs) == md_step(b, st, attrs),
        a.skip(x.len() as int).pos() == b.skip(x.len() as int).pos(),
{
    lemma_first_line(a.data, x);
    lemma_first_line(b.data, x);
    let n = normalized_line_len(x);
    assert forall|i: int| 0 <= i < x.len() implies #[trigger] a.data[i] == b.data[i] by {
        assert(a.data.take(x.len() as int)[i] == x[i]);
        assert(b.data.take(x.len() as int)[i] == x[i]);
    }
    assert(a.data.take(x.len() as int) =~= b.data.take(x.len() as int));
    assert(a.data.take(1) =~= b.data.take(1));
    if n >= 1 {
        assert(a.data.subrange(1, n) =~= b.data.subrange(1, n));
    }
    if n >= 2 {
        assert(a.data.subrange(1, n - 1) =~= b.data.subrange(1, n - 1));
    }
    if n >= 4 {
        assert(a.data.take(2) =~= b.data.take(2));
        assert(a.data.subrange(2, n - 2) =~= b.data.subrange(2, n - 2));
    }
    assert(title_at(a) is Some <==> title_at(b) is Some);
    if title_at(a) is Some {
        assert(title_at(a).unwrap().0 == title_at(b).unwrap().0);
    }
    assert(anchor_at(a).0 is Some <==> anchor_at(b).0 is Some);
    if anchor_at(a).0 is Some {
        assert(anchor_at(a).0.unwrap().0 == anchor_at(b).0.unwrap().0);
    }
    assert(anchor_result(a, st).0 == anchor_result(b, st).0);
    assert(anchor_result(a, st).1.len() < a.len() <==> anchor_result(b, st).1.len() < b.len());
    assert(attrlist_at(a, attrs) is Some <==> attrlist_at(b, attrs) is Some);
    if attrlist_at(a, attrs) is Some {
        assert(attrlist_at(a, attrs).unwrap().0 == attrlist_at(b, attrs).unwrap().0);
    }
}

/// The second and third of three metadata lines of different kinds may be
/// swapped: reading the metadata stops at the same place and finds
/// metadata with the same text.
proof fn lemma_metadata_later_lines_commute(
    p: Pos,
    w: Seq<char>,
    x: Seq<char>,
    y: Seq<char>,
    rest: Seq<char>,
    attrs: Seq<(Seq<char>, Option<Seq<char>>)>,
)
    requires
        single_line(w),
        single_line(x),
        single_line(y),
        md_line_kind(w, attrs) < 3,
        md_line_kind(x, attrs) < 3,
        md_line_kind(y, attrs) < 3,
        md_line_kind(w, attrs) != md_line_kind(x, attrs),
        md_line_kind(w, attrs) != md_line_kind(y, attrs),
        md_line_kind(x, attrs) != md_line_kind(y, attrs),
    ensures
        loop_same(w + x + y + rest, w + y + x + rest, p, attrs),
{
    let e: MdState = (None, None, None, None);
    let s1 = SpanView::at(w + x + y + rest, p);
    let s2 = SpanView::at(w + y + x + rest, p);
    assert(s1.data.take(w.len() as int) =~= w);
    assert(s2.data.take(w.len() as int) =~= w);
    lemma_md_line(s1, w, e, attrs);
    lemma_md_line(s2, w, e, attrs);
    lemma_md_step_same_line(s1, s2, w, e, attrs);
    let st = md_step(s1, e, attrs);
    let t1 = s1.skip(w.len() as int);
    let t2 = s2.skip(w.len() as int);
    assert(t1.data =~= x + y + rest);
    assert(t2.data =~= y + x + rest);
    assert(t1 == SpanView::at(x + y + rest, t1.pos()));
    assert(t2 == SpanView::at(y + x + rest, t1.pos()));
    assert(line_span(w).data.take(w.len() as int) =~= w);
    lemma_md_line(line_span(w), w, e, attrs);
    assert(slot_free(st, md_line_kind(x, attrs)));
    assert(slot_free(st, md_line_kind(y, attrs)));
    lemma_metadata_lines_commute(t1.pos(), x, y, rest, st, attrs);
}

/// Reading metadata from the start of `a` and from the start of `b`, both
/// at `p`, stops at the same place and finds metadata with the same text.
pub open spec fn loop_same(a: Seq<char>, b: Seq<char>, p: Pos, attrs: Seq<(Seq<char>, Option<Seq<char>>)>) -> bool {
    let r1 = md_loop(SpanView::at(a, p), (None, None, None, None), attrs);
    let r2 = md_loop(SpanView::at(b, p), (None, None, None, None), attrs);
    &&& r1.0 == r2.0
    &&& md_text(r1.1) == md_text(r2.1)
}

/// The metadata of a block at the start of `a` and that of one at the
/// start of `b`, both at `p`: the block starts at the same place, and the
/// title, anchor, anchor reftext and attribute list have the same text.
pub open spec fn same_metadata(a: Seq<char>, b: Seq<char>, p: Pos, attrs: Seq<(Seq<char>, Option<Seq<char>>)>) -> bool {
    let m1 = metadata_of_source(SpanView::at(a, p), attrs);
    let m2 = metadata_of_source(SpanView::at(b, p), attrs);
    &&& m1.block_start == m2.block_start
    &&& m1.header.title == m2.header.title
    &&& md_text((m1.header.title_source, m1.header.anchor, m1.header.anchor_reftext, m1.header.attrlist))
        == md_text((m2.header.title_source, m2.header.anchor, m2.header.anchor_reftext, m2.header.attrlist))
}

/// Where `s` starts with a metadata line, reading its metadata starts right
/// at `s`: no blank line is skipped.
proof fn lemma_no_blank_start(
    p: Pos,
    s: Seq<char>,
    x: Seq<char>,
    attrs: Seq<(Seq<char>, Option<Seq<char>>)>,
)
    requires
        single_line(x),
        md_line_kind(x, attrs) < 3,
        x.len() <= s.len(),
        s.take(x.len() as int) == x,
    ensures
        metadata_of_source(SpanView::at(s, p), attrs).source == SpanView::at(s, p),
{
    lemma_first_line(s, x);
    assert(line_span(x).data.take(x.len() as int) =~= x);
    lemma_first_line(line_span(x).data, x);
    assert(empty_lines_len(s) == 0);
    assert(s.skip(0) =~= s);
    assert(s.take(0) =~= Seq::<char>::empty());
    assert(SpanView::at(s, p).skip(0) == SpanView::at(s, p));
}

/// Where reading metadata from `a` and from `b` agrees, and each starts
/// with a metadata line, their block metadata agrees.
proof fn lemma_same_from_loop(
    p: Pos,
    a: Seq<char>,
    b: Seq<char>,
    xa: Seq<char>,
    xb: Seq<char>,
    attrs: Seq<(Seq<char>, Option<Seq<char>>)>,
)
    requires
        loop_same(a, b, p, attrs),
        single_line(xa),
        single_line(xb),
        md_line_kind(xa, attrs) < 3,
        md_line_kind(xb, attrs) < 3,
        xa.len() <= a.len(),
        xb.len() <= b.len(),
        a.take(xa.len() as int) == xa,
        b.take(xb.len() as int) == xb,
    ensures
        same_metadata(a, b, p, attrs),
{
    lemma_no_blank_start(p, a, xa, attrs);
    lemma_no_blank_start(p, b, xb, attrs);
}

/// Block metadata may come in any order: where a block is preceded by a
/// title line, an anchor line and an attribute list line, in whatever
/// order, the block starts at the same place and its title, anchor, anchor
/// reftext and attribute list have the same text.
#[verifier::rlimit(50)]
pub proof fn lemma_metadata_order(
    p: Pos,
    x: Seq<char>,
    y: Seq<char>,
    z: Seq<char>,
    rest: Seq<char>,
    attrs: Seq<(Seq<char>, Option<Seq<char>>)>,
)
    requires
        single_line(x),
        single_line(y),
        single_line(z),
        md_line_kind(x, attrs) < 3,
        md_line_kind(y, attrs) < 3,
        md_line_kind(z, attrs) < 3,
        md_line_kind(x, attrs) != md_line_kind(y, attrs),
        md_line_kind(x, attrs) != md_line_kind(z, attrs),
        md_line_kind(y, attrs) != md_line_kind(z, attrs),
    ensures
        same_metadata(x + y + z + rest, y + x + z + rest, p, attrs),
        same_metadata(x + y + z + rest, x + z + y + rest, p, attrs),
        same_metadata(x + y + z + rest, y + z + x + rest, p, attrs),
        same_metadata(x + y + z + rest, z + x + y + rest, p, attrs),
        same_metadata(x + y + z + rest, z + y + x + rest, p, attrs),
{
    let e: MdState = (None, None, None, None);
    let p1 = x + y + z + rest;
    let p2 = y + x + z + rest;
    let p3 = x + z + y + rest;
    let p4 = y + z + x + rest;
    let p5 = z + x + y + rest;
    let p6 = z + y + x + rest;
    assert(p1 =~= x + y + (z + rest));
    assert(p2 =~= y + x + (z + rest));
    lemma_metadata_lines_commute(p, x, y, z + rest, e, attrs);
    assert(loop_same(p1, p2, p, attrs));
    assert(p3 =~= x + z + (y + rest));
    assert(p5 =~= z + x + (y + rest));
    lemma_metadata_lines_commute(p, x, z, y + rest, e, attrs);
    assert(loop_same(p3, p5, p, attrs));
    lemma_metadata_later_lines_commute(p, x, y, z, rest, attrs);
    assert(loop_same(p1, p3, p, attrs));
    lemma_metadata_later_lines_commute(p, y, x, z, rest, attrs);
    assert(loop_same(p2, p4, p, attrs));
    lemma_metadata_later_lines_commute(p, z, x, y, rest, attrs);
    assert(loop_same(p5, p6, p, attrs));
    assert(p1.take(x.len() as int) =~= x);
    assert(p2.take(y.len() as int) =~= y);
    assert(p3.take(x.len() as int) =~= x);
    assert(p4.take(y.len() as int) =~= y);
    assert(p5.take(z.len() as int) =~= z);
    assert(p6.take(z.len() as int) =~= z);
    lemma_same_from_loop(p, p1, p2, x, y, attrs);
    lemma_same_from_loop(p, p1, p3, x, x, attrs);
    lemma_same_from_loop(p, p1, p4, x, y, attrs);
    lemma_same_from_loop(p, p1, p5, x, z, attrs);
    lemma_same_from_loop(p, p1, p6, x, z, attrs);
}

/// The anchor line `[[id,text]]` (or `[[id]]`, where `text` is empty)
/// followed by `rest`.
pub open spec fn anchor_line(id: Seq<char>, text: Seq<char>) -> Seq<char> {
    if text.len() == 0 {
        "[["@ + id + "]]\n"@
    } else {
        "[["@ + id + ","@ + text + "]]\n"@
    }
}

/// The anchor line is one whole line whose first line, trimmed, is all of
/// it but its line feed.
proof fn lemma_anchor_line(id: Seq<char>, text: Seq<char>)
    requires
        id.len() > 0,
        !id.contains('\n'),
        !text.contains('\n'),
    ensures
        single_line(anchor_line(id, text)),
        normalized_line_len(anchor_line(id, text)) == anchor_line(id, text).len() - 1,
{
    reveal_strlit("[[");
    reveal_strlit("]]\n");
    reveal_strlit(",");
    let x = anchor_line(id, text);
    let head: Seq<char> = if text.len() == 0 { "[["@ + id } else { "[["@ + id + ","@ + text };
    assert(x =~= head + "]]\n"@);
    assert forall|j: int| 0 <= j < x.len() - 1 implies x[j] != '\n' by {
        if j >= head.len() {
        } else if j < 2 {
        } else if j < 2 + id.len() {
            assert(x[j] == id[j - 2]);
        } else if j == 2 + id.len() {
        } else {
            assert(x[j] == text[j - 3 - id.len()]);
        }
    }
    lemma_line_lens(x);
    assert(line_len(x) == x.len() - 1) by {
        lemma_run_len_unique(x, not_char('\n'), x.len() - 1);
    }
    let t = x.take(x.len() - 1);
    assert(t[t.len() - 1] == ']');
    lemma_trimmed_len_unique(t, trailing_ws_pred(), t.len() as int);
}

/// A block anchor line `[[id,text]]` with a valid ID gives the block the
/// anchor `id` and the reference text `text`; `[[id]]` gives it the anchor
/// `id` and no reference text.
pub proof fn lemma_anchor_reftext(
    p: Pos,
    id: Seq<char>,
    text: Seq<char>,
    rest: Seq<char>,
    attrs: Seq<(Seq<char>, Option<Seq<char>>)>,
)
    requires
        is_xml_name_seq(id),
        !id.contains(','),
        !id.contains('\n'),
        !text.contains('\n'),
    ensures
        ({
            let md = metadata_of_source(SpanView::at(anchor_line(id, text) + rest, p), attrs);
            &&& md.header.anchor matches Some(a) && a.data == id
            &&& if text.len() == 0 {
                md.header.anchor_reftext is None
            } else {
                md.header.anchor_reftext matches Some(r) && r.data == text
            }
        }),
{
    reveal_strlit("[[");
    reveal_strlit("]]\n");
    reveal_strlit(",");
    let x = anchor_line(id, text);
    let sd = x + rest;
    let s = SpanView::at(sd, p);
    lemma_anchor_line(id, text);
    assert(sd.take(x.len() as int) =~= x);
    lemma_first_line(sd, x);
    let n = normalized_line_len(sd);
    assert forall|i: int| 0 <= i < x.len() implies #[trigger] sd[i] == x[i] by {}
    assert(empty_lines_len(sd) == 0);
    assert(sd.skip(0) =~= sd);
    assert(sd.take(0) =~= Seq::<char>::empty());
    assert(s.skip(0) == s);
    let e: MdState = (None, None, None, None);
    assert(title_at(s) is None);
    let item = s.sub(2, n - 2);
    assert(n == x.len() - 1);
    assert(anchor_at(s).0 == Some((item, s.skip(line_after_len(sd)))));
    if text.len() == 0 {
        assert(item.data =~= id);
        assert forall|j: int| 0 <= j < item.len() implies not_char(',')(#[trigger] item.data[j]) by {
            assert(item.data[j] == id[j]);
        }
        lemma_run_len_unique(item.data, not_char(','), item.len() as int);
    } else {
        assert(item.data =~= id + ","@ + text);
        assert forall|j: int| 0 <= j < id.len() implies not_char(',')(#[trigger] item.data[j]) by {
            assert(item.data[j] == id[j]);
        }
        lemma_run_len_unique(item.data, not_char(','), id.len() as int);
        assert(item.sub(0, id.len() as int).data =~= id);
        assert(item.skip((id.len() + 1) as int).data =~= text);
    }
    let (st1, bs1, _) = anchor_result(s, e);
    assert(bs1.len() < s.len());
    assert(st1.1 is Some);
    lemma_md_loop_keeps(bs1, st1, attrs);
}

} // verus!
