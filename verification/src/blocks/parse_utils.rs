use vstd::prelude::*;

use crate::blocks::block::{Block, block_shape, block_warnings};
use crate::blocks::layout::{lemma_parser_kept_refl, lemma_parser_kept_trans, parser_kept};
use crate::blocks::layout::past_blank_lines;
use crate::blocks::section_title::{next_title_level, peer_or_ancestor_section};
use crate::parser::{ParserView, RefType};
use crate::parser::Parser;
use crate::span::{
    normalized_line_len,
    MatchedItem, Span, SpanView, lemma_empty_lines_len, lemma_suffix_refl, lemma_suffix_trans,
};
use crate::warnings::{Warning, WarningType, warning_views};

verus! {

/// A section title at `level` or above starts the block at `source`.
pub open spec fn title_stops(source: SpanView, level: usize) -> bool {
    next_title_level(source).0 matches Some(f) && f <= level
}

/// Where block `i` of a run read from `source` starts: past the blank lines
/// after the previous block (which ends at `afters[i - 1]`).
pub open spec fn run_start(source: SpanView, afters: Seq<SpanView>, i: int) -> SpanView {
    past_blank_lines(
        if i == 0 {
            source
        } else {
            afters[i - 1]
        },
    )
}

/// Block `i` of a run was read where it starts, as [`Block::parse`] reads
/// it (with `ps[i]` the parser's state afterwards), apart from the blocks
/// nested in it, and no section title at
/// `level` or above stood there.
pub open spec fn run_step(
    source: SpanView,
    attrs: Seq<(Seq<char>, Option<Seq<char>>)>,
    level: Option<usize>,
    blocks: Seq<Block>,
    afters: Seq<SpanView>,
    ps: Seq<ParserView>,
    i: int,
) -> bool {
    let start = run_start(source, afters, i);
    &&& start.len() > 0
    &&& (level matches Some(l) ==> !title_stops(start, l))
    &&& block_shape(start, attrs, ps[i], Some((blocks[i], afters[i])))
}

/// `blocks` were read one after another from `source`, block `i` ending at
/// `afters[i]`, and reading stopped at `end`: at the end of the input, at a
/// section title at `level` or above, or where no block could be read.
pub open spec fn blocks_run(
    source: SpanView,
    attrs: Seq<(Seq<char>, Option<Seq<char>>)>,
    level: Option<usize>,
    blocks: Seq<Block>,
    afters: Seq<SpanView>,
    ps: Seq<ParserView>,
    end: SpanView,
) -> bool {
    &&& afters.len() == blocks.len()
    &&& ps.len() == blocks.len()
    &&& forall|i: int| 0 <= i < blocks.len() ==> #[trigger] run_step(source, attrs, level, blocks, afters, ps, i)
    &&& end == run_start(source, afters, blocks.len() as int)
    &&& {
        ||| end.len() == 0
        ||| level matches Some(l) && title_stops(end, l)
        ||| exists|p: ParserView| block_shape(end, attrs, p, None)
    }
}

/// What looking, at `start`, for a section title that ends the section
/// being read does, where the latest section title seen was at level
/// `mrl`: the level of the latest title afterwards, and the warnings (those
/// of the title line, then one where the title skips a level).
pub open spec fn level_check(start: SpanView, mrl: usize) -> (usize, Seq<(SpanView, WarningType)>) {
    let (found, w) = next_title_level(start);
    let line = start.sub(0, normalized_line_len(start.data));
    match found {
        Some(f) => (
            f as usize,
            w + if f > mrl + 1 {
                seq![(line, WarningType::SectionHeadingLevelSkipped(mrl, f as usize))]
            } else {
                Seq::empty()
            },
        ),
        None => (mrl, w),
    }
}

/// The warnings of that look, made only where a section is being read
/// (`level` is given).
pub open spec fn check_warnings(level: Option<usize>, start: SpanView, mrl: usize) -> Seq<(SpanView, WarningType)> {
    if level is Some {
        level_check(start, mrl).1
    } else {
        Seq::empty()
    }
}

/// The level of the latest section title seen after that look.
pub open spec fn next_mrl(level: Option<usize>, start: SpanView, mrl: usize) -> usize {
    if level is Some {
        level_check(start, mrl).0
    } else {
        mrl
    }
}

/// The catalog of IDs before block `i` of a run, where it was `c0` before
/// the run and `ps[i]` is the parser's state after block `i`.
pub open spec fn catalog_before(
    c0: Seq<(Seq<char>, Option<Seq<char>>, RefType)>,
    ps: Seq<ParserView>,
    i: int,
) -> Seq<(Seq<char>, Option<Seq<char>>, RefType)> {
    if i == 0 {
        c0
    } else {
        ps[i - 1].catalog
    }
}

/// `w` are the warnings of block `i` of a run: those of the look for a
/// section title, then those that reading the block gives, as
/// [`block_warnings`] says; `mrls[i]` is the level of the latest section
/// title seen before it.
#[verifier::opaque]
pub open spec fn step_warnings(
    source: SpanView,
    attrs: Seq<(Seq<char>, Option<Seq<char>>)>,
    c0: Seq<(Seq<char>, Option<Seq<char>>, RefType)>,
    level: Option<usize>,
    blocks: Seq<Block>,
    afters: Seq<SpanView>,
    ps: Seq<ParserView>,
    mrls: Seq<usize>,
    w: Seq<(SpanView, WarningType)>,
    i: int,
) -> bool {
    let start = run_start(source, afters, i);
    let cw = check_warnings(level, start, mrls[i]);
    &&& mrls[i + 1] == next_mrl(level, start, mrls[i])
    &&& cw.len() <= w.len()
    &&& w.take(cw.len() as int) == cw
    &&& block_warnings(start, attrs, catalog_before(c0, ps, i), Some((blocks[i], afters[i])), w.skip(cw.len() as int))
}

/// `w` are the warnings of the attempt that ended a run at `end`: none at
/// the end of the input; else those of the look for a section title, then,
/// unless a section title at `level` or above stood there, those of
/// finding no block there.
#[verifier::opaque]
pub open spec fn end_warnings(
    end: SpanView,
    attrs: Seq<(Seq<char>, Option<Seq<char>>)>,
    catalog: Seq<(Seq<char>, Option<Seq<char>>, RefType)>,
    level: Option<usize>,
    mrl: usize,
    w: Seq<(SpanView, WarningType)>,
) -> bool {
    let cw = check_warnings(level, end, mrl);
    if end.len() == 0 {
        w.len() == 0
    } else {
        &&& cw.len() <= w.len()
        &&& w.take(cw.len() as int) == cw
        &&& if level matches Some(l) && title_stops(end, l) {
            w.len() == cw.len()
        } else {
            block_warnings(end, attrs, catalog, None, w.skip(cw.len() as int))
        }
    }
}

/// The warnings of a run, attempt by attempt (`ws`), with the levels of the
/// latest section titles seen (`mrls`, from `mrl0`).
pub open spec fn run_warnings_by(
    source: SpanView,
    attrs: Seq<(Seq<char>, Option<Seq<char>>)>,
    c0: Seq<(Seq<char>, Option<Seq<char>>, RefType)>,
    level: Option<usize>,
    mrl0: usize,
    blocks: Seq<Block>,
    afters: Seq<SpanView>,
    ps: Seq<ParserView>,
    end: SpanView,
    ws: Seq<Seq<(SpanView, WarningType)>>,
    mrls: Seq<usize>,
) -> bool {
    let n = blocks.len() as int;
    &&& ws.len() == n + 1
    &&& mrls.len() == n + 1
    &&& mrls[0] == mrl0
    &&& forall|i: int|
        0 <= i < n ==> #[trigger] step_warnings(source, attrs, c0, level, blocks, afters, ps, mrls, ws[i], i)
    &&& end_warnings(end, attrs, catalog_before(c0, ps, n), level, mrls[n], ws[n])
}

/// `w` are the warnings of the run of `blocks` read from `source` (as
/// [`blocks_run`] says, with `afters` and `ps`), one attempt after
/// another, where the catalog was `c0` before the run and `mrl0` is the
/// level of the latest section title seen.
pub open spec fn run_warnings(
    source: SpanView,
    attrs: Seq<(Seq<char>, Option<Seq<char>>)>,
    c0: Seq<(Seq<char>, Option<Seq<char>>, RefType)>,
    level: Option<usize>,
    mrl0: usize,
    blocks: Seq<Block>,
    afters: Seq<SpanView>,
    ps: Seq<ParserView>,
    end: SpanView,
    w: Seq<(SpanView, WarningType)>,
) -> bool {
    exists|ws: Seq<Seq<(SpanView, WarningType)>>, mrls: Seq<usize>|
        #[trigger] run_warnings_by(source, attrs, c0, level, mrl0, blocks, afters, ps, end, ws, mrls) && w
            == ws.flatten()
}

/// What holds of block `i` of a run still holds once one more block is
/// read.
proof fn lemma_step_frame(
    source: SpanView,
    attrs: Seq<(Seq<char>, Option<Seq<char>>)>,
    c0: Seq<(Seq<char>, Option<Seq<char>>, RefType)>,
    level: Option<usize>,
    blocks: Seq<Block>,
    afters: Seq<SpanView>,
    ps: Seq<ParserView>,
    mrls: Seq<usize>,
    w: Seq<(SpanView, WarningType)>,
    i: int,
    b: Block,
    a: SpanView,
    p: ParserView,
    m: usize,
)
    requires
        0 <= i < blocks.len(),
        afters.len() == blocks.len(),
        ps.len() == blocks.len(),
        mrls.len() == blocks.len() + 1,
        step_warnings(source, attrs, c0, level, blocks, afters, ps, mrls, w, i),
    ensures
        step_warnings(source, attrs, c0, level, blocks.push(b), afters.push(a), ps.push(p), mrls.push(m), w, i),
{
    reveal(step_warnings);
    assert(run_start(source, afters.push(a), i) == run_start(source, afters, i));
    assert(catalog_before(c0, ps.push(p), i) == catalog_before(c0, ps, i));
}

/// A run read so far, with one more block read where it ends, is a run.
proof fn lemma_run_extend(
    source: SpanView,
    attrs: Seq<(Seq<char>, Option<Seq<char>>)>,
    c0: Seq<(Seq<char>, Option<Seq<char>>, RefType)>,
    level: Option<usize>,
    blocks: Seq<Block>,
    afters: Seq<SpanView>,
    ps: Seq<ParserView>,
    ws: Seq<Seq<(SpanView, WarningType)>>,
    mrls: Seq<usize>,
    b: Block,
    a: SpanView,
    p: ParserView,
    w: Seq<(SpanView, WarningType)>,
    m: usize,
)
    requires
        afters.len() == blocks.len(),
        ps.len() == blocks.len(),
        ws.len() == blocks.len(),
        mrls.len() == blocks.len() + 1,
        forall|i: int| 0 <= i < blocks.len() ==> #[trigger] run_step(source, attrs, level, blocks, afters, ps, i),
        forall|i: int|
            0 <= i < blocks.len() ==> #[trigger] step_warnings(source, attrs, c0, level, blocks, afters, ps, mrls, ws[i], i),
        run_step(source, attrs, level, blocks.push(b), afters.push(a), ps.push(p), blocks.len() as int),
        step_warnings(
            source,
            attrs,
            c0,
            level,
            blocks.push(b),
            afters.push(a),
            ps.push(p),
            mrls.push(m),
            w,
            blocks.len() as int,
        ),
    ensures
        forall|i: int|
            0 <= i < blocks.len() + 1 ==> #[trigger] run_step(
                source,
                attrs,
                level,
                blocks.push(b),
                afters.push(a),
                ps.push(p),
                i,
            ),
        forall|i: int|
            0 <= i < blocks.len() + 1 ==> #[trigger] step_warnings(
                source,
                attrs,
                c0,
                level,
                blocks.push(b),
                afters.push(a),
                ps.push(p),
                mrls.push(m),
                ws.push(w)[i],
                i,
            ),
{
    let n = blocks.len() as int;
    assert forall|i: int| 0 <= i < n + 1 implies #[trigger] run_step(
        source,
        attrs,
        level,
        blocks.push(b),
        afters.push(a),
        ps.push(p),
        i,
    ) by {
        if i < n {
            assert(run_step(source, attrs, level, blocks, afters, ps, i));
            assert(run_start(source, afters.push(a), i) == run_start(source, afters, i));
        }
    }
    assert forall|i: int| 0 <= i < n + 1 implies #[trigger] step_warnings(
        source,
        attrs,
        c0,
        level,
        blocks.push(b),
        afters.push(a),
        ps.push(p),
        mrls.push(m),
        ws.push(w)[i],
        i,
    ) by {
        if i < n {
            assert(ws.push(w)[i] == ws[i]);
            assert(step_warnings(source, attrs, c0, level, blocks, afters, ps, mrls, ws[i], i));
            lemma_step_frame(source, attrs, c0, level, blocks, afters, ps, mrls, ws[i], i, b, a, p, m);
        }
    }
}

/// Parses blocks from `source` until the input ends, a block cannot be
/// parsed, or (when `section_level` is given) a section title at that level
/// or above starts: a peer or an ancestor of the section being read.
///
/// `most_recent_level` tracks the level of the last section title seen, for
/// the warning about skipped levels. Warnings go to `warnings`.
#[verifier::rlimit(100)]
#[verifier::spinoff_prover]
pub fn parse_blocks_until(
    source: &Span,
    section_level: Option<usize>,
    most_recent_level: &mut usize,
    parser: &mut Parser,
    warnings: &mut Vec<Warning>,
) -> (r: MatchedItem<Vec<Block>>)
    requires
        source@.wf(),
        *old(most_recent_level) <= 5,
    ensures
        parser_kept(old(parser)@, final(parser)@),
        r.after@.wf(),
        r.after@.is_suffix_of(source@),
        *final(most_recent_level) <= 5,
        old(warnings)@.len() <= final(warnings)@.len(),
        warning_views(final(warnings)@).take(old(warnings)@.len() as int) == warning_views(old(warnings)@),
        exists|afters: Seq<SpanView>, ps: Seq<ParserView>|
            #[trigger] blocks_run(source@, old(parser)@.attributes, section_level, r.item@, afters, ps, r.after@)
                && run_warnings(
                source@,
                old(parser)@.attributes,
                old(parser)@.catalog,
                section_level,
                *old(most_recent_level),
                r.item@,
                afters,
                ps,
                r.after@,
                warning_views(final(warnings)@).skip(old(warnings)@.len() as int),
            ) && final(parser)@.catalog == catalog_before(old(parser)@.catalog, ps, r.item@.len() as int),
    decreases source@.len(), 10int,
{
    proof {
        lemma_parser_kept_refl(parser@);
        lemma_suffix_refl(source@);
    }
    let mut blocks: Vec<Block> = Vec::new();
    let mut next = source.copy();
    let ghost attrs = parser@.attributes;
    let ghost c0 = parser@.catalog;
    let ghost w_old = warning_views(warnings@);
    let ghost mrl0 = *most_recent_level;
    let ghost mut afters: Seq<SpanView> = Seq::empty();
    let ghost mut ps: Seq<ParserView> = Seq::empty();
    let ghost mut ws: Seq<Seq<(SpanView, WarningType)>> = Seq::empty();
    let ghost mut mrls: Seq<usize> = seq![mrl0];
    assert(ws.flatten() =~= Seq::<(SpanView, WarningType)>::empty());
    assert(warning_views(warnings@) =~= w_old + ws.flatten());
    loop
        invariant
            attrs == old(parser)@.attributes,
            c0 == old(parser)@.catalog,
            w_old == warning_views(old(warnings)@),
            mrl0 == *old(most_recent_level),
            afters.len() == blocks@.len(),
            ps.len() == blocks@.len(),
            ws.len() == blocks@.len(),
            mrls.len() == blocks@.len() + 1,
            mrls[0] == mrl0,
            mrls[blocks@.len() as int] == *most_recent_level,
            forall|i: int|
                0 <= i < blocks@.len() ==> #[trigger] run_step(source@, attrs, section_level, blocks@, afters, ps, i),
            forall|i: int|
                0 <= i < blocks@.len() ==> #[trigger] step_warnings(
                    source@,
                    attrs,
                    c0,
                    section_level,
                    blocks@,
                    afters,
                    ps,
                    mrls,
                    ws[i],
                    i,
                ),
            warning_views(warnings@) == w_old + ws.flatten(),
            parser@.catalog == catalog_before(c0, ps, blocks@.len() as int),
            next@ == (if blocks@.len() == 0 {
                source@
            } else {
                afters[blocks@.len() - 1]
            }),
            source@.wf(),
            next@.wf(),
            next@.is_suffix_of(source@),
            parser_kept(old(parser)@, parser@),
            *most_recent_level <= 5,
        decreases next@.len(),
    {
        proof {
            crate::blocks::layout::lemma_past_blank_lines(next@, source@);
            lemma_empty_lines_len(next@.data);
        }
        let cur = next.discard_empty_lines();
        let ghost n = blocks@.len() as int;
        proof {
            assert(cur@ == run_start(source@, afters, n));
        }
        if cur.is_empty() {
            let r = MatchedItem { item: blocks, after: cur };
            proof {
                let ws2 = ws.push(Seq::empty());
                ws.lemma_flatten_push(Seq::empty());
                assert(ws2.flatten() =~= ws.flatten());
                assert(end_warnings(r.after@, attrs, catalog_before(c0, ps, n), section_level, mrls[n], ws2[n])) by {
                    reveal(end_warnings);
                }
                assert(warning_views(warnings@).skip(w_old.len() as int) =~= ws2.flatten());
                assert forall|i: int| 0 <= i < n implies #[trigger] step_warnings(
                    source@, attrs, c0, section_level, r.item@, afters, ps, mrls, ws2[i], i) by {
                    assert(ws2[i] == ws[i]);
                }
                assert(run_warnings_by(source@, attrs, c0, section_level, mrl0, r.item@, afters, ps, r.after@, ws2, mrls));
                assert(blocks_run(source@, old(parser)@.attributes, section_level, r.item@, afters, ps, r.after@));
                assert(warning_views(warnings@).take(w_old.len() as int) =~= w_old);
            }
            return r;
        }
        let ghost wv_pre = warning_views(warnings@);
        let ghost mrl_pre = *most_recent_level;
        if let Some(level) = section_level {
            let stop = peer_or_ancestor_section(&cur, level, most_recent_level, warnings);
            if stop {
                let r = MatchedItem { item: blocks, after: cur };
                proof {
                    let cw = check_warnings(section_level, cur@, mrl_pre);
                    let ws2 = ws.push(cw);
                    ws.lemma_flatten_push(cw);
                    assert(warning_views(warnings@) =~= w_old + ws2.flatten());
                    assert(warning_views(warnings@).skip(w_old.len() as int) =~= ws2.flatten());
                    assert(cw.take(cw.len() as int) =~= cw);
                    assert(end_warnings(r.after@, attrs, catalog_before(c0, ps, n), section_level, mrls[n], ws2[n])) by {
                        reveal(end_warnings);
                    }
                    assert forall|i: int| 0 <= i < n implies #[trigger] step_warnings(
                        source@, attrs, c0, section_level, r.item@, afters, ps, mrls, ws2[i], i) by {
                        assert(ws2[i] == ws[i]);
                    }
                    assert(run_warnings_by(source@, attrs, c0, section_level, mrl0, r.item@, afters, ps, r.after@, ws2, mrls));
                    assert(blocks_run(source@, old(parser)@.attributes, section_level, r.item@, afters, ps, r.after@));
                    assert(warning_views(warnings@).take(w_old.len() as int) =~= w_old);
                }
                return r;
            }
        }
        let ghost cw = check_warnings(section_level, cur@, mrl_pre);
        proof {
            assert(warning_views(warnings@) =~= wv_pre + cw);
            assert(*most_recent_level == next_mrl(section_level, cur@, mrl_pre));
        }
        let ghost wv_mid = warning_views(warnings@);
        let ghost p0 = parser@;
        let maw = Block::parse_outside_list(&cur, parser);
        proof {
            lemma_parser_kept_trans(old(parser)@, p0, parser@);
        }
        let mut w = maw.warnings;
        let ghost bw = warning_views(w@);
        warnings.append(&mut w);
        proof {
            assert(warning_views(warnings@) =~= wv_mid + bw);
        }
        let ghost step_w = cw + bw;
        proof {
            assert(step_w.take(cw.len() as int) =~= cw);
            assert(step_w.skip(cw.len() as int) =~= bw);
        }
        match maw.item {
            Some(mi) => {
                proof {
                    lemma_suffix_trans(mi.after@, cur@, source@);
                    let new_afters = afters.push(mi.after@);
                    let new_ps = ps.push(parser@);
                    let new_mrls = mrls.push(*most_recent_level);
                    assert(run_start(source@, new_afters, n) == cur@);
                    assert(run_step(source@, attrs, section_level, blocks@.push(mi.item), new_afters, new_ps, n));
                    assert(step_warnings(
                        source@,
                        attrs,
                        c0,
                        section_level,
                        blocks@.push(mi.item),
                        new_afters,
                        new_ps,
                        new_mrls,
                        step_w,
                        n,
                    )) by {
                        reveal(step_warnings);
                        assert(catalog_before(c0, new_ps, n) == p0.catalog);
                    }
                    lemma_run_extend(
                        source@,
                        attrs,
                        c0,
                        section_level,
                        blocks@,
                        afters,
                        ps,
                        ws,
                        mrls,
                        mi.item,
                        mi.after@,
                        parser@,
                        step_w,
                        *most_recent_level,
                    );
                    ws.lemma_flatten_push(step_w);
                    afters = new_afters;
                    ps = new_ps;
                    ws = ws.push(step_w);
                    mrls = new_mrls;
                    assert(warning_views(warnings@) =~= w_old + ws.flatten());
                }
                blocks.push(mi.item);
                next = mi.after;
            },
            None => {
                proof {
                    assert(block_shape(cur@, attrs, parser@, None));
                }
                let r = MatchedItem { item: blocks, after: cur };
                proof {
                    let ws2 = ws.push(step_w);
                    ws.lemma_flatten_push(step_w);
                    assert(warning_views(warnings@) =~= w_old + ws2.flatten());
                    assert(end_warnings(r.after@, attrs, catalog_before(c0, ps, n), section_level, mrls[n], ws2[n])) by {
                        reveal(end_warnings);
                    }
                    assert(warning_views(warnings@).skip(w_old.len() as int) =~= ws2.flatten());
                    assert forall|i: int| 0 <= i < n implies #[trigger] step_warnings(
                        source@, attrs, c0, section_level, r.item@, afters, ps, mrls, ws2[i], i) by {
                        assert(ws2[i] == ws[i]);
                    }
                    assert(run_warnings_by(source@, attrs, c0, section_level, mrl0, r.item@, afters, ps, r.after@, ws2, mrls));
                    assert(blocks_run(source@, old(parser)@.attributes, section_level, r.item@, afters, ps, r.after@));
                    assert(warning_views(warnings@).take(w_old.len() as int) =~= w_old);
                }
                return r;
            },
        }
    }
}

} // verus!
