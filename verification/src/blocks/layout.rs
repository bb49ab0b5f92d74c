use vstd::prelude::*;

use crate::blocks::metadata::lemma_skip_is_suffix;
use crate::parser::{ParserView, ids_distinct};
use crate::span::{
    SpanView, empty_lines_len, lemma_empty_lines_len, lemma_line_lens, lemma_skip_skip,
    lemma_skip_wf, lemma_suffix_trans, line_after_len, normalized_line_len,
};

verus! {

/// The part of `source` that comes before its tail `after`.
pub open spec fn before(source: SpanView, after: SpanView) -> SpanView {
    if after.len() <= source.len() {
        source.sub(0, source.len() - after.len())
    } else {
        source.sub(0, 0)
    }
}

/// What follows a block that ends at `after`: the text after any blank
/// lines.
pub open spec fn past_blank_lines(after: SpanView) -> SpanView {
    after.skip(empty_lines_len(after.data))
}

/// A block's remaining input is a tail of where the block started, and
/// shorter.
pub open spec fn consumed(after: SpanView, start: SpanView) -> bool {
    &&& after.wf()
    &&& after.is_suffix_of(start)
    &&& after.len() < start.len()
}

/// `v` without a single trailing line ending (`\n` or `\r\n`).
pub open spec fn without_line_end(v: SpanView) -> SpanView {
    v.sub(
        0,
        if v.len() > 0 && v.data.last() == '\n' {
            if v.len() > 1 && v.data[v.len() - 2] == '\r' {
                v.len() - 2
            } else {
                v.len() - 1
            }
        } else {
            v.len()
        },
    )
}

/// Dropping blank lines from a tail keeps a tail.
pub proof fn lemma_past_blank_lines(after: SpanView, start: SpanView)
    requires
        after.is_suffix_of(start),
    ensures
        past_blank_lines(after).is_suffix_of(start),
        past_blank_lines(after).len() <= after.len(),
{
    lemma_empty_lines_len(after.data);
    lemma_skip_is_suffix(after, empty_lines_len(after.data));
    lemma_suffix_trans(past_blank_lines(after), after, start);
}


/// Once blank lines are dropped, none are left to drop.
pub proof fn lemma_past_blank_lines_idem(v: SpanView)
    ensures
        past_blank_lines(past_blank_lines(v)) == past_blank_lines(v),
        empty_lines_len(past_blank_lines(v).data) == 0,
    decreases v.len(),
{
    lemma_line_lens(v.data);
    lemma_empty_lines_len(v.data);
    let e = empty_lines_len(v.data);
    if v.len() == 0 || normalized_line_len(v.data) != 0 {
        assert(v.data.skip(0) =~= v.data);
        assert(v.skip(0) == v);
    } else {
        let a = line_after_len(v.data);
        if a <= 0 || a > v.len() {
            assert(v.data.skip(0) =~= v.data);
            assert(v.skip(0) == v);
        } else {
            lemma_past_blank_lines_idem(v.skip(a));
            lemma_empty_lines_len(v.skip(a).data);
            lemma_skip_skip(v, a, empty_lines_len(v.skip(a).data));
        }
    }
    let p = past_blank_lines(v);
    assert(p.data.skip(0) =~= p.data);
    assert(p.skip(0) == p);
}

/// What block parsing may do to the parser's state: document attributes
/// and the section numbering depth stay as they are, and the catalog of
/// IDs only grows (no registered ID is dropped or changed), never gaining
/// an ID twice.
pub open spec fn parser_kept(before: ParserView, after: ParserView) -> bool {
    &&& after.attributes == before.attributes
    &&& after.sectnumlevels == before.sectnumlevels
    &&& before.catalog.len() <= after.catalog.len()
    &&& after.catalog.take(before.catalog.len() as int) == before.catalog
    &&& ids_distinct(before.catalog) ==> ids_distinct(after.catalog)
}

pub proof fn lemma_parser_kept_refl(p: ParserView)
    ensures
        parser_kept(p, p),
{
    assert(p.catalog.take(p.catalog.len() as int) =~= p.catalog);
}

pub proof fn lemma_parser_kept_trans(a: ParserView, b: ParserView, c: ParserView)
    requires
        parser_kept(a, b),
        parser_kept(b, c),
    ensures
        parser_kept(a, c),
{
    assert(c.catalog.take(a.catalog.len() as int) =~= b.catalog.take(a.catalog.len() as int));
}

/// Consuming part of a tail consumes part of the whole.
pub proof fn lemma_consumed_trans(after: SpanView, start: SpanView, whole: SpanView)
    requires
        consumed(after, start),
        start.is_suffix_of(whole),
    ensures
        consumed(after, whole),
{
    lemma_suffix_trans(after, start, whole);
}
} // verus!
