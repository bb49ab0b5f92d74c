use vstd::prelude::*;
use crate::blocks::is_block::{ContentModel, IsBlock};
use crate::attributes::attrlist::Attrlist;
use crate::content::{GroupView, SubstitutionGroup};
use crate::blocks::metadata::HeaderView;

use crate::blocks::block::Block;
use crate::span::{Span, SpanView, char_width, char_width_exec};

verus! {

/// The number of leading characters of `s` whose UTF-8 encoding fits in
/// `budget` bytes.
pub open spec fn chars_within(s: Seq<char>, budget: int) -> int
    decreases s.len(),
{
    if s.len() == 0 || char_width(s[0]) > budget {
        0
    } else {
        1 + chars_within(s.drop_first(), budget - char_width(s[0]))
    }
}

/// The number of bytes in the UTF-8 encoding of `s`.
pub open spec fn utf8_len(s: Seq<char>) -> int
    decreases s.len(),
{
    if s.len() == 0 {
        0
    } else {
        utf8_len(s.drop_last()) + char_width(s.last())
    }
}

pub struct PreambleView {
    pub source: SpanView,
}

/// Content between the end of the document header and the first section
/// title in the document body is called the preamble.
#[derive(Debug)]
pub struct Preamble {
    blocks: Vec<Block>,
    source: Span,
}

impl View for Preamble {
    type V = PreambleView;

    closed spec fn view(&self) -> PreambleView {
        PreambleView { source: self.source@ }
    }
}

proof fn lemma_chars_within(s: Seq<char>, budget: int)
    ensures
        0 <= chars_within(s, budget) <= s.len(),
    decreases s.len(),
{
    if s.len() > 0 && char_width(s[0]) <= budget {
        lemma_chars_within(s.drop_first(), budget - char_width(s[0]));
    }
}

proof fn lemma_utf8_len_mono(s: Seq<char>, k: int)
    requires
        0 <= k <= s.len(),
    ensures
        utf8_len(s.take(k)) <= utf8_len(s),
    decreases s.len(),
{
    if k < s.len() {
        assert(s.drop_last().take(k) =~= s.take(k));
        lemma_utf8_len_mono(s.drop_last(), k);
    } else {
        assert(s.take(k) =~= s);
    }
}

/// The number of bytes in the UTF-8 encoding of `span`'s text, if it fits
/// in a `usize`.
fn utf8_len_exec(span: &Span) -> (r: Option<usize>)
    ensures
        r matches Some(n) ==> n == utf8_len(span@.data),
        r is None ==> utf8_len(span@.data) > usize::MAX,
{
    let n = span.len();
    let mut total: usize = 0;
    let mut i: usize = 0;
    while i < n
        invariant
            n == span@.len(),
            i <= n,
            total == utf8_len(span@.data.take(i as int)),
        decreases n - i,
    {
        let w = char_width_exec(span.char_at(i));
        proof {
            assert(span@.data.take(i + 1).drop_last() =~= span@.data.take(i as int));
        }
        if total > usize::MAX - w {
            proof {
                lemma_utf8_len_mono(span@.data, i + 1);
            }
            return None;
        }
        total = total + w;
        i = i + 1;
    }
    assert(span@.data.take(n as int) =~= span@.data);
    Some(total)
}

impl Preamble {
    /// The blocks of the preamble.
    pub closed spec fn blocks_view(&self) -> Seq<Block> {
        self.blocks@
    }

    /// Makes a preamble of `blocks`, read from `source`: its source runs
    /// from the start of `source` to the end of the last block (and is empty
    /// if there are no blocks).
    pub fn from_blocks(blocks: Vec<Block>, source: &Span) -> (r: Preamble)
        requires
            source@.wf(),
        ensures
            r.blocks_view() == blocks@,
            r@.source == source@.sub(0, r@.source.len()),
            r@.source.wf(),
            blocks@.len() > 0 ==> ({
                let last = blocks@.last().source_view();
                let end = last.offset + utf8_len(last.data);
                end <= usize::MAX ==> r@.source == source@.sub(
                    0,
                    chars_within(source@.data, end - source@.offset),
                )
            }),
            blocks@.len() == 0 ==> r@.source == source@.sub(0, 0),
    {
        let n = blocks.len();
        if n == 0 {
            return Preamble { blocks, source: source.slice_to(0) };
        }
        let last = blocks[n - 1].span();
        let last_offset = last.byte_offset();
        let end = match utf8_len_exec(last) {
            Some(b) => {
                if last.byte_offset() <= usize::MAX - b {
                    last.byte_offset() + b
                } else {
                    return Preamble { blocks, source: source.slice_to(0) };
                }
            },
            None => {
                return Preamble { blocks, source: source.slice_to(0) };
            },
        };
        let start = source.byte_offset();
        let budget: usize = if end >= start {
            end - start
        } else {
            0
        };
        let len = source.len();
        let mut k: usize = 0;
        let mut used: usize = 0;
        proof {
            lemma_chars_within(source@.data, budget as int);
            assert(source@.data.skip(0) =~= source@.data);
        }
        while k < len && char_width_exec(source.char_at(k)) <= budget - used
            invariant
                len == source@.len(),
                k <= len,
                used <= budget,
                chars_within(source@.data, budget as int) == k + chars_within(
                    source@.data.skip(k as int),
                    budget - used,
                ),
            decreases len - k,
        {
            let w = char_width_exec(source.char_at(k));
            proof {
                assert(source@.data.skip(k as int).drop_first() =~= source@.data.skip(k + 1));
            }
            used = used + w;
            k = k + 1;
        }
        proof {
            let spec_budget = end - source@.offset;
            if end < start {
                assert(chars_within(source@.data, spec_budget) == 0);
                assert(chars_within(source@.data, budget as int) == 0);
            }
        }
        Preamble { blocks, source: source.slice_to(k) }
    }

    /// Returns the blocks of the preamble.
    pub fn blocks(&self) -> (r: &[Block])
        ensures
            r@ == self.blocks_view(),
    {
        self.blocks.as_slice()
    }

    /// Returns the source text of the preamble.
    pub fn span(&self) -> (r: &Span)
        ensures
            r@ == self@.source,
    {
        &self.source
    }
}


impl IsBlock for Preamble {
    open spec fn block_header(&self) -> HeaderView {
        crate::blocks::metadata::empty_header()
    }

    open spec fn fallback_id(&self) -> Option<Seq<char>> {
        None
    }

    open spec fn block_model(&self) -> ContentModel {
        ContentModel::Compound
    }

    open spec fn block_context(&self) -> Seq<char> {
        "preamble"@
    }

    open spec fn block_nested(&self) -> Seq<Block> {
        self.blocks_view()
    }

    open spec fn block_rendered(&self) -> Option<Seq<char>> {
        None
    }

    open spec fn block_group(&self) -> GroupView {
        GroupView::Normal
    }

    fn content_model(&self) -> (r: ContentModel) {
        ContentModel::Compound
    }

    fn raw_context(&self) -> (r: &str) {
        "preamble"
    }

    fn nested_blocks(&self) -> (r: &[Block]) {
        self.blocks.as_slice()
    }

    fn title_source(&self) -> (r: Option<&Span>) {
        None
    }

    fn title(&self) -> (r: Option<&str>) {
        None
    }

    fn anchor(&self) -> (r: Option<&Span>) {
        None
    }

    fn anchor_reftext(&self) -> (r: Option<&Span>) {
        None
    }

    fn attrlist(&self) -> (r: Option<&Attrlist>) {
        None
    }

    fn generated_id(&self) -> (r: Option<&str>) {
        None
    }

    fn rendered_content(&self) -> (r: Option<&str>) {
        None
    }

    fn substitution_group(&self) -> (r: SubstitutionGroup) {
        SubstitutionGroup::Normal
    }
}

} // verus!
