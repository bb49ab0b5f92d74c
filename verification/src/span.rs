use vstd::prelude::*;
use vstd::string::StrSliceExecFns;

verus! {

/// Number of bytes that the UTF-8 encoding of `c` occupies.
pub open spec fn char_width(c: char) -> int {
    if (c as u32) < 0x80 {
        1
    } else if (c as u32) < 0x800 {
        2
    } else if (c as u32) < 0x10000 {
        3
    } else {
        4
    }
}

/// A position in a document: (line, column, byte offset).
pub type Pos = (int, int, int);

/// The position that follows `p` once the character `c` has been read.
pub open spec fn step(p: Pos, c: char) -> Pos {
    if c == '\n' {
        (p.0 + 1, 1, p.2 + char_width(c))
    } else {
        (p.0, p.1 + 1, p.2 + char_width(c))
    }
}

/// The position that follows `p` once all of `s` has been read.
pub open spec fn pos_after(p: Pos, s: Seq<char>) -> Pos
    decreases s.len(),
{
    if s.len() == 0 {
        p
    } else {
        step(pos_after(p, s.drop_last()), s.last())
    }
}

/// The mathematical model of a [`Span`]: its text and where it starts.
pub struct SpanView {
    pub data: Seq<char>,
    pub line: int,
    pub col: int,
    pub offset: int,
}

impl SpanView {
    pub open spec fn len(self) -> int {
        self.data.len() as int
    }

    pub open spec fn pos(self) -> Pos {
        (self.line, self.col, self.offset)
    }

    pub open spec fn at(data: Seq<char>, p: Pos) -> SpanView {
        SpanView { data, line: p.0, col: p.1, offset: p.2 }
    }

    /// The span that remains after the first `n` characters.
    pub open spec fn skip(self, n: int) -> SpanView {
        SpanView::at(self.data.skip(n), pos_after(self.pos(), self.data.take(n)))
    }

    /// The characters `start..end` of this span, placed where they occur.
    pub open spec fn sub(self, start: int, end: int) -> SpanView {
        SpanView::at(self.data.subrange(start, end), pos_after(self.pos(), self.data.take(start)))
    }

    /// A well-formed span starts at line and column 1 or later and its end
    /// position fits in machine integers.
    pub open spec fn wf(self) -> bool {
        &&& 1 <= self.line
        &&& 1 <= self.col
        &&& 0 <= self.offset
        &&& self.line + self.len() <= usize::MAX
        &&& self.col + self.len() <= usize::MAX
        &&& self.offset + 4 * self.len() <= usize::MAX
    }

    /// `self` is a tail of `other`: it is what is left of `other` after some
    /// prefix has been read.
    pub open spec fn is_suffix_of(self, other: SpanView) -> bool {
        &&& self.len() <= other.len()
        &&& self == other.skip(other.len() - self.len())
    }

    pub open spec fn starts_with(self, p: Seq<char>) -> bool {
        p.len() <= self.len() && self.data.take(p.len() as int) == p
    }

    pub open spec fn ends_with(self, p: Seq<char>) -> bool {
        p.len() <= self.len() && self.data.skip(self.len() - p.len()) == p
    }
}

/// `p` occurs somewhere in `s`.
pub open spec fn seq_contains_seq(s: Seq<char>, p: Seq<char>) -> bool {
    exists|i: int| 0 <= i && i + p.len() <= s.len() && #[trigger] s.subrange(i, i + p.len()) == p
}

/// Horizontal whitespace: space and tab.
pub open spec fn is_blank(c: char) -> bool {
    c == ' ' || c == '\t'
}

/// Whitespace that is trimmed from the end of a span or line.
pub open spec fn is_trailing_ws(c: char) -> bool {
    c == ' ' || c == '\t' || c == '\n' || c == '\r' || c == '\x0C'
}

/// The index of the first character of `s` that fails `p`, or `s.len()`.
pub open spec fn run_len(s: Seq<char>, p: spec_fn(char) -> bool) -> int
    decreases s.len(),
{
    if s.len() == 0 || !p(s[0]) {
        0
    } else {
        1 + run_len(s.drop_first(), p)
    }
}

/// The length of `s` once trailing characters satisfying `p` are removed.
pub open spec fn trimmed_len(s: Seq<char>, p: spec_fn(char) -> bool) -> int
    decreases s.len(),
{
    if s.len() == 0 || !p(s.last()) {
        s.len() as int
    } else {
        trimmed_len(s.drop_last(), p)
    }
}

/// The index of the first `c` in `s`, if any.
pub open spec fn first_index_of(s: Seq<char>, c: char) -> Option<int> {
    let k = run_len(s, |x: char| x != c);
    if k < s.len() {
        Some(k)
    } else {
        None
    }
}

pub proof fn lemma_run_len(s: Seq<char>, p: spec_fn(char) -> bool)
    ensures
        0 <= run_len(s, p) <= s.len(),
        forall|j: int| 0 <= j < run_len(s, p) ==> p(#[trigger] s[j]),
        run_len(s, p) < s.len() ==> !p(s[run_len(s, p)]),
    decreases s.len(),
{
    if s.len() != 0 && p(s[0]) {
        lemma_run_len(s.drop_first(), p);
        assert forall|j: int| 0 <= j < run_len(s, p) implies p(#[trigger] s[j]) by {
            if j > 0 {
                assert(s[j] == s.drop_first()[j - 1]);
            }
        }
    }
}

/// A run length is pinned down by where the predicate first fails.
pub proof fn lemma_run_len_unique(s: Seq<char>, p: spec_fn(char) -> bool, k: int)
    requires
        0 <= k <= s.len(),
        forall|j: int| 0 <= j < k ==> p(#[trigger] s[j]),
        k < s.len() ==> !p(s[k]),
    ensures
        run_len(s, p) == k,
    decreases s.len(),
{
    if s.len() != 0 && p(s[0]) {
        assert(k > 0);
        assert forall|j: int| 0 <= j < k - 1 implies p(#[trigger] s.drop_first()[j]) by {
            assert(s.drop_first()[j] == s[j + 1]);
        }
        if k - 1 < s.drop_first().len() {
            assert(s.drop_first()[k - 1] == s[k]);
        }
        lemma_run_len_unique(s.drop_first(), p, k - 1);
    } else if s.len() != 0 {
        assert(k == 0);
    }
}

pub proof fn lemma_trimmed_len(s: Seq<char>, p: spec_fn(char) -> bool)
    ensures
        0 <= trimmed_len(s, p) <= s.len(),
        forall|j: int| trimmed_len(s, p) <= j < s.len() ==> p(#[trigger] s[j]),
        trimmed_len(s, p) > 0 ==> !p(s[trimmed_len(s, p) - 1]),
    decreases s.len(),
{
    if s.len() != 0 && p(s.last()) {
        lemma_trimmed_len(s.drop_last(), p);
        assert forall|j: int| trimmed_len(s, p) <= j < s.len() implies p(#[trigger] s[j]) by {
            if j < s.len() - 1 {
                assert(s[j] == s.drop_last()[j]);
            }
        }
        if trimmed_len(s, p) > 0 {
            assert(s[trimmed_len(s, p) - 1] == s.drop_last()[trimmed_len(s, p) - 1]);
        }
    }
}

pub proof fn lemma_trimmed_len_unique(s: Seq<char>, p: spec_fn(char) -> bool, k: int)
    requires
        0 <= k <= s.len(),
        forall|j: int| k <= j < s.len() ==> p(#[trigger] s[j]),
        k > 0 ==> !p(s[k - 1]),
    ensures
        trimmed_len(s, p) == k,
    decreases s.len(),
{
    if s.len() != 0 && p(s.last()) {
        assert(k < s.len()) by {
            if k == s.len() {
                assert(!p(s[k - 1]));
            }
        }
        assert forall|j: int| k <= j < s.drop_last().len() implies p(
            #[trigger] s.drop_last()[j],
        ) by {
            assert(s.drop_last()[j] == s[j]);
        }
        if k > 0 {
            assert(s.drop_last()[k - 1] == s[k - 1]);
        }
        lemma_trimmed_len_unique(s.drop_last(), p, k);
    } else if s.len() != 0 {
        if k < s.len() {
            assert(p(s[s.len() - 1]));
        }
    }
}

pub proof fn lemma_pos_after_bounds(p: Pos, s: Seq<char>)
    requires
        1 <= p.1,
    ensures
        p.0 <= pos_after(p, s).0 <= p.0 + s.len(),
        1 <= pos_after(p, s).1 <= p.1 + s.len(),
        p.2 <= pos_after(p, s).2 <= p.2 + 4 * s.len(),
    decreases s.len(),
{
    if s.len() != 0 {
        lemma_pos_after_bounds(p, s.drop_last());
    }
}

pub proof fn lemma_pos_after_concat(p: Pos, a: Seq<char>, b: Seq<char>)
    ensures
        pos_after(pos_after(p, a), b) == pos_after(p, a + b),
    decreases b.len(),
{
    if b.len() == 0 {
        assert(a + b =~= a);
    } else {
        lemma_pos_after_concat(p, a, b.drop_last());
        assert((a + b).drop_last() =~= a + b.drop_last());
        assert((a + b).last() == b.last());
    }
}

/// The number of line feeds in `s`.
pub open spec fn newline_count(s: Seq<char>) -> int
    decreases s.len(),
{
    if s.len() == 0 {
        0
    } else {
        newline_count(s.drop_last()) + if s.last() == '\n' {
            1int
        } else {
            0int
        }
    }
}

/// The number of bytes that the UTF-8 encoding of `s` occupies.
pub open spec fn utf8_len(s: Seq<char>) -> int
    decreases s.len(),
{
    if s.len() == 0 {
        0
    } else {
        utf8_len(s.drop_last()) + char_width(s.last())
    }
}

/// Reading `s` moves down one line per line feed and forward by its UTF-8
/// length; after a final line feed the column is 1.
pub proof fn lemma_pos_after_counts(p: Pos, s: Seq<char>)
    ensures
        pos_after(p, s).0 == p.0 + newline_count(s),
        pos_after(p, s).2 == p.2 + utf8_len(s),
        s.len() > 0 && s.last() == '\n' ==> pos_after(p, s).1 == 1,
    decreases s.len(),
{
    if s.len() != 0 {
        lemma_pos_after_counts(p, s.drop_last());
    }
}

/// Reading two whole lines in either order ends at the same position.
pub proof fn lemma_pos_after_lines_commute(p: Pos, x: Seq<char>, y: Seq<char>)
    requires
        x.len() > 0,
        x.last() == '\n',
        y.len() > 0,
        y.last() == '\n',
    ensures
        pos_after(p, x + y) == pos_after(p, y + x),
{
    lemma_pos_after_concat(p, x, y);
    lemma_pos_after_concat(p, y, x);
    lemma_pos_after_counts(p, x);
    lemma_pos_after_counts(p, y);
    lemma_pos_after_counts(pos_after(p, x), y);
    lemma_pos_after_counts(pos_after(p, y), x);
}

/// Reading a prefix and then more is the same as reading both at once.
pub proof fn lemma_skip_skip(v: SpanView, a: int, b: int)
    requires
        0 <= a,
        0 <= b,
        a + b <= v.len(),
    ensures
        v.skip(a).skip(b) == v.skip(a + b),
{
    lemma_pos_after_concat(v.pos(), v.data.take(a), v.data.skip(a).take(b));
    assert(v.data.take(a) + v.data.skip(a).take(b) =~= v.data.take(a + b));
    assert(v.data.skip(a).skip(b) =~= v.data.skip(a + b));
}

pub proof fn lemma_skip_wf(v: SpanView, n: int)
    requires
        v.wf(),
        0 <= n <= v.len(),
    ensures
        v.skip(n).wf(),
{
    lemma_pos_after_bounds(v.pos(), v.data.take(n));
}

pub proof fn lemma_sub_wf(v: SpanView, start: int, end: int)
    requires
        v.wf(),
        0 <= start <= end <= v.len(),
    ensures
        v.sub(start, end).wf(),
{
    lemma_pos_after_bounds(v.pos(), v.data.take(start));
}

/// A sub-span of a sub-span is a sub-span of the whole.
pub proof fn lemma_sub_sub(v: SpanView, s1: int, e1: int, s2: int, e2: int)
    requires
        0 <= s1 <= e1 <= v.len(),
        0 <= s2 <= e2 <= e1 - s1,
    ensures
        v.sub(s1, e1).sub(s2, e2) == v.sub(s1 + s2, s1 + e2),
{
    lemma_pos_after_concat(v.pos(), v.data.take(s1), v.data.subrange(s1, e1).take(s2));
    assert(v.data.take(s1) + v.data.subrange(s1, e1).take(s2) =~= v.data.take(s1 + s2));
    assert(v.data.subrange(s1, e1).subrange(s2, e2) =~= v.data.subrange(s1 + s2, s1 + e2));
}

/// The tail of a sub-span is a sub-span of the whole.
pub proof fn lemma_sub_skip(v: SpanView, s1: int, e1: int, k: int)
    requires
        0 <= s1 <= e1 <= v.len(),
        0 <= k <= e1 - s1,
    ensures
        v.sub(s1, e1).skip(k) == v.sub(s1 + k, e1),
{
    lemma_pos_after_concat(v.pos(), v.data.take(s1), v.data.subrange(s1, e1).take(k));
    assert(v.data.take(s1) + v.data.subrange(s1, e1).take(k) =~= v.data.take(s1 + k));
    assert(v.data.subrange(s1, e1).skip(k) =~= v.data.subrange(s1 + k, e1));
}

/// Suffix-of is transitive.
pub proof fn lemma_suffix_trans(a: SpanView, b: SpanView, c: SpanView)
    requires
        a.is_suffix_of(b),
        b.is_suffix_of(c),
    ensures
        a.is_suffix_of(c),
{
    lemma_skip_skip(c, c.len() - b.len(), b.len() - a.len());
}

/// A piece taken from the start of a span starts where the span does.
pub proof fn lemma_sub_start_offset(v: SpanView, n: int)
    ensures
        v.sub(0, n).offset == v.offset,
{
    assert(v.data.take(0) =~= Seq::<char>::empty());
}

/// A tail of a span that starts at column 1 or later lies at or past the
/// span's own offset.
pub proof fn lemma_suffix_offset(a: SpanView, b: SpanView)
    requires
        a.is_suffix_of(b),
        1 <= b.col,
    ensures
        b.offset <= a.offset,
{
    lemma_pos_after_bounds(b.pos(), b.data.take(b.len() - a.len()));
}

pub proof fn lemma_suffix_refl(a: SpanView)
    ensures
        a.is_suffix_of(a),
{
    assert(a.data.skip(0) =~= a.data);
    assert(a.data.take(0) =~= Seq::<char>::empty());
}

/// The exec counterpart of [`char_width`].
pub fn char_width_exec(c: char) -> (r: usize)
    ensures
        r == char_width(c),
        1 <= r <= 4,
{
    let u = c as u32;
    if u < 0x80 {
        1
    } else if u < 0x800 {
        2
    } else if u < 0x10000 {
        3
    } else {
        4
    }
}

/// A slice of a source document that remembers where in the document it
/// starts.
#[derive(Debug, PartialEq, Eq)]
pub struct Span {
    data: String,
    line: usize,
    col: usize,
    offset: usize,
}

impl View for Span {
    type V = SpanView;

    closed spec fn view(&self) -> SpanView {
        SpanView {
            data: self.data@,
            line: self.line as int,
            col: self.col as int,
            offset: self.offset as int,
        }
    }
}

/// The result of a successful partial parse: what was matched and the
/// source that remains after it.
pub struct MatchedItem<T> {
    pub item: T,
    pub after: Span,
}

impl Span {
    /// Creates a span that covers an entire document.
    pub fn new(data: &str) -> (r: Span)
        requires
            4 * data@.len() <= usize::MAX,
        ensures
            r@ == (SpanView { data: data@, line: 1, col: 1, offset: 0 }),
            r@.wf(),
    {
        Span { data: data.to_owned(), line: 1, col: 1, offset: 0 }
    }

    /// Returns the text of this span.
    pub fn data(&self) -> (r: &str)
        ensures
            r@ == self@.data,
    {
        self.data.as_str()
    }

    /// Returns the number of characters in this span.
    pub fn len(&self) -> (r: usize)
        ensures
            r == self@.len(),
    {
        self.data.as_str().unicode_len()
    }

    pub fn is_empty(&self) -> (r: bool)
        ensures
            r == (self@.len() == 0),
    {
        self.len() == 0
    }

    /// The (1-based) line number where this span starts.
    pub fn line(&self) -> (r: usize)
        ensures
            r == self@.line,
    {
        self.line
    }

    /// The (1-based) column number where this span starts.
    pub fn col(&self) -> (r: usize)
        ensures
            r == self@.col,
    {
        self.col
    }

    /// The (0-based) byte offset in the document where this span starts.
    pub fn byte_offset(&self) -> (r: usize)
        ensures
            r == self@.offset,
    {
        self.offset
    }

    /// Returns the character at (character) index `i`.
    pub fn char_at(&self, i: usize) -> (r: char)
        requires
            i < self@.len(),
        ensures
            r == self@.data[i as int],
    {
        self.data.as_str().get_char(i)
    }

    /// An identical copy of this span.
    pub fn copy(&self) -> (r: Span)
        ensures
            r@ == self@,
    {
        Span { data: self.data.clone(), line: self.line, col: self.col, offset: self.offset }
    }

    /// The span that remains after the first `n` characters.
    pub fn discard(&self, n: usize) -> (r: Span)
        requires
            self@.wf(),
            n <= self@.len(),
        ensures
            r@ == self@.skip(n as int),
            r@.wf(),
    {
        let len = self.len();
        let mut line = self.line;
        let mut col = self.col;
        let mut offset = self.offset;
        let mut i: usize = 0;
        while i < n
            invariant
                self@.wf(),
                len == self@.len(),
                i <= n <= len,
                (line as int, col as int, offset as int) == pos_after(
                    self@.pos(),
                    self@.data.take(i as int),
                ),
            decreases n - i,
        {
            let c = self.char_at(i);
            proof {
                assert(self@.data.take(i + 1).drop_last() =~= self@.data.take(i as int));
                assert(self@.data.take(i + 1).last() == c);
                lemma_pos_after_bounds(self@.pos(), self@.data.take(i + 1));
            }
            let w = char_width_exec(c);
            if c == '\n' {
                line = line + 1;
                col = 1;
            } else {
                col = col + 1;
            }
            offset = offset + w;
            i = i + 1;
        }
        let rest = self.data.as_str().substring_char(n, len).to_owned();
        proof {
            assert(rest@ =~= self@.data.skip(n as int));
            lemma_skip_wf(self@, n as int);
        }
        Span { data: rest, line, col, offset }
    }

    /// The empty span at the end of this span.
    pub fn discard_all(&self) -> (r: Span)
        requires
            self@.wf(),
        ensures
            r@ == self@.skip(self@.len()),
            r@.wf(),
    {
        self.discard(self.len())
    }

    /// The characters `start..end` of this span.
    pub fn slice(&self, start: usize, end: usize) -> (r: Span)
        requires
            self@.wf(),
            start <= end <= self@.len(),
        ensures
            r@ == self@.sub(start as int, end as int),
            r@.wf(),
    {
        let tail = self.discard(start);
        let data = tail.data.as_str().substring_char(0, end - start).to_owned();
        proof {
            assert(data@ =~= self@.data.subrange(start as int, end as int));
            lemma_sub_wf(self@, start as int, end as int);
        }
        Span { data, line: tail.line, col: tail.col, offset: tail.offset }
    }

    /// The first `end` characters of this span.
    pub fn slice_to(&self, end: usize) -> (r: Span)
        requires
            self@.wf(),
            end <= self@.len(),
        ensures
            r@ == self@.sub(0, end as int),
            r@.wf(),
    {
        self.slice(0, end)
    }

    /// Splits this span after `n` characters.
    pub fn into_parse_result(&self, n: usize) -> (r: MatchedItem<Span>)
        requires
            self@.wf(),
            n <= self@.len(),
        ensures
            r.item@ == self@.sub(0, n as int),
            r.after@ == self@.skip(n as int),
            r.item@.wf(),
            r.after@.wf(),
    {
        MatchedItem { item: self.slice_to(n), after: self.discard(n) }
    }
}


/// The characters that separate shorthand items in an attribute value.
pub open spec fn is_shorthand_delimiter(c: char) -> bool {
    c == '#' || c == '%' || c == '.'
}

pub open spec fn not_shorthand_pred() -> spec_fn(char) -> bool {
    |c: char| !is_shorthand_delimiter(c)
}

/// Named predicates on characters.
pub open spec fn blank_pred() -> spec_fn(char) -> bool {
    |c: char| is_blank(c)
}

pub open spec fn trailing_ws_pred() -> spec_fn(char) -> bool {
    |c: char| is_trailing_ws(c)
}

pub open spec fn ws_nl_pred() -> spec_fn(char) -> bool {
    |c: char| is_blank(c) || c == '\n' || c == '\r'
}

pub open spec fn not_char(x: char) -> spec_fn(char) -> bool {
    |c: char| c != x
}

pub open spec fn is_char(x: char) -> spec_fn(char) -> bool {
    |c: char| c == x
}

pub open spec fn is_ascii_alpha(c: char) -> bool {
    ('a' <= c && c <= 'z') || ('A' <= c && c <= 'Z')
}

pub open spec fn is_ascii_digit(c: char) -> bool {
    '0' <= c && c <= '9'
}

pub open spec fn is_word_char(c: char) -> bool {
    is_ascii_alpha(c) || is_ascii_digit(c) || c == '_'
}

pub open spec fn word_pred() -> spec_fn(char) -> bool {
    |c: char| is_word_char(c)
}

pub open spec fn attr_name_pred() -> spec_fn(char) -> bool {
    |c: char| is_word_char(c) || c == '-'
}

pub open spec fn xml_name_start(c: char) -> bool {
    is_ascii_alpha(c) || c == '_' || c == ':' || (c as u32) >= 0x80
}

pub open spec fn xml_name_char(c: char) -> bool {
    xml_name_start(c) || is_ascii_digit(c) || c == '-' || c == '.'
}

/// Length of the line at the start of `s`, not counting its `\n`.
pub open spec fn line_len(s: Seq<char>) -> int {
    run_len(s, not_char('\n'))
}

/// Length of the line at the start of `s` without its line ending
/// (`\n` or `\r\n`).
pub open spec fn line_item_len(s: Seq<char>) -> int {
    let k = line_len(s);
    if k > 0 && s[k - 1] == '\r' {
        k - 1
    } else {
        k
    }
}

/// Where the next line of `s` starts.
pub open spec fn line_after_len(s: Seq<char>) -> int {
    let k = line_len(s);
    if k < s.len() {
        k + 1
    } else {
        k
    }
}

/// Length of the first line of `s` once trailing whitespace is removed.
pub open spec fn normalized_line_len(s: Seq<char>) -> int {
    trimmed_len(s.take(line_len(s)), trailing_ws_pred())
}

/// Number of characters taken up by the blank lines at the start of `s`.
pub open spec fn empty_lines_len(s: Seq<char>) -> int
    decreases s.len(),
{
    if s.len() == 0 || normalized_line_len(s) != 0 {
        0
    } else {
        let a = line_after_len(s);
        if a <= 0 || a > s.len() {
            0
        } else {
            a + empty_lines_len(s.skip(a))
        }
    }
}

/// Length of `s` once leading and trailing whitespace are removed.
pub open spec fn trim_len(s: Seq<char>) -> int {
    let t = trimmed_len(s, trailing_ws_pred());
    let l = run_len(s, trailing_ws_pred());
    if l >= t {
        0
    } else {
        t - l
    }
}

/// The first index `i >= 1` where `s` holds the quote character it starts
/// with, not preceded by a backslash.
pub open spec fn closing_quote_from(s: Seq<char>, i: int) -> Option<int>
    decreases s.len() - i,
{
    if i < 1 || i >= s.len() {
        None
    } else if s[i] == s[0] && s[i - 1] != '\\' {
        Some(i)
    } else {
        closing_quote_from(s, i + 1)
    }
}

pub proof fn lemma_closing_quote_from(s: Seq<char>, i: int)
    ensures
        closing_quote_from(s, i) matches Some(e) ==> 1 <= i <= e < s.len(),
    decreases s.len() - i,
{
    if 1 <= i < s.len() && !(s[i] == s[0] && s[i - 1] != '\\') {
        lemma_closing_quote_from(s, i + 1);
    }
}

pub open spec fn is_quote(c: char) -> bool {
    c == '\'' || c == '"'
}

/// Length of the identifier at the start of `s` (`0` if there is none).
pub open spec fn ident_len(s: Seq<char>) -> int {
    if s.len() > 0 && (is_ascii_alpha(s[0]) || s[0] == '_') {
        1 + run_len(s.skip(1), word_pred())
    } else {
        0
    }
}

/// Length of the attribute name at the start of `s` (`0` if none).
pub open spec fn attr_name_len(s: Seq<char>) -> int {
    if s.len() > 0 && is_word_char(s[0]) {
        1 + run_len(s.skip(1), attr_name_pred())
    } else {
        0
    }
}

/// `s` is a valid XML name.
pub open spec fn is_xml_name_seq(s: Seq<char>) -> bool {
    &&& s.len() > 0
    &&& xml_name_start(s[0])
    &&& forall|i: int| 1 <= i < s.len() ==> xml_name_char(#[trigger] s[i])
}

pub proof fn lemma_line_lens(s: Seq<char>)
    ensures
        0 <= line_item_len(s) <= line_len(s) <= line_after_len(s) <= s.len(),
        s.len() > 0 ==> line_after_len(s) > 0,
        0 <= normalized_line_len(s) <= line_len(s),
        line_len(s) < s.len() ==> s[line_len(s)] == '\n',
        forall|j: int| 0 <= j < line_len(s) ==> s[j] != '\n',
{
    lemma_run_len(s, not_char('\n'));
    lemma_trimmed_len(s.take(line_len(s)), trailing_ws_pred());
    assert forall|j: int| 0 <= j < line_len(s) implies s[j] != '\n' by {
        assert(not_char('\n')(s[j]));
    }
}

/// The normalized line is no longer than the line without its line ending.
pub proof fn lemma_normalized_within_item(s: Seq<char>)
    ensures
        normalized_line_len(s) <= line_item_len(s),
{
    lemma_line_lens(s);
    let k = line_len(s);
    if k > 0 && s[k - 1] == '\r' {
        let t = s.take(k);
        assert(trailing_ws_pred()(t.last()));
        assert(t.drop_last() =~= s.take(k - 1));
        lemma_trimmed_len(t.drop_last(), trailing_ws_pred());
    }
}

pub proof fn lemma_empty_lines_len(s: Seq<char>)
    ensures
        0 <= empty_lines_len(s) <= s.len(),
    decreases s.len(),
{
    lemma_line_lens(s);
    if s.len() != 0 && normalized_line_len(s) == 0 {
        let a = line_after_len(s);
        if 0 < a <= s.len() {
            lemma_empty_lines_len(s.skip(a));
        }
    }
}


/// Character classes that the scanning functions of [`Span`] use.
pub enum CharClass {
    Blank,
    TrailingWs,
    WsNl,
    Not(char),
    Is(char),
    Word,
    AttrName,
    NotShorthandDelim,
}

pub open spec fn class_pred(k: CharClass) -> spec_fn(char) -> bool {
    match k {
        CharClass::Blank => blank_pred(),
        CharClass::TrailingWs => trailing_ws_pred(),
        CharClass::WsNl => ws_nl_pred(),
        CharClass::Not(x) => not_char(x),
        CharClass::Is(x) => is_char(x),
        CharClass::Word => word_pred(),
        CharClass::AttrName => attr_name_pred(),
        CharClass::NotShorthandDelim => not_shorthand_pred(),
    }
}

pub fn class_matches(k: &CharClass, c: char) -> (r: bool)
    ensures
        r == class_pred(*k)(c),
{
    match k {
        CharClass::Blank => c == ' ' || c == '\t',
        CharClass::TrailingWs => c == ' ' || c == '\t' || c == '\n' || c == '\r' || c == '\x0C',
        CharClass::WsNl => c == ' ' || c == '\t' || c == '\n' || c == '\r',
        CharClass::Not(x) => c != *x,
        CharClass::Is(x) => c == *x,
        CharClass::Word => is_word_char_exec(c),
        CharClass::AttrName => is_word_char_exec(c) || c == '-',
        CharClass::NotShorthandDelim => !(c == '#' || c == '%' || c == '.'),
    }
}

pub fn is_word_char_exec(c: char) -> (r: bool)
    ensures
        r == is_word_char(c),
{
    ('a' <= c && c <= 'z') || ('A' <= c && c <= 'Z') || ('0' <= c && c <= '9') || c == '_'
}

pub fn xml_name_start_exec(c: char) -> (r: bool)
    ensures
        r == xml_name_start(c),
{
    ('a' <= c && c <= 'z') || ('A' <= c && c <= 'Z') || c == '_' || c == ':' || (c as u32) >= 0x80
}

pub fn xml_name_char_exec(c: char) -> (r: bool)
    ensures
        r == xml_name_char(c),
{
    xml_name_start_exec(c) || ('0' <= c && c <= '9') || c == '-' || c == '.'
}

impl Span {
    /// Counts the characters from `start` on that belong to class `k`.
    pub fn run_len_from(&self, start: usize, k: CharClass) -> (r: usize)
        requires
            start <= self@.len(),
        ensures
            r == start + run_len(self@.data.skip(start as int), class_pred(k)),
            start <= r <= self@.len(),
    {
        let len = self.len();
        let mut i = start;
        while i < len && class_matches(&k, self.char_at(i))
            invariant
                start <= i <= len,
                len == self@.len(),
                forall|j: int| start <= j < i ==> class_pred(k)(#[trigger] self@.data[j]),
            decreases len - i,
        {
            i = i + 1;
        }
        proof {
            let t = self@.data.skip(start as int);
            assert forall|j: int| 0 <= j < i - start implies class_pred(k)(#[trigger] t[j]) by {
                assert(t[j] == self@.data[start + j]);
            }
            if i - start < t.len() {
                assert(t[i - start] == self@.data[i as int]);
            }
            lemma_run_len_unique(t, class_pred(k), i - start);
        }
        i
    }

    /// The length of the first `end` characters once trailing characters of
    /// class `k` are removed.
    pub fn trimmed_len_to(&self, end: usize, k: CharClass) -> (r: usize)
        requires
            end <= self@.len(),
        ensures
            r == trimmed_len(self@.data.take(end as int), class_pred(k)),
            r <= end,
    {
        let mut i = end;
        while i > 0 && class_matches(&k, self.char_at(i - 1))
            invariant
                i <= end <= self@.len(),
                forall|j: int| i <= j < end ==> class_pred(k)(#[trigger] self@.data[j]),
            decreases i,
        {
            i = i - 1;
        }
        proof {
            let t = self@.data.take(end as int);
            assert forall|j: int| i <= j < t.len() implies class_pred(k)(#[trigger] t[j]) by {
                assert(t[j] == self@.data[j]);
            }
            if i > 0 {
                assert(t[i - 1] == self@.data[i - 1]);
            }
            lemma_trimmed_len_unique(t, class_pred(k), i as int);
        }
        i
    }

    /// Returns `true` if this span starts with `prefix`.
    pub fn starts_with(&self, prefix: &str) -> (r: bool)
        ensures
            r == self@.starts_with(prefix@),
    {
        let n = prefix.unicode_len();
        let len = self.len();
        if n > len {
            return false;
        }
        let mut i: usize = 0;
        while i < n
            invariant
                i <= n <= len,
                n == prefix@.len(),
                len == self@.len(),
                forall|j: int| 0 <= j < i ==> self@.data[j] == prefix@[j],
            decreases n - i,
        {
            if self.char_at(i) != prefix.get_char(i) {
                proof {
                    assert(self@.data.take(n as int)[i as int] != prefix@[i as int]);
                }
                return false;
            }
            i = i + 1;
        }
        assert(self@.data.take(n as int) =~= prefix@);
        true
    }

    /// Returns `true` if this span starts with the character `c`.
    pub fn starts_with_char(&self, c: char) -> (r: bool)
        ensures
            r == (self@.len() > 0 && self@.data[0] == c),
    {
        self.len() > 0 && self.char_at(0) == c
    }

    /// Returns `true` if this span ends with `suffix`.
    pub fn ends_with(&self, suffix: &str) -> (r: bool)
        ensures
            r == self@.ends_with(suffix@),
    {
        let n = suffix.unicode_len();
        let len = self.len();
        if n > len {
            return false;
        }
        let base = len - n;
        let mut i: usize = 0;
        while i < n
            invariant
                i <= n <= len,
                base == len - n,
                n == suffix@.len(),
                len == self@.len(),
                forall|j: int| 0 <= j < i ==> self@.data[base + j] == suffix@[j],
            decreases n - i,
        {
            if self.char_at(base + i) != suffix.get_char(i) {
                proof {
                    assert(self@.data.skip(base as int)[i as int] != suffix@[i as int]);
                }
                return false;
            }
            i = i + 1;
        }
        assert(self@.data.skip(base as int) =~= suffix@);
        true
    }

    /// Returns `true` if this span ends with the character `c`.
    pub fn ends_with_char(&self, c: char) -> (r: bool)
        ensures
            r == (self@.len() > 0 && self@.data.last() == c),
    {
        let len = self.len();
        len > 0 && self.char_at(len - 1) == c
    }

    /// The index of the first `c` in this span, if any.
    pub fn position_of(&self, c: char) -> (r: Option<usize>)
        ensures
            r matches Some(i) ==> first_index_of(self@.data, c) == Some(i as int),
            r is None ==> first_index_of(self@.data, c) is None,
            r matches Some(i) ==> i < self@.len() && self@.data[i as int] == c,
            r is None ==> !self@.data.contains(c),
    {
        let k = self.run_len_from(0, CharClass::Not(c));
        proof {
            assert(self@.data.skip(0) =~= self@.data);
            lemma_run_len(self@.data, not_char(c));
        }
        if k < self.len() {
            Some(k)
        } else {
            proof {
                assert forall|j: int| 0 <= j < self@.len() implies self@.data[j] != c by {
                    assert(not_char(c)(self@.data[j]));
                }
            }
            None
        }
    }

    /// Returns `true` if the character `c` occurs in this span.
    pub fn contains_char(&self, c: char) -> (r: bool)
        ensures
            r == self@.data.contains(c),
    {
        match self.position_of(c) {
            Some(_) => true,
            None => false,
        }
    }

    /// Returns `true` if `needle` occurs in this span.
    pub fn contains_str(&self, needle: &str) -> (r: bool)
        ensures
            r == seq_contains_seq(self@.data, needle@),
    {
        let n = needle.unicode_len();
        let len = self.len();
        if n > len {
            return false;
        }
        if n == 0 {
            assert(self@.data.subrange(0int, 0int + needle@.len()) =~= needle@);
            return true;
        }
        let mut i: usize = 0;
        while i <= len - n
            invariant
                n == needle@.len(),
                len == self@.len(),
                1 <= n <= len,
                i <= len - n + 1,
                forall|k: int| 0 <= k < i ==> #[trigger] self@.data.subrange(k, k + n) != needle@,
            decreases len - n + 1 - i,
        {
            let mut j: usize = 0;
            let mut ok = true;
            while j < n && ok
                invariant
                    j <= n,
                    n == needle@.len(),
                    len == self@.len(),
                    i + n <= len,
                    ok ==> forall|m: int| 0 <= m < j ==> self@.data[i + m] == needle@[m],
                    !ok ==> self@.data.subrange(i as int, i + n) != needle@,
                decreases n - j + (if ok {
                    1int
                } else {
                    0int
                }),
            {
                if self.char_at(i + j) != needle.get_char(j) {
                    proof {
                        assert(self@.data.subrange(i as int, i + n)[j as int] != needle@[j as int]);
                    }
                    ok = false;
                } else {
                    j = j + 1;
                }
            }
            if ok {
                assert(self@.data.subrange(i as int, i + needle@.len()) =~= needle@);
                return true;
            }
            i = i + 1;
        }
        false
    }

    /// Splits off `prefix` if this span starts with it.
    pub fn take_prefix(&self, prefix: &str) -> (r: Option<MatchedItem<Span>>)
        requires
            self@.wf(),
        ensures
            r is Some == self@.starts_with(prefix@),
            r matches Some(mi) ==> {
                &&& mi.item@ == self@.sub(0, prefix@.len() as int)
                &&& mi.after@ == self@.skip(prefix@.len() as int)
                &&& mi.after@.wf()
            },
    {
        if self.starts_with(prefix) {
            Some(self.into_parse_result(prefix.unicode_len()))
        } else {
            None
        }
    }

    /// Splits off the longest prefix whose characters belong to class `k`.
    pub fn take_class(&self, k: CharClass) -> (r: MatchedItem<Span>)
        requires
            self@.wf(),
        ensures
            r.item@ == self@.sub(0, run_len(self@.data, class_pred(k))),
            r.after@ == self@.skip(run_len(self@.data, class_pred(k))),
            r.item@.wf(),
            r.after@.wf(),
    {
        let n = self.run_len_from(0, k);
        proof {
            assert(self@.data.skip(0) =~= self@.data);
        }
        self.into_parse_result(n)
    }

    /// Splits off the leading spaces and tabs.
    pub fn take_whitespace(&self) -> (r: MatchedItem<Span>)
        requires
            self@.wf(),
        ensures
            r.item@ == self@.sub(0, run_len(self@.data, blank_pred())),
            r.after@ == self@.skip(run_len(self@.data, blank_pred())),
            r.item@.wf(),
            r.after@.wf(),
    {
        self.take_class(CharClass::Blank)
    }

    /// Splits off the leading spaces, tabs and line breaks.
    pub fn take_whitespace_with_newline(&self) -> (r: MatchedItem<Span>)
        requires
            self@.wf(),
        ensures
            r.item@ == self@.sub(0, run_len(self@.data, ws_nl_pred())),
            r.after@ == self@.skip(run_len(self@.data, ws_nl_pred())),
            r.after@.wf(),
    {
        self.take_class(CharClass::WsNl)
    }

    /// Drops the leading spaces and tabs.
    pub fn discard_whitespace(&self) -> (r: Span)
        requires
            self@.wf(),
        ensures
            r@ == self@.skip(run_len(self@.data, blank_pred())),
            r@.wf(),
    {
        self.take_whitespace().after
    }

    /// Splits off leading spaces and tabs, of which there must be at least
    /// one.
    pub fn take_required_whitespace(&self) -> (r: Option<MatchedItem<Span>>)
        requires
            self@.wf(),
        ensures
            r is Some == (run_len(self@.data, blank_pred()) > 0),
            r matches Some(mi) ==> {
                &&& mi.item@ == self@.sub(0, run_len(self@.data, blank_pred()))
                &&& mi.after@ == self@.skip(run_len(self@.data, blank_pred()))
                &&& mi.after@.wf()
            },
    {
        let mi = self.take_whitespace();
        proof {
            lemma_run_len(self@.data, blank_pred());
        }
        if mi.item.is_empty() {
            None
        } else {
            Some(mi)
        }
    }

    /// Splits off the first line, without its line ending.
    pub fn take_line(&self) -> (r: MatchedItem<Span>)
        requires
            self@.wf(),
        ensures
            r.item@ == self@.sub(0, line_item_len(self@.data)),
            r.after@ == self@.skip(line_after_len(self@.data)),
            r.item@.wf(),
            r.after@.wf(),
    {
        proof {
            lemma_line_lens(self@.data);
            assert(self@.data.skip(0) =~= self@.data);
        }
        let k = self.run_len_from(0, CharClass::Not('\n'));
        let item_len = if k > 0 && self.char_at(k - 1) == '\r' {
            k - 1
        } else {
            k
        };
        let after_len = if k < self.len() {
            k + 1
        } else {
            k
        };
        MatchedItem { item: self.slice_to(item_len), after: self.discard(after_len) }
    }

    /// Splits off the first line, without its line ending or trailing
    /// whitespace.
    pub fn take_normalized_line(&self) -> (r: MatchedItem<Span>)
        requires
            self@.wf(),
        ensures
            r.item@ == self@.sub(0, normalized_line_len(self@.data)),
            r.after@ == self@.skip(line_after_len(self@.data)),
            r.item@.wf(),
            r.after@.wf(),
    {
        proof {
            lemma_line_lens(self@.data);
            assert(self@.data.skip(0) =~= self@.data);
        }
        let k = self.run_len_from(0, CharClass::Not('\n'));
        let t = self.trimmed_len_to(k, CharClass::TrailingWs);
        let after_len = if k < self.len() {
            k + 1
        } else {
            k
        };
        MatchedItem { item: self.slice_to(t), after: self.discard(after_len) }
    }

    /// Splits off the first line if it holds anything but whitespace.
    pub fn take_non_empty_line(&self) -> (r: Option<MatchedItem<Span>>)
        requires
            self@.wf(),
        ensures
            r is Some == (normalized_line_len(self@.data) > 0),
            r matches Some(mi) ==> {
                &&& mi.item@ == self@.sub(0, line_item_len(self@.data))
                &&& mi.after@ == self@.skip(line_after_len(self@.data))
                &&& mi.item@.wf()
                &&& mi.after@.wf()
            },
    {
        let norm = self.take_normalized_line();
        proof {
            lemma_line_lens(self@.data);
        }
        if norm.item.is_empty() {
            None
        } else {
            Some(self.take_line())
        }
    }

    /// Drops any lines at the start that hold only whitespace.
    pub fn discard_empty_lines(&self) -> (r: Span)
        requires
            self@.wf(),
        ensures
            r@ == self@.skip(empty_lines_len(self@.data)),
            r@.wf(),
            r@.is_suffix_of(self@),
    {
        let mut cur = self.copy();
        proof {
            lemma_suffix_refl(self@);
            assert(self@.data.skip(0) =~= self@.data);
        }
        loop
            invariant
                self@.wf(),
                cur@.wf(),
                cur@.is_suffix_of(self@),
                empty_lines_len(self@.data) == (self@.len() - cur@.len()) + empty_lines_len(
                    cur@.data,
                ),
            ensures
                empty_lines_len(cur@.data) == 0,
            decreases cur@.len(),
        {
            if cur.is_empty() {
                break;
            }
            let line = cur.take_normalized_line();
            proof {
                lemma_line_lens(cur@.data);
            }
            if !line.item.is_empty() {
                break;
            }
            proof {
                lemma_line_lens(cur@.data);
                let a = line_after_len(cur@.data);
                lemma_skip_skip(self@, self@.len() - cur@.len(), a);
                lemma_empty_lines_len(cur@.data.skip(a));
            }
            cur = line.after;
        }
        proof {
            lemma_empty_lines_len(self@.data);
        }
        cur
    }

    /// The part of this span that comes before `after`, where `after` is a
    /// tail of this span.
    pub fn trim_remainder(&self, after: &Span) -> (r: Span)
        requires
            self@.wf(),
        ensures
            after@.len() <= self@.len() ==> r@ == self@.sub(0, self@.len() - after@.len()),
            after@.len() > self@.len() ==> r@ == self@.sub(0, 0),
            r@.wf(),
    {
        let n = self.len();
        let m = after.len();
        if m <= n {
            self.slice_to(n - m)
        } else {
            self.slice_to(0)
        }
    }

    /// Drops trailing whitespace (including line breaks).
    pub fn trim_trailing_whitespace(&self) -> (r: Span)
        requires
            self@.wf(),
        ensures
            r@ == self@.sub(0, trimmed_len(self@.data, trailing_ws_pred())),
            r@.wf(),
    {
        let len = self.len();
        let t = self.trimmed_len_to(len, CharClass::TrailingWs);
        proof {
            assert(self@.data.take(len as int) =~= self@.data);
        }
        self.slice_to(t)
    }

    /// Drops a single trailing line ending (`\n` or `\r\n`), if there is one.
    pub fn trim_trailing_line_end(&self) -> (r: Span)
        requires
            self@.wf(),
        ensures
            r@ == self@.sub(
                0,
                if self@.len() > 0 && self@.data.last() == '\n' {
                    if self@.len() > 1 && self@.data[self@.len() - 2] == '\r' {
                        self@.len() - 2
                    } else {
                        self@.len() - 1
                    }
                } else {
                    self@.len()
                },
            ),
            r@.wf(),
    {
        let len = self.len();
        if len > 0 && self.char_at(len - 1) == '\n' {
            if len > 1 && self.char_at(len - 2) == '\r' {
                self.slice_to(len - 2)
            } else {
                self.slice_to(len - 1)
            }
        } else {
            self.slice_to(len)
        }
    }

    /// The first `trim_len` characters: the length of this span once leading
    /// and trailing whitespace are removed.
    pub fn trim_len(&self) -> (r: usize)
        ensures
            r == trim_len(self@.data),
    {
        let len = self.len();
        let t = self.trimmed_len_to(len, CharClass::TrailingWs);
        let l = self.run_len_from(0, CharClass::TrailingWs);
        proof {
            assert(self@.data.take(len as int) =~= self@.data);
            assert(self@.data.skip(0) =~= self@.data);
        }
        if l >= t {
            0
        } else {
            t - l
        }
    }

    /// Splits off an identifier (`[A-Za-z_][A-Za-z0-9_]*`).
    pub fn take_ident(&self) -> (r: Option<MatchedItem<Span>>)
        requires
            self@.wf(),
        ensures
            r is Some == (ident_len(self@.data) > 0),
            r matches Some(mi) ==> {
                &&& mi.item@ == self@.sub(0, ident_len(self@.data))
                &&& mi.after@ == self@.skip(ident_len(self@.data))
                &&& mi.after@.wf()
                &&& mi.item@.wf()
            },
    {
        if self.len() == 0 {
            return None;
        }
        let c = self.char_at(0);
        if !(('a' <= c && c <= 'z') || ('A' <= c && c <= 'Z') || c == '_') {
            return None;
        }
        let n = self.run_len_from(1, CharClass::Word);
        Some(self.into_parse_result(n))
    }

    /// Splits off an attribute name (`[A-Za-z0-9_][A-Za-z0-9_-]*`).
    pub fn take_attr_name(&self) -> (r: Option<MatchedItem<Span>>)
        requires
            self@.wf(),
        ensures
            r is Some == (attr_name_len(self@.data) > 0),
            r matches Some(mi) ==> {
                &&& mi.item@ == self@.sub(0, attr_name_len(self@.data))
                &&& mi.after@ == self@.skip(attr_name_len(self@.data))
                &&& mi.after@.wf()
                &&& mi.item@.wf()
            },
    {
        if self.len() == 0 {
            return None;
        }
        if !is_word_char_exec(self.char_at(0)) {
            return None;
        }
        let n = self.run_len_from(1, CharClass::AttrName);
        Some(self.into_parse_result(n))
    }

    /// Splits off a quoted string that starts this span. The item holds the
    /// text between the quotes; the closing quote is the first one of the
    /// same kind that does not follow a backslash.
    pub fn take_quoted_string(&self) -> (r: Option<MatchedItem<Span>>)
        requires
            self@.wf(),
        ensures
            r is Some == (self@.len() > 0 && is_quote(self@.data[0]) && closing_quote_from(
                self@.data,
                1,
            ) is Some),
            r matches Some(mi) ==> {
                let e = closing_quote_from(self@.data, 1)->0;
                &&& mi.item@ == self@.sub(1, e)
                &&& mi.after@ == self@.skip(e + 1)
                &&& mi.item@.wf()
                &&& mi.after@.wf()
            },
    {
        let len = self.len();
        if len == 0 {
            return None;
        }
        let q = self.char_at(0);
        if q != '\'' && q != '"' {
            return None;
        }
        let mut i: usize = 1;
        while i < len
            invariant
                self@.wf(),
                1 <= i <= len,
                len == self@.len(),
                q == self@.data[0],
                is_quote(q),
                closing_quote_from(self@.data, 1) == closing_quote_from(self@.data, i as int),
            decreases len - i,
        {
            if self.char_at(i) == q && self.char_at(i - 1) != '\\' {
                assert(closing_quote_from(self@.data, i as int) == Some(i as int));
                assert(is_quote(self@.data[0]));
                assert(closing_quote_from(self@.data, 1) is Some);
                return Some(
                    MatchedItem { item: self.slice(1, i), after: self.discard(i + 1) },
                );
            }
            i = i + 1;
        }
        None
    }

    /// Returns `true` if this span is a valid XML name.
    pub fn is_xml_name(&self) -> (r: bool)
        ensures
            r == is_xml_name_seq(self@.data),
    {
        let len = self.len();
        if len == 0 {
            return false;
        }
        if !xml_name_start_exec(self.char_at(0)) {
            return false;
        }
        let mut i: usize = 1;
        while i < len
            invariant
                1 <= i <= len,
                len == self@.len(),
                forall|j: int| 1 <= j < i ==> xml_name_char(#[trigger] self@.data[j]),
            decreases len - i,
        {
            if !xml_name_char_exec(self.char_at(i)) {
                return false;
            }
            i = i + 1;
        }
        true
    }
}

impl MatchedItem<Span> {
    /// Drops trailing spaces and tabs from the matched item.
    pub fn trim_item_trailing_spaces(&self) -> (r: MatchedItem<Span>)
        requires
            self.item@.wf(),
        ensures
            r.item@ == self.item@.sub(0, trimmed_len(self.item@.data, blank_pred())),
            r.after@ == self.after@,
            r.item@.wf(),
    {
        let len = self.item.len();
        let t = self.item.trimmed_len_to(len, CharClass::Blank);
        proof {
            assert(self.item@.data.take(len as int) =~= self.item@.data);
        }
        MatchedItem { item: self.item.slice_to(t), after: self.after.copy() }
    }
}

} // verus!
