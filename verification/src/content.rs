use vstd::prelude::*;
use vstd::string::StrSliceExecFns;

use crate::parser::{Parser, attr_lookup};
use crate::span::{Span, SpanView, attr_name_len, attr_name_pred, lemma_run_len_unique};
use crate::text::{chars_to_string, push_str, str_eq, str_to_chars};
use crate::attributes::attrlist::{Attrlist, AttrlistView};
use crate::span::{is_word_char, is_word_char_exec};

verus! {

/// What the special-characters substitution turns one character into.
pub open spec fn escape_char(c: char) -> Seq<char> {
    if c == '&' {
        "&amp;"@
    } else if c == '<' {
        "&lt;"@
    } else if c == '>' {
        "&gt;"@
    } else {
        seq![c]
    }
}

/// The special-characters substitution: `&`, `<` and `>` become entity
/// references.
pub open spec fn special_chars(s: Seq<char>) -> Seq<char>
    decreases s.len(),
{
    if s.len() == 0 {
        Seq::empty()
    } else {
        special_chars(s.drop_last()) + escape_char(s.last())
    }
}

/// Length of an attribute reference `{name}` at index `i` of `s` (`0` if
/// there is none there).
pub open spec fn attr_ref_len(s: Seq<char>, i: int) -> int {
    let k = attr_name_len(s.skip(i + 1));
    if 0 <= i < s.len() && s[i] == '{' && k > 0 && i + 1 + k < s.len() && s[i + 1 + k] == '}' {
        k + 2
    } else {
        0
    }
}

/// The attribute-references substitution applied to `s` from index `i` on:
/// each `{name}` whose attribute is set is replaced by its value; anything
/// else is kept.
pub open spec fn attr_refs_from(
    s: Seq<char>,
    i: int,
    attrs: Seq<(Seq<char>, Option<Seq<char>>)>,
) -> Seq<char>
    decreases s.len() - i,
{
    if i < 0 || i >= s.len() {
        Seq::empty()
    } else {
        let n = attr_ref_len(s, i);
        if n > 0 && attr_lookup(attrs, s.subrange(i + 1, i + n - 1)) is Some {
            attr_lookup(attrs, s.subrange(i + 1, i + n - 1))->0 + attr_refs_from(s, i + n, attrs)
        } else {
            seq![s[i]] + attr_refs_from(s, i + 1, attrs)
        }
    }
}

pub open spec fn attr_refs(s: Seq<char>, attrs: Seq<(Seq<char>, Option<Seq<char>>)>) -> Seq<char> {
    attr_refs_from(s, 0, attrs)
}

/// A whitespace character, as `\s` of the quotes patterns matches it.
pub open spec fn is_space(c: char) -> bool {
    c == ' ' || c == '\t' || c == '\n' || c == '\r' || c == '\x0b' || c == '\x0c'
}

/// The tag that opens the text that the mark `m` quotes: `*` strong,
/// `` ` `` monospace, `_` emphasis, `^` superscript, `~` subscript, `#`
/// marked.
pub open spec fn open_tag(m: char) -> Seq<char> {
    if m == '*' {
        "<strong>"@
    } else if m == '`' {
        "<code>"@
    } else if m == '_' {
        "<em>"@
    } else if m == '^' {
        "<sup>"@
    } else if m == '~' {
        "<sub>"@
    } else {
        "<mark>"@
    }
}

/// The tag that closes the text that the mark `m` quotes.
pub open spec fn close_tag(m: char) -> Seq<char> {
    if m == '*' {
        "</strong>"@
    } else if m == '`' {
        "</code>"@
    } else if m == '_' {
        "</em>"@
    } else if m == '^' {
        "</sup>"@
    } else if m == '~' {
        "</sub>"@
    } else {
        "</mark>"@
    }
}

/// A character that may not come right before the opening mark `m` of
/// constrained quoted text: a word character, `;`, `:` or `}` (and, for
/// monospace, a quote or a backtick).
pub open spec fn blocks_open(m: char, c: char) -> bool {
    is_word_char(c) || c == ';' || c == ':' || c == '}' || (m == '`' && (c == '"' || c == '\'' || c == '`'))
}

/// A character that may not come right after the closing mark `m` of
/// constrained quoted text: a word character (and, for monospace, a quote
/// or a backtick).
pub open spec fn blocks_close(m: char, c: char) -> bool {
    is_word_char(c) || (m == '`' && (c == '"' || c == '\'' || c == '`'))
}

/// Index of the first doubled mark `m` at or after index `j` of `s`
/// (`s.len()` if there is none).
pub open spec fn double_mark_from(s: Seq<char>, m: char, j: int) -> int
    decreases s.len() - j,
{
    if j < 0 || j + 1 >= s.len() {
        s.len() as int
    } else if s[j] == m && s[j + 1] == m {
        j
    } else {
        double_mark_from(s, m, j + 1)
    }
}

/// Index of the first mark `m` at or after index `j` of `s` that can close
/// constrained quoted text: not after whitespace, and not before a
/// character of [`blocks_close`] (`s.len()` if there is none).
pub open spec fn constrained_close_from(s: Seq<char>, m: char, j: int) -> int
    decreases s.len() - j,
{
    if j < 1 || j >= s.len() {
        s.len() as int
    } else if s[j] == m && !is_space(s[j - 1]) && (j + 1 == s.len() || !blocks_close(m, s[j + 1])) {
        j
    } else {
        constrained_close_from(s, m, j + 1)
    }
}

/// Unconstrained quoted text from index `i` of `s` on: each text between
/// doubled marks `m` (the shortest, with some text inside) is wrapped in
/// the tags of `m` in place of the marks.
pub open spec fn unconstrained_from(s: Seq<char>, m: char, i: int) -> Seq<char>
    decreases s.len() - i,
{
    if i < 0 || i >= s.len() {
        Seq::empty()
    } else {
        let j = double_mark_from(s, m, i + 3);
        if s[i] == m && i + 1 < s.len() && s[i + 1] == m && i < j && j + 1 < s.len() {
            open_tag(m) + s.subrange(i + 2, j) + close_tag(m) + unconstrained_from(s, m, j + 2)
        } else {
            seq![s[i]] + unconstrained_from(s, m, i + 1)
        }
    }
}

/// Constrained quoted text from index `i` of `s` on: each text between
/// single marks `m` whose opening mark comes at the start or after a
/// character that is free (`free` says whether the one before `i` is not
/// part of a previous match) and not one of [`blocks_open`], whose text
/// starts and ends with a non-blank, and whose closing mark is as
/// [`constrained_close_from`] finds it, is wrapped in the tags of `m` in
/// place of the marks.
pub open spec fn constrained_from(s: Seq<char>, m: char, i: int, free: bool) -> Seq<char>
    decreases s.len() - i,
{
    if i < 0 || i >= s.len() {
        Seq::empty()
    } else {
        let j = constrained_close_from(s, m, i + 2);
        if s[i] == m && (i == 0 || (free && !blocks_open(m, s[i - 1]))) && i + 1 < s.len() && !is_space(
            s[i + 1],
        ) && i < j && j < s.len() {
            open_tag(m) + s.subrange(i + 1, j) + close_tag(m) + constrained_from(s, m, j + 1, false)
        } else {
            seq![s[i]] + constrained_from(s, m, i + 1, true)
        }
    }
}

/// Quoted text of the mark `m`: unconstrained first, then constrained.
pub open spec fn quote_pass(s: Seq<char>, m: char) -> Seq<char> {
    constrained_from(unconstrained_from(s, m, 0), m, 0, true)
}

/// Index of the first mark `m` at or after index `j` of `s`, where no
/// whitespace comes before it from `j` on (`s.len()` if there is none).
pub open spec fn script_close_from(s: Seq<char>, m: char, j: int) -> int
    decreases s.len() - j,
{
    if j < 0 || j >= s.len() {
        s.len() as int
    } else if s[j] == m {
        j
    } else if is_space(s[j]) {
        s.len() as int
    } else {
        script_close_from(s, m, j + 1)
    }
}

/// Superscript (`^`) or subscript (`~`) text from index `i` of `s` on:
/// each text of non-blank characters between two marks `m` (the shortest)
/// is wrapped in the tags of `m` in place of the marks.
pub open spec fn script_from(s: Seq<char>, m: char, i: int) -> Seq<char>
    decreases s.len() - i,
{
    if i < 0 || i >= s.len() {
        Seq::empty()
    } else {
        let j = script_close_from(s, m, i + 2);
        if s[i] == m && i + 1 < s.len() && !is_space(s[i + 1]) && i < j && j < s.len() {
            open_tag(m) + s.subrange(i + 1, j) + close_tag(m) + script_from(s, m, j + 1)
        } else {
            seq![s[i]] + script_from(s, m, i + 1)
        }
    }
}

/// The quotes substitution: strong, monospace, emphasis, marked,
/// superscript, then subscript text.
#[verifier::opaque]
pub open spec fn quotes(s: Seq<char>) -> Seq<char> {
    let q = quote_pass(quote_pass(quote_pass(quote_pass(s, '*'), '`'), '_'), '#');
    script_from(script_from(q, '^', 0), '~', 0)
}

/// A single substitution that can be applied to text.
#[derive(Clone, Copy, Debug, PartialEq, Eq, Structural)]
pub enum SubstitutionStep {
    /// `&`, `<` and `>` become entity references.
    SpecialCharacters,
    /// Quoted text (strong, monospace, emphasis, marked, superscript and
    /// subscript) becomes markup.
    Quotes,
    /// `{name}` becomes the value of the attribute `name`.
    AttributeReferences,
}

/// Groups of substitutions that are applied to text.
#[derive(Clone, Debug, PartialEq, Eq)]
pub enum SubstitutionGroup {
    /// Special characters, quotes (strong, monospace, emphasis, marked,
    /// superscript and subscript text), then attribute references.
    Normal,
    /// As `Normal`; used for section titles.
    Title,
    /// Special characters only.
    Verbatim,
    /// No substitutions (passthrough content).
    Pass,
    /// No substitutions.
    NoSubstitutions,
    /// The given steps, in order.
    Custom(Vec<SubstitutionStep>),
}

/// A substitution group, as a model.
pub enum GroupView {
    Normal,
    Title,
    Verbatim,
    Pass,
    NoSubstitutions,
    Custom(Seq<SubstitutionStep>),
}

impl View for SubstitutionGroup {
    type V = GroupView;

    open spec fn view(&self) -> GroupView {
        match self {
            SubstitutionGroup::Normal => GroupView::Normal,
            SubstitutionGroup::Title => GroupView::Title,
            SubstitutionGroup::Verbatim => GroupView::Verbatim,
            SubstitutionGroup::Pass => GroupView::Pass,
            SubstitutionGroup::NoSubstitutions => GroupView::NoSubstitutions,
            SubstitutionGroup::Custom(v) => GroupView::Custom(v@),
        }
    }
}

/// What applying the step `st` makes of `text`.
pub open spec fn apply_step(
    st: SubstitutionStep,
    text: Seq<char>,
    attrs: Seq<(Seq<char>, Option<Seq<char>>)>,
) -> Seq<char> {
    match st {
        SubstitutionStep::SpecialCharacters => special_chars(text),
        SubstitutionStep::Quotes => quotes(text),
        SubstitutionStep::AttributeReferences => attr_refs(text, attrs),
    }
}

/// What applying the steps `steps`, first to last, makes of `text`.
pub open spec fn apply_steps(
    steps: Seq<SubstitutionStep>,
    text: Seq<char>,
    attrs: Seq<(Seq<char>, Option<Seq<char>>)>,
) -> Seq<char>
    decreases steps.len(),
{
    if steps.len() == 0 {
        text
    } else {
        apply_step(steps.last(), apply_steps(steps.drop_last(), text, attrs), attrs)
    }
}

/// What applying group `g` makes of `text`.
pub open spec fn apply_group(
    g: GroupView,
    text: Seq<char>,
    attrs: Seq<(Seq<char>, Option<Seq<char>>)>,
) -> Seq<char> {
    match g {
        GroupView::Normal | GroupView::Title => attr_refs(quotes(special_chars(text)), attrs),
        GroupView::Verbatim => special_chars(text),
        GroupView::Pass | GroupView::NoSubstitutions => text,
        GroupView::Custom(steps) => apply_steps(steps, text, attrs),
    }
}

/// Text from the source together with its rendering once substitutions
/// are applied.
#[derive(Debug, PartialEq, Eq)]
pub struct Content {
    original: Span,
    rendered: String,
}

pub struct ContentView {
    pub original: SpanView,
    pub rendered: Seq<char>,
}

impl View for Content {
    type V = ContentView;

    closed spec fn view(&self) -> ContentView {
        ContentView { original: self.original@, rendered: self.rendered@ }
    }
}

/// Applies the special-characters substitution to `s`.
pub fn apply_special_chars(s: &Vec<char>) -> (r: Vec<char>)
    ensures
        r@ == special_chars(s@),
{
    let mut out: Vec<char> = Vec::new();
    let n = s.len();
    let mut i: usize = 0;
    while i < n
        invariant
            n == s@.len(),
            i <= n,
            out@ == special_chars(s@.take(i as int)),
        decreases n - i,
    {
        let c = s[i];
        if c == '&' {
            push_str(&mut out, "&amp;");
        } else if c == '<' {
            push_str(&mut out, "&lt;");
        } else if c == '>' {
            push_str(&mut out, "&gt;");
        } else {
            out.push(c);
            assert(out@ =~= special_chars(s@.take(i as int)) + seq![c]);
        }
        proof {
            assert(s@.take(i + 1).drop_last() =~= s@.take(i as int));
            assert(s@.take(i + 1).last() == c);
        }
        i = i + 1;
    }
    assert(s@.take(n as int) =~= s@);
    out
}

/// Length of the attribute name that starts at index `j` of `s`.
fn attr_name_len_at(s: &Vec<char>, j: usize) -> (r: usize)
    requires
        j <= s@.len(),
    ensures
        r == attr_name_len(s@.skip(j as int)),
        j + r <= s@.len(),
{
    let n = s.len();
    if j >= n || !is_word_char_exec(s[j]) {
        return 0;
    }
    let mut i = j + 1;
    while i < n && (is_word_char_exec(s[i]) || s[i] == '-')
        invariant
            j < i <= n,
            n == s@.len(),
            forall|m: int| j + 1 <= m < i ==> attr_name_pred()(#[trigger] s@[m]),
        decreases n - i,
    {
        i = i + 1;
    }
    proof {
        let t = s@.skip(j as int).skip(1);
        assert forall|m: int| 0 <= m < i - j - 1 implies attr_name_pred()(#[trigger] t[m]) by {
            assert(t[m] == s@[j + 1 + m]);
        }
        if i - j - 1 < t.len() {
            assert(t[i - j - 1] == s@[i as int]);
        }
        lemma_run_len_unique(t, attr_name_pred(), i - j - 1);
    }
    i - j
}

fn slice_to_vec(s: &Vec<char>, start: usize, end: usize) -> (r: Vec<char>)
    requires
        start <= end <= s@.len(),
    ensures
        r@ == s@.subrange(start as int, end as int),
{
    let mut out: Vec<char> = Vec::new();
    let mut i = start;
    while i < end
        invariant
            start <= i <= end <= s@.len(),
            out@ == s@.subrange(start as int, i as int),
        decreases end - i,
    {
        out.push(s[i]);
        assert(out@ =~= s@.subrange(start as int, i + 1));
        i = i + 1;
    }
    out
}

/// Applies the attribute-references substitution to `s` using the
/// attributes of `parser`.
pub fn apply_attr_refs(s: &Vec<char>, parser: &Parser) -> (r: Vec<char>)
    ensures
        r@ == attr_refs(s@, parser@.attributes),
{
    let mut out: Vec<char> = Vec::new();
    let n = s.len();
    let mut i: usize = 0;
    while i < n
        invariant
            n == s@.len(),
            i <= n,
            attr_refs(s@, parser@.attributes) == out@ + attr_refs_from(s@, i as int, parser@.attributes),
        decreases n - i,
    {
        let mut replaced = false;
        if s[i] == '{' {
            let k = attr_name_len_at(s, i + 1);
            if k > 0 && i + 1 + k < n && s[i + 1 + k] == '}' {
                let name = chars_to_string(&slice_to_vec(s, i + 1, i + 1 + k));
                match parser.attribute_value(name.as_str()) {
                    Some(v) => {
                        let ghost before = out@;
                        push_str(&mut out, v);
                        proof {
                            assert(attr_ref_len(s@, i as int) == k + 2);
                            assert(out@ + attr_refs_from(s@, i + k + 2, parser@.attributes) =~= before
                                + attr_refs_from(s@, i as int, parser@.attributes));
                        }
                        i = i + k + 2;
                        replaced = true;
                    },
                    None => {},
                }
            }
        }
        if !replaced {
            let ghost before = out@;
            out.push(s[i]);
            proof {
                assert(out@ + attr_refs_from(s@, i + 1, parser@.attributes) =~= before
                    + attr_refs_from(s@, i as int, parser@.attributes));
            }
            i = i + 1;
        }
    }
    out
}

/// Returns `true` if `c` is whitespace, as [`is_space`] says.
fn is_space_exec(c: char) -> (r: bool)
    ensures
        r == is_space(c),
{
    c == ' ' || c == '\t' || c == '\n' || c == '\r' || c == '\x0b' || c == '\x0c'
}

/// The tag that opens the text that the mark `m` quotes.
fn open_tag_str(m: char) -> (r: &'static str)
    ensures
        r@ == open_tag(m),
{
    if m == '*' {
        "<strong>"
    } else if m == '`' {
        "<code>"
    } else if m == '_' {
        "<em>"
    } else if m == '^' {
        "<sup>"
    } else if m == '~' {
        "<sub>"
    } else {
        "<mark>"
    }
}

/// The tag that closes the text that the mark `m` quotes.
fn close_tag_str(m: char) -> (r: &'static str)
    ensures
        r@ == close_tag(m),
{
    if m == '*' {
        "</strong>"
    } else if m == '`' {
        "</code>"
    } else if m == '_' {
        "</em>"
    } else if m == '^' {
        "</sup>"
    } else if m == '~' {
        "</sub>"
    } else {
        "</mark>"
    }
}

/// Index of the first doubled mark `m` after index `j` of `s` (`s.len()` if
/// none).
fn find_double_mark_after(s: &Vec<char>, m: char, j: usize) -> (r: usize)
    ensures
        r == double_mark_from(s@, m, j + 1),
{
    let n = s.len();
    if j >= n {
        return n;
    }
    let mut k = j + 1;
    while k < n && k + 1 < n
        invariant
            n == s@.len(),
            j + 1 <= k,
            double_mark_from(s@, m, j + 1) == double_mark_from(s@, m, k as int),
        decreases n - k,
    {
        if s[k] == m && s[k + 1] == m {
            return k;
        }
        k = k + 1;
    }
    n
}

/// Index of the first mark `m` at or after index `j` of `s` that can close
/// constrained quoted text (`s.len()` if none).
fn find_constrained_close(s: &Vec<char>, m: char, j: usize) -> (r: usize)
    requires
        1 <= j,
    ensures
        r == constrained_close_from(s@, m, j as int),
{
    let n = s.len();
    let mut k = j;
    while k < n
        invariant
            n == s@.len(),
            1 <= j <= k,
            constrained_close_from(s@, m, j as int) == constrained_close_from(s@, m, k as int),
        decreases n - k,
    {
        if s[k] == m && !is_space_exec(s[k - 1]) && (k + 1 == n || !(is_word_char_exec(s[k + 1]) || (m == '`'
            && (s[k + 1] == '"' || s[k + 1] == '\'' || s[k + 1] == '`')))) {
            return k;
        }
        k = k + 1;
    }
    n
}

/// A doubled mark found at or after index `k` is at or after `k`.
proof fn lemma_double_mark_from_ge(s: Seq<char>, m: char, k: int)
    ensures
        double_mark_from(s, m, k) < s.len() ==> double_mark_from(s, m, k) >= k,
    decreases s.len() - k,
{
    if k >= 0 && k + 1 < s.len() && !(s[k] == m && s[k + 1] == m) {
        lemma_double_mark_from_ge(s, m, k + 1);
    }
}

/// Applies the unconstrained substitution of the mark `m` to `s`.
pub fn apply_unconstrained(s: &Vec<char>, m: char) -> (r: Vec<char>)
    ensures
        r@ == unconstrained_from(s@, m, 0),
{
    let mut out: Vec<char> = Vec::new();
    let n = s.len();
    let mut i: usize = 0;
    while i < n
        invariant
            n == s@.len(),
            i <= n,
            unconstrained_from(s@, m, 0) == out@ + unconstrained_from(s@, m, i as int),
        decreases n - i,
    {
        let ghost before = out@;
        let ghost i0 = i as int;
        if s[i] == m && i + 1 < n && s[i + 1] == m {
            let j = find_double_mark_after(s, m, i + 2);
            proof {
                lemma_double_mark_from_ge(s@, m, i + 3);
            }
            if i < j && j < n && j + 1 < n {
                push_str(&mut out, open_tag_str(m));
                let mut inner = slice_to_vec(s, i + 2, j);
                out.append(&mut inner);
                push_str(&mut out, close_tag_str(m));
                i = j + 2;
                proof {
                    assert(out@ + unconstrained_from(s@, m, i as int) =~= before + unconstrained_from(s@, m, i0));
                }
                continue;
            }
        }
        out.push(s[i]);
        i = i + 1;
        proof {
            assert(out@ + unconstrained_from(s@, m, i as int) =~= before + unconstrained_from(s@, m, i0));
        }
    }
    out
}

/// Applies the constrained substitution of the mark `m` to `s`.
pub fn apply_constrained(s: &Vec<char>, m: char) -> (r: Vec<char>)
    ensures
        r@ == constrained_from(s@, m, 0, true),
{
    let mut out: Vec<char> = Vec::new();
    let n = s.len();
    let mut i: usize = 0;
    let mut free = true;
    while i < n
        invariant
            n == s@.len(),
            i <= n,
            i == 0 ==> free,
            constrained_from(s@, m, 0, true) == out@ + constrained_from(s@, m, i as int, free),
        decreases n - i,
    {
        let ghost before = out@;
        let ghost i0 = i as int;
        let ghost f0 = free;
        if s[i] == m && (i == 0 || (free && !(is_word_char_exec(s[i - 1]) || s[i - 1] == ';' || s[i - 1] == ':'
            || s[i - 1] == '}' || (m == '`' && (s[i - 1] == '"' || s[i - 1] == '\'' || s[i - 1] == '`')))))
            && i + 1 < n && !is_space_exec(s[i + 1]) {
            let j = find_constrained_close(s, m, i + 2);
            if i < j && j < n {
                push_str(&mut out, open_tag_str(m));
                let mut inner = slice_to_vec(s, i + 1, j);
                out.append(&mut inner);
                push_str(&mut out, close_tag_str(m));
                i = j + 1;
                free = false;
                proof {
                    assert(out@ + constrained_from(s@, m, i as int, free) =~= before + constrained_from(
                        s@,
                        m,
                        i0,
                        f0,
                    ));
                }
                continue;
            }
        }
        out.push(s[i]);
        i = i + 1;
        free = true;
        proof {
            assert(out@ + constrained_from(s@, m, i as int, free) =~= before + constrained_from(s@, m, i0, f0));
        }
    }
    out
}

/// Applies the quotes substitution of the mark `m` to `s`.
fn apply_quote_pass(s: &Vec<char>, m: char) -> (r: Vec<char>)
    ensures
        r@ == quote_pass(s@, m),
{
    apply_constrained(&apply_unconstrained(s, m), m)
}

/// Index of the first mark `m` at or after index `j` of `s` with no
/// whitespace before it from `j` on (`s.len()` if none).
fn find_script_close(s: &Vec<char>, m: char, j: usize) -> (r: usize)
    ensures
        r == script_close_from(s@, m, j as int),
{
    let n = s.len();
    let mut k = j;
    while k < n
        invariant
            n == s@.len(),
            j <= k,
            script_close_from(s@, m, j as int) == script_close_from(s@, m, k as int),
        decreases n - k,
    {
        if s[k] == m {
            return k;
        }
        if is_space_exec(s[k]) {
            return n;
        }
        k = k + 1;
    }
    n
}

/// Applies the superscript or subscript substitution of the mark `m` to
/// `s`.
pub fn apply_script(s: &Vec<char>, m: char) -> (r: Vec<char>)
    ensures
        r@ == script_from(s@, m, 0),
{
    let mut out: Vec<char> = Vec::new();
    let n = s.len();
    let mut i: usize = 0;
    while i < n
        invariant
            n == s@.len(),
            i <= n,
            script_from(s@, m, 0) == out@ + script_from(s@, m, i as int),
        decreases n - i,
    {
        let ghost before = out@;
        let ghost i0 = i as int;
        if s[i] == m && i + 1 < n && !is_space_exec(s[i + 1]) {
            let j = find_script_close(s, m, i + 2);
            if i < j && j < n {
                push_str(&mut out, open_tag_str(m));
                let mut inner = slice_to_vec(s, i + 1, j);
                out.append(&mut inner);
                push_str(&mut out, close_tag_str(m));
                i = j + 1;
                proof {
                    assert(out@ + script_from(s@, m, i as int) =~= before + script_from(s@, m, i0));
                }
                continue;
            }
        }
        out.push(s[i]);
        i = i + 1;
        proof {
            assert(out@ + script_from(s@, m, i as int) =~= before + script_from(s@, m, i0));
        }
    }
    out
}

/// Applies the quotes substitution (strong, monospace, emphasis, marked,
/// superscript and subscript text) to `s`.
pub fn apply_quotes(s: &Vec<char>) -> (r: Vec<char>)
    ensures
        r@ == quotes(s@),
{
    reveal(quotes);
    let a = apply_quote_pass(s, '*');
    let b = apply_quote_pass(&a, '`');
    let c = apply_quote_pass(&b, '_');
    let d = apply_quote_pass(&c, '#');
    apply_script(&apply_script(&d, '^'), '~')
}

impl SubstitutionStep {
    /// Applies this step to `text`.
    pub fn apply_to(&self, text: &Vec<char>, parser: &Parser) -> (r: Vec<char>)
        ensures
            r@ == apply_step(*self, text@, parser@.attributes),
    {
        match self {
            SubstitutionStep::SpecialCharacters => apply_special_chars(text),
            SubstitutionStep::Quotes => apply_quotes(text),
            SubstitutionStep::AttributeReferences => apply_attr_refs(text, parser),
        }
    }
}

/// Applies the steps `steps`, first to last, to `text`.
pub fn apply_steps_to(steps: &Vec<SubstitutionStep>, text: &Vec<char>, parser: &Parser) -> (r: Vec<char>)
    ensures
        r@ == apply_steps(steps@, text@, parser@.attributes),
{
    let mut cur: Vec<char> = slice_to_vec(text, 0, text.len());
    proof {
        assert(cur@ =~= text@);
        assert(steps@.take(0) =~= Seq::<SubstitutionStep>::empty());
    }
    let mut i: usize = 0;
    while i < steps.len()
        invariant
            i <= steps@.len(),
            cur@ == apply_steps(steps@.take(i as int), text@, parser@.attributes),
        decreases steps@.len() - i,
    {
        let next = steps[i].apply_to(&cur, parser);
        proof {
            assert(steps@.take(i + 1).drop_last() =~= steps@.take(i as int));
            assert(steps@.take(i + 1).last() == steps@[i as int]);
        }
        cur = next;
        i = i + 1;
    }
    proof {
        assert(steps@.take(steps@.len() as int) =~= steps@);
    }
    cur
}

impl SubstitutionGroup {
    /// Applies this group of substitutions to `content`, replacing its
    /// rendered text.
    pub fn apply(&self, content: &mut Content, parser: &Parser)
        ensures
            final(content)@.original == old(content)@.original,
            final(content)@.rendered == apply_group(self@, old(content)@.rendered, parser@.attributes),
    {
        let text = str_to_chars(content.rendered.as_str());
        match self {
            SubstitutionGroup::Normal | SubstitutionGroup::Title => {
                let sc = apply_special_chars(&text);
                let q = apply_quotes(&sc);
                content.rendered = chars_to_string(&apply_attr_refs(&q, parser));
            },
            SubstitutionGroup::Verbatim => {
                content.rendered = chars_to_string(&apply_special_chars(&text));
            },
            SubstitutionGroup::Pass | SubstitutionGroup::NoSubstitutions => {},
            SubstitutionGroup::Custom(steps) => {
                content.rendered = chars_to_string(&apply_steps_to(steps, &text, parser));
            },
        }
    }

    /// An identical copy of this group.
    pub fn copy(&self) -> (r: SubstitutionGroup)
        ensures
            r@ == self@,
    {
        match self {
            SubstitutionGroup::Normal => SubstitutionGroup::Normal,
            SubstitutionGroup::Title => SubstitutionGroup::Title,
            SubstitutionGroup::Verbatim => SubstitutionGroup::Verbatim,
            SubstitutionGroup::Pass => SubstitutionGroup::Pass,
            SubstitutionGroup::NoSubstitutions => SubstitutionGroup::NoSubstitutions,
            SubstitutionGroup::Custom(steps) => {
                let mut v: Vec<SubstitutionStep> = Vec::new();
                let mut i: usize = 0;
                while i < steps.len()
                    invariant
                        i <= steps@.len(),
                        v@ == steps@.take(i as int),
                    decreases steps@.len() - i,
                {
                    v.push(steps[i]);
                    proof {
                        assert(v@ =~= steps@.take(i + 1));
                    }
                    i = i + 1;
                }
                proof {
                    assert(steps@.take(steps@.len() as int) =~= steps@);
                }
                SubstitutionGroup::Custom(v)
            },
        }
    }
}

impl Content {
    /// Content whose rendering is, as yet, its source text.
    pub fn from_span(span: &Span) -> (r: Content)
        ensures
            r@.original == span@,
            r@.rendered == span@.data,
    {
        Content { original: span.copy(), rendered: span.data().to_owned() }
    }

    /// Content whose rendering starts out as `filtered` (the source text with
    /// some lines or indentation removed).
    pub fn from_filtered(span: &Span, filtered: String) -> (r: Content)
        ensures
            r@.original == span@,
            r@.rendered == filtered@,
    {
        Content { original: span.copy(), rendered: filtered }
    }

    /// Returns the source text of this content.
    pub fn original(&self) -> (r: &Span)
        ensures
            r@ == self@.original,
    {
        &self.original
    }

    /// Returns the rendered text of this content.
    pub fn rendered(&self) -> (r: &str)
        ensures
            r@ == self@.rendered,
    {
        self.rendered.as_str()
    }

    /// Returns `true` if the rendered text is empty.
    pub fn is_empty(&self) -> (r: bool)
        ensures
            r == (self@.rendered.len() == 0),
    {
        self.rendered.as_str().unicode_len() == 0
    }

    /// An identical copy of this content.
    pub fn copy(&self) -> (r: Content)
        ensures
            r@ == self@,
    {
        Content { original: self.original.copy(), rendered: self.rendered.clone() }
    }
}


/// The substitution step that `name` names, if any.
pub open spec fn step_named(name: Seq<char>) -> Option<SubstitutionStep> {
    if name == "specialchars"@ || name == "specialcharacters"@ {
        Some(SubstitutionStep::SpecialCharacters)
    } else if name == "quotes"@ {
        Some(SubstitutionStep::Quotes)
    } else if name == "attributes"@ {
        Some(SubstitutionStep::AttributeReferences)
    } else {
        None
    }
}

/// Index of the first comma at or after index `j` of `v` (`v.len()` if
/// there is none).
pub open spec fn comma_from(v: Seq<char>, j: int) -> int
    decreases v.len() - j,
{
    if j < 0 || j >= v.len() {
        v.len() as int
    } else if v[j] == ',' {
        j
    } else {
        comma_from(v, j + 1)
    }
}

/// The steps that the comma-separated names of `v` from index `i` on
/// name, in order; `None` if one of them names no step.
pub open spec fn steps_from(v: Seq<char>, i: int) -> Option<Seq<SubstitutionStep>>
    decreases v.len() - i,
{
    if i < 0 || i > v.len() {
        None
    } else {
        let k = comma_from(v, i);
        match step_named(v.subrange(i, k)) {
            None => None,
            Some(st) => if k >= v.len() {
                Some(seq![st])
            } else if k < i {
                None
            } else {
                match steps_from(v, k + 1) {
                    Some(rest) => Some(seq![st] + rest),
                    None => None,
                }
            },
        }
    }
}

/// The group that a `subs` attribute with value `v` selects in place of
/// `g`: `none`, `normal`, `verbatim` or `specialchars` name a group; a
/// comma-separated list of step names (`specialchars` or
/// `specialcharacters`, `quotes`, `attributes`) gives those steps in that
/// order; any other value leaves `g`.
pub open spec fn group_for_subs(g: GroupView, v: Seq<char>) -> GroupView {
    if v == "none"@ {
        GroupView::NoSubstitutions
    } else if v == "normal"@ {
        GroupView::Normal
    } else if v == "verbatim"@ || v == "specialchars"@ {
        GroupView::Verbatim
    } else {
        match steps_from(v, 0) {
            Some(steps) => GroupView::Custom(steps),
            None => g,
        }
    }
}

/// Index of the first comma at or after index `j` of `v` (`v.len()` if
/// none).
fn find_comma(v: &Vec<char>, j: usize) -> (r: usize)
    requires
        j <= v@.len(),
    ensures
        r == comma_from(v@, j as int),
        j <= r <= v@.len(),
{
    let n = v.len();
    let mut k = j;
    while k < n
        invariant
            n == v@.len(),
            j <= k <= n,
            comma_from(v@, j as int) == comma_from(v@, k as int),
        decreases n - k,
    {
        if v[k] == ',' {
            return k;
        }
        k = k + 1;
    }
    n
}

/// Reads the comma-separated substitution step names of `v`; `None` if one
/// of them names no step.
pub fn parse_subs_steps(v: &str) -> (r: Option<Vec<SubstitutionStep>>)
    ensures
        match steps_from(v@, 0) {
            Some(steps) => r matches Some(x) && x@ == steps,
            None => r is None,
        },
{
    let c = str_to_chars(v);
    let n = c.len();
    let mut out: Vec<SubstitutionStep> = Vec::new();
    let mut i: usize = 0;
    proof {
        assert(out@ + Seq::<SubstitutionStep>::empty() =~= out@);
    }
    loop
        invariant
            n == c@.len(),
            c@ == v@,
            i <= n,
            steps_from(c@, 0) == (match steps_from(c@, i as int) {
                Some(rest) => Some(out@ + rest),
                None => None,
            }),
        decreases n - i,
    {
        let k = find_comma(&c, i);
        let name = chars_to_string(&slice_to_vec(&c, i, k));
        let st = if str_eq(name.as_str(), "specialchars") || str_eq(name.as_str(), "specialcharacters") {
            SubstitutionStep::SpecialCharacters
        } else if str_eq(name.as_str(), "quotes") {
            SubstitutionStep::Quotes
        } else if str_eq(name.as_str(), "attributes") {
            SubstitutionStep::AttributeReferences
        } else {
            return None;
        };
        let ghost before = out@;
        out.push(st);
        if k >= n {
            proof {
                assert(out@ =~= before + seq![st]);
            }
            return Some(out);
        }
        proof {
            match steps_from(c@, k + 1) {
                Some(rest) => {
                    assert(before + (seq![st] + rest) =~= out@ + rest);
                },
                None => {},
            }
        }
        i = k + 1;
    }
}

/// The group that applies to a block whose default group is `g` and whose
/// attribute list is `attrlist`.
pub open spec fn override_group(g: GroupView, attrlist: Option<AttrlistView>) -> GroupView {
    match attrlist {
        Some(a) => match a.named("subs"@) {
            Some(attr) => group_for_subs(g, attr.value),
            None => g,
        },
        None => g,
    }
}

impl SubstitutionGroup {
    /// The group that applies once the block's attribute list is taken into
    /// account: a `subs` attribute replaces this group as
    /// [`group_for_subs`] says.
    pub fn override_via_attrlist(&self, attrlist: Option<&Attrlist>) -> (r: SubstitutionGroup)
        ensures
            r@ == override_group(
                self@,
                match attrlist {
                    Some(a) => Some(a@),
                    None => None,
                },
            ),
    {
        match attrlist {
            Some(a) => match a.named_attribute("subs") {
                Some(attr) => {
                    let v = attr.value();
                    if str_eq(v, "none") {
                        SubstitutionGroup::NoSubstitutions
                    } else if str_eq(v, "normal") {
                        SubstitutionGroup::Normal
                    } else if str_eq(v, "verbatim") || str_eq(v, "specialchars") {
                        SubstitutionGroup::Verbatim
                    } else {
                        match parse_subs_steps(v) {
                            Some(steps) => SubstitutionGroup::Custom(steps),
                            None => self.copy(),
                        }
                    }
                },
                None => self.copy(),
            },
            None => self.copy(),
        }
    }
}
} // verus!
