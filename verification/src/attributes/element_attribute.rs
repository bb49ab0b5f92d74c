use vstd::prelude::*;
use vstd::string::StrSliceExecFns;

use crate::span::{
    CharClass, run_len, lemma_run_len, blank_pred, not_shorthand_pred, is_shorthand_delimiter,
    trimmed_len, trailing_ws_pred, lemma_trimmed_len,
};
use crate::text::{vec_run_len_from, str_to_chars, chars_to_string};
use crate::warnings::WarningType;
use crate::span::{Span, attr_name_len, ws_nl_pred, not_char, is_quote, closing_quote_from};
use crate::content::{apply_group, apply_special_chars, apply_attr_refs, apply_quotes, SubstitutionGroup, GroupView};
use crate::parser::Parser;

verus! {

/// Indices and warnings of the shorthand items of `v` from index `i` on,
/// where `v[i]` is a shorthand delimiter (`#`, `%` or `.`).
pub open spec fn shorthand_rest(v: Seq<char>, i: int) -> (Seq<usize>, Seq<WarningType>)
    decreases v.len() - i,
{
    if i < 0 || i >= v.len() {
        (Seq::empty(), Seq::empty())
    } else {
        let q = run_len(v.skip(i + 1), not_shorthand_pred());
        if i + 1 + q >= v.len() {
            if i + 1 == v.len() {
                (seq![i as usize], seq![WarningType::EmptyShorthandItem])
            } else {
                (seq![i as usize], Seq::empty())
            }
        } else if q <= 0 {
            let r = shorthand_rest(v, i + 1);
            (seq![i as usize] + r.0, seq![WarningType::EmptyShorthandItem] + r.1)
        } else {
            let r = shorthand_rest(v, i + 1 + q);
            (seq![i as usize] + r.0, r.1)
        }
    }
}

/// Start indices of the shorthand items of the attribute value `v`, and the
/// warnings found while splitting it.
///
/// A leading item that does not begin with a delimiter is the block style;
/// its index skips leading blanks. Every later item starts at a delimiter.
pub open spec fn shorthand_split(v: Seq<char>) -> (Seq<usize>, Seq<WarningType>) {
    let p = run_len(v, not_shorthand_pred());
    if p > 0 {
        let r = shorthand_rest(v, p);
        (seq![run_len(v.take(p), blank_pred()) as usize] + r.0, r.1)
    } else {
        shorthand_rest(v, 0)
    }
}

/// Indices are non-decreasing and no larger than `len`.
pub open spec fn indices_ok(idx: Seq<usize>, len: int) -> bool {
    &&& forall|j: int, k: int| 0 <= j <= k < idx.len() ==> idx[j] <= idx[k]
    &&& forall|j: int| 0 <= j < idx.len() ==> idx[j] <= len
}

proof fn lemma_shorthand_rest(v: Seq<char>, i: int)
    requires
        0 <= i,
        v.len() <= usize::MAX,
    ensures
        indices_ok(shorthand_rest(v, i).0, v.len() as int),
        forall|j: int| 0 <= j < shorthand_rest(v, i).0.len() ==> i <= shorthand_rest(v, i).0[j],
    decreases v.len() - i,
{
    if i < v.len() {
        let q = run_len(v.skip(i + 1), not_shorthand_pred());
        lemma_run_len(v.skip(i + 1), not_shorthand_pred());
        if i + 1 + q >= v.len() {
        } else if q == 0 {
            lemma_shorthand_rest(v, i + 1);
        } else {
            lemma_shorthand_rest(v, i + 1 + q);
        }
    }
}

proof fn lemma_shorthand_split(v: Seq<char>)
    requires
        v.len() <= usize::MAX,
    ensures
        indices_ok(shorthand_split(v).0, v.len() as int),
{
    let p = run_len(v, not_shorthand_pred());
    lemma_run_len(v, not_shorthand_pred());
    if p > 0 {
        lemma_shorthand_rest(v, p);
        lemma_run_len(v.take(p), blank_pred());
    } else {
        lemma_shorthand_rest(v, 0);
    }
}

/// The text of shorthand item `j`: from its index to the next index (or the
/// end of the value).
pub open spec fn item_text(v: Seq<char>, idx: Seq<usize>, j: int) -> Seq<char> {
    v.subrange(
        idx[j] as int,
        if j + 1 < idx.len() {
            idx[j + 1] as int
        } else {
            v.len() as int
        },
    )
}

/// The shorthand items from item `j` on: items that are a lone delimiter
/// are skipped, the others lose trailing whitespace and are kept if
/// anything is left.
pub open spec fn items_from(v: Seq<char>, idx: Seq<usize>, j: int) -> Seq<Seq<char>>
    decreases idx.len() - j,
{
    if j < 0 || j >= idx.len() {
        Seq::empty()
    } else {
        let it = item_text(v, idx, j);
        let t = it.take(trimmed_len(it, trailing_ws_pred()));
        if it == seq!['#'] || it == seq!['.'] || it == seq!['%'] || t.len() == 0 {
            items_from(v, idx, j + 1)
        } else {
            seq![t] + items_from(v, idx, j + 1)
        }
    }
}

/// The items of `items` that start with `c`, with that first character
/// removed.
pub open spec fn prefixed_items(items: Seq<Seq<char>>, c: char) -> Seq<Seq<char>>
    decreases items.len(),
{
    if items.len() == 0 {
        Seq::empty()
    } else if items[0].len() > 0 && items[0][0] == c {
        seq![items[0].skip(1)] + prefixed_items(items.drop_first(), c)
    } else {
        prefixed_items(items.drop_first(), c)
    }
}

/// The block style named by the first shorthand item, if it holds no
/// delimiter.
pub open spec fn block_style_of(items: Seq<Seq<char>>) -> Option<Seq<char>> {
    if items.len() > 0 && forall|k: int| 0 <= k < items[0].len() ==> !is_shorthand_delimiter(
        #[trigger] items[0][k],
    ) {
        Some(items[0])
    } else {
        None
    }
}

/// The model of an [`ElementAttribute`].
pub struct ElementAttributeView {
    pub name: Option<Seq<char>>,
    pub value: Seq<char>,
    pub shorthand_item_indices: Seq<usize>,
}

impl ElementAttributeView {
    /// The shorthand items of this attribute.
    pub open spec fn items(self) -> Seq<Seq<char>> {
        items_from(self.value, self.shorthand_item_indices, 0)
    }

    pub open spec fn id(self) -> Option<Seq<char>> {
        let ids = prefixed_items(self.items(), '#');
        if ids.len() > 0 {
            Some(ids[0])
        } else {
            None
        }
    }
}

/// A single element attribute: a name (for named attributes), a value, and
/// for the first positional attribute the positions of its shorthand items
/// (block style, `#id`, `.role`, `%option`).
#[derive(Debug, PartialEq, Eq)]
pub struct ElementAttribute {
    name: Option<String>,
    value: String,
    shorthand_item_indices: Vec<usize>,
}

impl View for ElementAttribute {
    type V = ElementAttributeView;

    closed spec fn view(&self) -> ElementAttributeView {
        ElementAttributeView {
            name: match self.name {
                Some(n) => Some(n@),
                None => None,
            },
            value: self.value@,
            shorthand_item_indices: self.shorthand_item_indices@,
        }
    }
}

/// Splits the attribute value `v` into shorthand items.
pub fn parse_shorthand_items(v: &Vec<char>, warnings: &mut Vec<WarningType>) -> (r: Vec<usize>)
    ensures
        r@ == shorthand_split(v@).0,
        final(warnings)@ == old(warnings)@ + shorthand_split(v@).1,
{
    let n = v.len();
    let mut indices: Vec<usize> = Vec::new();
    let p = vec_run_len_from(v, 0, CharClass::NotShorthandDelim);
    proof {
        assert(v@.skip(0) =~= v@);
        lemma_run_len(v@, not_shorthand_pred());
    }
    let mut i: usize = 0;
    if p > 0 {
        let b = vec_run_len_from(v, 0, CharClass::Blank);
        let first = if b < p {
            b
        } else {
            p
        };
        proof {
            lemma_run_len(v@, blank_pred());
            let t = v@.take(p as int);
            lemma_run_len(t, blank_pred());
            assert forall|j: int| 0 <= j < first implies blank_pred()(#[trigger] t[j]) by {
                assert(t[j] == v@[j]);
            }
            if first < t.len() {
                assert(t[first as int] == v@[first as int]);
            }
            crate::span::lemma_run_len_unique(t, blank_pred(), first as int);
        }
        indices.push(first);
        i = p;
    }
    let ghost total = shorthand_split(v@);
    assert(indices@ + shorthand_rest(v@, i as int).0 =~= total.0);
    assert(old(warnings)@ + total.1 =~= warnings@ + shorthand_rest(v@, i as int).1);
    while i < n
        invariant
            n == v@.len(),
            i <= n,
            total == shorthand_split(v@),
            indices@ + shorthand_rest(v@, i as int).0 == total.0,
            old(warnings)@ + total.1 == warnings@ + shorthand_rest(v@, i as int).1,
        decreases n - i,
    {
        let j = vec_run_len_from(v, i + 1, CharClass::NotShorthandDelim);
        proof {
            lemma_run_len(v@.skip(i + 1), not_shorthand_pred());
        }
        let ghost old_idx = indices@;
        let ghost old_w = warnings@;
        let ghost rest = shorthand_rest(v@, i as int);
        indices.push(i);
        if j >= n {
            if i + 1 == n {
                warnings.push(WarningType::EmptyShorthandItem);
            }
            i = n;
        } else if j == i + 1 {
            warnings.push(WarningType::EmptyShorthandItem);
            i = i + 1;
        } else {
            i = j;
        }
        proof {
            let nr = shorthand_rest(v@, i as int);
            if i == n {
                assert(nr.0 =~= Seq::<usize>::empty());
                assert(nr.1 =~= Seq::<WarningType>::empty());
            }
            assert(indices@ + nr.0 =~= old_idx + rest.0);
            assert(warnings@ + nr.1 =~= old_w + rest.1);
        }
    }
    proof {
        assert(shorthand_rest(v@, i as int).0 =~= Seq::<usize>::empty());
        assert(indices@ =~= total.0);
        assert(warnings@ =~= old(warnings)@ + total.1);
    }
    indices
}


/// The character views of a sequence of string slices.
pub open spec fn str_views(v: Seq<&str>) -> Seq<Seq<char>> {
    v.map_values(|s: &str| s@)
}

/// Returns `true` if `s` is exactly the one-character string `c`.
fn is_lone(s: &str, c: char) -> (r: bool)
    ensures
        r == (s@ == seq![c]),
{
    if s.unicode_len() == 1 && s.get_char(0) == c {
        assert(s@ =~= seq![c]);
        true
    } else {
        false
    }
}

/// The items of `items` that start with `c`, without that character.
fn prefixed<'a>(items: &Vec<&'a str>, c: char) -> (r: Vec<&'a str>)
    ensures
        str_views(r@) == prefixed_items(str_views(items@), c),
{
    let mut out: Vec<&'a str> = Vec::new();
    let n = items.len();
    let mut j: usize = 0;
    assert(str_views(items@).skip(0) =~= str_views(items@));
    assert(str_views(out@) =~= Seq::<Seq<char>>::empty());
    while j < n
        invariant
            n == items@.len(),
            j <= n,
            str_views(out@) + prefixed_items(str_views(items@).skip(j as int), c) == prefixed_items(
                str_views(items@),
                c,
            ),
        decreases n - j,
    {
        let it = items[j];
        let ghost rest = str_views(items@).skip(j as int);
        assert(rest[0] == it@);
        assert(rest.drop_first() =~= str_views(items@).skip(j + 1));
        let len = it.unicode_len();
        if len > 0 && it.get_char(0) == c {
            let tail = it.substring_char(1, len);
            let ghost before = out@;
            out.push(tail);
            assert(str_views(out@) =~= str_views(before) + seq![it@.skip(1)]);
        }
        j = j + 1;
    }
    assert(str_views(items@).skip(n as int) =~= Seq::<Seq<char>>::empty());
    assert(str_views(out@) =~= str_views(out@) + Seq::<Seq<char>>::empty());
    out
}

impl ElementAttribute {
    #[verifier::type_invariant]
    spec fn indices_in_range(self) -> bool {
        indices_ok(self.shorthand_item_indices@, self.value@.len() as int)
    }

    /// An identical copy of this attribute.
    pub fn copy(&self) -> (r: ElementAttribute)
        ensures
            r@ == self@,
    {
        proof {
            use_type_invariant(self);
        }
        let name = match &self.name {
            Some(n) => Some(n.clone()),
            None => None,
        };
        ElementAttribute {
            name,
            value: self.value.clone(),
            shorthand_item_indices: self.shorthand_item_indices.clone(),
        }
    }

    /// Returns the attribute's name, if it is a named attribute.
    pub fn name(&self) -> (r: Option<&str>)
        ensures
            r is Some == self@.name is Some,
            r matches Some(n) ==> self@.name == Some(n@),
    {
        match &self.name {
            Some(n) => Some(n.as_str()),
            None => None,
        }
    }

    /// Returns the attribute's value.
    pub fn value(&self) -> (r: &str)
        ensures
            r@ == self@.value,
    {
        self.value.as_str()
    }

    /// Returns the shorthand items (block style, `#id`, `.role`,
    /// `%option`) of this attribute. Only the first positional attribute of a
    /// list has them.
    pub fn shorthand_items(&self) -> (r: Vec<&str>)
        ensures
            str_views(r@) == self@.items(),
    {
        proof {
            use_type_invariant(self);
        }
        let value = self.value.as_str();
        let vlen = value.unicode_len();
        let idx = &self.shorthand_item_indices;
        let n = idx.len();
        let mut out: Vec<&str> = Vec::new();
        let mut j: usize = 0;
        while j < n
            invariant
                n == idx@.len(),
                vlen == value@.len(),
                value@ == self@.value,
                idx@ == self@.shorthand_item_indices,
                indices_ok(idx@, vlen as int),
                j <= n,
                str_views(out@) + items_from(value@, idx@, j as int) == self@.items(),
            decreases n - j,
        {
            let cur = idx[j];
            let next = if j + 1 < n {
                idx[j + 1]
            } else {
                vlen
            };
            let item = value.substring_char(cur, next);
            assert(item@ == item_text(value@, idx@, j as int));
            let ilen = item.unicode_len();
            let mut t = ilen;
            while t > 0 && (item.get_char(t - 1) == ' ' || item.get_char(t - 1) == '\t' || item.get_char(t - 1) == '\n'
                || item.get_char(t - 1) == '\r' || item.get_char(t - 1) == '\x0C')
                invariant
                    t <= ilen,
                    ilen == item@.len(),
                    forall|k: int| t <= k < ilen ==> trailing_ws_pred()(#[trigger] item@[k]),
                decreases t,
            {
                t = t - 1;
            }
            proof {
                crate::span::lemma_trimmed_len_unique(item@, trailing_ws_pred(), t as int);
            }
            let ghost before = out@;
            if !(is_lone(item, '#') || is_lone(item, '.') || is_lone(item, '%')) && t > 0 {
                out.push(item.substring_char(0, t));
                assert(str_views(out@) =~= str_views(before) + seq![item@.take(t as int)]);
            }
            j = j + 1;
        }
        assert(str_views(out@) =~= str_views(out@) + Seq::<Seq<char>>::empty());
        out
    }

    /// Returns the block style named by the shorthand items, if any.
    pub fn block_style(&self) -> (r: Option<&str>)
        ensures
            r is Some == block_style_of(self@.items()) is Some,
            r matches Some(s) ==> block_style_of(self@.items()) == Some(s@),
    {
        let items = self.shorthand_items();
        if items.len() == 0 {
            return None;
        }
        let first = items[0];
        assert(first@ == self@.items()[0]);
        let n = first.unicode_len();
        let mut k: usize = 0;
        while k < n
            invariant
                n == first@.len(),
                self@.items().len() > 0,
                first@ == self@.items()[0],
                k <= n,
                forall|m: int| 0 <= m < k ==> !is_shorthand_delimiter(#[trigger] first@[m]),
            decreases n - k,
        {
            let c = first.get_char(k);
            if c == '#' || c == '%' || c == '.' {
                assert(is_shorthand_delimiter(self@.items()[0][k as int]));
                return None;
            }
            k = k + 1;
        }
        Some(first)
    }

    /// Returns the ID given in shorthand syntax (`#id`), if any. Only the
    /// first one counts.
    pub fn id(&self) -> (r: Option<&str>)
        ensures
            r is Some == self@.id() is Some,
            r matches Some(s) ==> self@.id() == Some(s@),
    {
        let items = self.shorthand_items();
        let ids = prefixed(&items, '#');
        if ids.len() > 0 {
            assert(ids[0]@ == str_views(ids@)[0]);
            Some(ids[0])
        } else {
            None
        }
    }

    /// Returns the roles given in shorthand syntax (`.role`).
    pub fn roles(&self) -> (r: Vec<&str>)
        ensures
            str_views(r@) == prefixed_items(self@.items(), '.'),
    {
        let items = self.shorthand_items();
        prefixed(&items, '.')
    }

    /// Returns the options given in shorthand syntax (`%option`).
    pub fn options(&self) -> (r: Vec<&str>)
        ensures
            str_views(r@) == prefixed_items(self@.items(), '%'),
    {
        let items = self.shorthand_items();
        prefixed(&items, '%')
    }
}


/// Where an attribute list is: above a block, or inside an inline element
/// or macro.
#[derive(Clone, Copy, Debug, PartialEq, Eq, Structural)]
pub enum AttrlistContext {
    Block,
    Inline,
}

/// For the text `src` at the start of an attribute: its name (if it is
/// written `name=value`) and the index where what follows the `=` starts.
pub open spec fn ea_name_and_start(src: Seq<char>) -> (Option<Seq<char>>, int) {
    let k = attr_name_len(src);
    if k > 0 {
        let s1 = k + run_len(src.skip(k), ws_nl_pred());
        if s1 < src.len() && src[s1] == '=' {
            let s2 = s1 + 1 + run_len(src.skip(s1 + 1), ws_nl_pred());
            if s2 >= src.len() || src[s2] == ',' {
                (None, 0)
            } else {
                (Some(src.take(k)), s2)
            }
        } else {
            (None, 0)
        }
    } else {
        (None, 0)
    }
}

/// `s` from index `i` on, with each backslash-escaped `q` replaced by `q`.
pub open spec fn unescape_from(s: Seq<char>, i: int, q: char) -> Seq<char>
    decreases s.len() - i,
{
    if i < 0 || i >= s.len() {
        Seq::empty()
    } else if i + 1 < s.len() && s[i] == '\\' && s[i + 1] == q {
        seq![q] + unescape_from(s, i + 2, q)
    } else {
        seq![s[i]] + unescape_from(s, i + 1, q)
    }
}

/// The result of parsing one attribute from `t` at index `start`: the
/// attribute, the index where parsing stopped, and the warnings.
///
/// The value is either a quoted string (quotes removed, escaped quotes
/// unescaped, and for single quotes in a block attribute list the normal
/// substitutions applied) or the text up to the next comma without trailing
/// blanks. The first positional attribute, unless quoted, is split into
/// shorthand items.
#[verifier::opaque]
pub open spec fn ea_parse(
    t: Seq<char>,
    start: int,
    parse_shorthand: bool,
    ctx: AttrlistContext,
    attrs: Seq<(Seq<char>, Option<Seq<char>>)>,
) -> (ElementAttributeView, int, Seq<WarningType>) {
    let src = t.skip(start);
    let (name, p) = ea_name_and_start(src);
    let v0 = p + run_len(src.skip(p), ws_nl_pred());
    let rest = src.skip(v0);
    let quoted = rest.len() > 0 && is_quote(rest[0]);
    let closed = quoted && closing_quote_from(rest, 1) is Some;
    let e = closing_quote_from(rest, 1)->0;
    let u = run_len(rest, not_char(','));
    let raw = if closed {
        rest.subrange(1, e)
    } else {
        rest.take(trimmed_len(rest.take(u), blank_pred()))
    };
    let consumed = if closed {
        v0 + e + 1
    } else {
        v0 + u
    };
    let sh = parse_shorthand && !closed;
    let w1 = if quoted && !closed {
        seq![WarningType::AttributeValueMissingTerminatingQuote]
    } else {
        Seq::empty()
    };
    let value = if quoted {
        let v1 = unescape_from(raw, 0, rest[0]);
        if rest[0] == '\'' && ctx == AttrlistContext::Block {
            apply_group(GroupView::Normal, v1, attrs)
        } else {
            v1
        }
    } else {
        raw
    };
    let split = if name is None && sh {
        shorthand_split(value)
    } else {
        (Seq::<usize>::empty(), Seq::<WarningType>::empty())
    };
    (
        ElementAttributeView { name, value, shorthand_item_indices: split.0 },
        start + consumed,
        w1 + split.1,
    )
}

/// Replaces each backslash-escaped `q` in `s` by `q`.
fn unescape(s: &Vec<char>, q: char) -> (r: Vec<char>)
    ensures
        r@ == unescape_from(s@, 0, q),
{
    let n = s.len();
    let mut out: Vec<char> = Vec::new();
    let mut i: usize = 0;
    while i < n
        invariant
            n == s@.len(),
            i <= n + 1,
            out@ + unescape_from(s@, i as int, q) == unescape_from(s@, 0, q),
        decreases n + 1 - i,
    {
        let ghost before = out@;
        if i + 1 < n && s[i] == '\\' && s[i + 1] == q {
            out.push(q);
            assert(out@ + unescape_from(s@, i + 2, q) =~= before + unescape_from(s@, i as int, q));
            i = i + 2;
        } else {
            out.push(s[i]);
            assert(out@ + unescape_from(s@, i + 1, q) =~= before + unescape_from(s@, i as int, q));
            i = i + 1;
        }
    }
    assert(out@ =~= out@ + unescape_from(s@, i as int, q));
    out
}

/// Splits off the `name=` part of an attribute, if there is one. Returns the
/// name and the text where the value starts.
fn parse_attr_name(src: &Span) -> (r: (Option<Span>, Span))
    requires
        src@.wf(),
    ensures
        r.1@.wf(),
        r.1@.data == src@.data.skip(ea_name_and_start(src@.data).1),
        r.0 is Some == ea_name_and_start(src@.data).0 is Some,
        r.0 matches Some(n) ==> ea_name_and_start(src@.data).0 == Some(n@.data),
        0 <= ea_name_and_start(src@.data).1 <= src@.len(),
{
    let ghost sd = src@.data;
    match src.take_attr_name() {
        Some(nm) => {
            let ghost k = attr_name_len(sd);
            proof {
                lemma_run_len(sd.skip(1), crate::span::attr_name_pred());
                lemma_run_len(sd.skip(k), ws_nl_pred());
            }
            let ghost s1 = k + run_len(sd.skip(k), ws_nl_pred());
            let space = nm.after.take_whitespace_with_newline();
            assert(space.after@.data =~= sd.skip(s1));
            if space.after.starts_with_char('=') {
                let eq_after = space.after.discard(1);
                assert(eq_after@.data =~= sd.skip(s1 + 1));
                proof {
                    lemma_run_len(sd.skip(s1 + 1), ws_nl_pred());
                }
                let space2 = eq_after.take_whitespace_with_newline();
                let ghost s2 = s1 + 1 + run_len(sd.skip(s1 + 1), ws_nl_pred());
                assert(space2.after@.data =~= sd.skip(s2));
                if !(space2.after.is_empty() || space2.after.starts_with_char(',')) {
                    assert(nm.item@.data =~= sd.take(k));
                    return (Some(nm.item), space2.after);
                }
            }
            assert(sd.skip(0) =~= sd);
            (None, src.copy())
        },
        None => {
            assert(sd.skip(0) =~= sd);
            (None, src.copy())
        },
    }
}

/// Takes the value of an attribute from `after`: a quoted string, or the
/// text up to the next comma without trailing blanks. Returns the value's
/// span, what follows it, and whether it was a closed quoted string.
fn take_attr_value(after: &Span) -> (r: (Span, Span, bool))
    requires
        after@.wf(),
    ensures
        ({
            let rest = after@.data;
            let quoted = rest.len() > 0 && is_quote(rest[0]);
            let closed = quoted && closing_quote_from(rest, 1) is Some;
            let e = closing_quote_from(rest, 1)->0;
            let u = run_len(rest, not_char(','));
            &&& r.2 == closed
            &&& r.1@.len() <= after@.len()
            &&& closed ==> r.0@.data == rest.subrange(1, e) && r.1@.len() == rest.len() - (e + 1)
            &&& !closed ==> r.0@.data == rest.take(trimmed_len(rest.take(u), blank_pred()))
                && r.1@.len() == rest.len() - u
        }),
{
    let ghost rest = after@.data;
    proof {
        lemma_run_len(rest, not_char(','));
        lemma_trimmed_len(rest.take(run_len(rest, not_char(','))), blank_pred());
        crate::span::lemma_closing_quote_from(rest, 1);
    }
    let quoted = after.len() > 0 && (after.char_at(0) == '\'' || after.char_at(0) == '"');
    if quoted {
        match after.take_quoted_string() {
            Some(v) => {
                return (v.item, v.after, true);
            },
            None => {},
        }
    }
    let tw = after.take_class(CharClass::Not(',')).trim_item_trailing_spaces();
    assert(tw.item@.data =~= rest.take(trimmed_len(rest.take(run_len(rest, not_char(','))), blank_pred())));
    (tw.item, tw.after, false)
}

impl ElementAttribute {
    /// Parses one attribute from `source_text` starting at (character) index
    /// `start_index`. Returns the attribute, the index where parsing stopped,
    /// and the warnings found.
    pub fn parse(
        source_text: &str,
        start_index: usize,
        parser: &Parser,
        parse_shorthand: bool,
        attrlist_context: AttrlistContext,
    ) -> (r: (ElementAttribute, usize, Vec<WarningType>))
        requires
            4 * source_text@.len() <= usize::MAX,
            start_index <= source_text@.len(),
        ensures
            ({
                let spec_r = ea_parse(
                    source_text@,
                    start_index as int,
                    parse_shorthand,
                    attrlist_context,
                    parser@.attributes,
                );
                &&& r.0@ == spec_r.0
                &&& r.1 == spec_r.1
                &&& r.2@ == spec_r.2
            }),
            start_index <= r.1 <= source_text@.len(),
    {
        proof {
            reveal(ea_parse);
        }
        let t = Span::new(source_text);
        let src = t.discard(start_index);
        let ghost sd = src@.data;
        assert(sd =~= source_text@.skip(start_index as int));
        let ghost nsplit = ea_name_and_start(sd);
        let (name_span, after0) = parse_attr_name(&src);
        proof {
            lemma_run_len(sd.skip(nsplit.1), ws_nl_pred());
        }
        let after = after0.take_whitespace_with_newline().after;
        let ghost v0 = nsplit.1 + run_len(sd.skip(nsplit.1), ws_nl_pred());
        let ghost rest = sd.skip(v0);
        assert(after@.data =~= rest);
        let quoted = after.len() > 0 && (after.char_at(0) == '\'' || after.char_at(0) == '"');
        let (value_span, after2, closed) = take_attr_value(&after);
        let mut warnings: Vec<WarningType> = Vec::new();
        if quoted && !closed {
            warnings.push(WarningType::AttributeValueMissingTerminatingQuote);
        }
        let sh = parse_shorthand && !closed;
        let consumed = src.len() - after2.len();
        let raw = str_to_chars(value_span.data());
        let value_vec = if quoted {
            let q = after.char_at(0);
            let v1 = unescape(&raw, q);
            let is_block = match attrlist_context {
                AttrlistContext::Block => true,
                AttrlistContext::Inline => false,
            };
            if q == '\'' && is_block {
                apply_attr_refs(&apply_quotes(&apply_special_chars(&v1)), parser)
            } else {
                v1
            }
        } else {
            raw
        };
        let indices = if name_span.is_none() && sh {
            parse_shorthand_items(&value_vec, &mut warnings)
        } else {
            Vec::new()
        };
        let vlen = value_vec.len();
        proof {
            lemma_shorthand_split(value_vec@);
        }
        let name = match name_span {
            Some(n) => Some(n.data().to_owned()),
            None => None,
        };
        let value = chars_to_string(&value_vec);
        let attr = ElementAttribute { name, value, shorthand_item_indices: indices };
        proof {
            let spec_r = ea_parse(
                source_text@,
                start_index as int,
                parse_shorthand,
                attrlist_context,
                parser@.attributes,
            );
            assert(attr@.value == spec_r.0.value);
            assert(attr@.name == spec_r.0.name);
            assert(attr@.shorthand_item_indices == spec_r.0.shorthand_item_indices);
            assert(attr@ == spec_r.0);
            assert(warnings@ =~= spec_r.2);
        }
        (attr, start_index + consumed, warnings)
    }
}

} // verus!
