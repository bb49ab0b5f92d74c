use vstd::prelude::*;
use vstd::string::StrSliceExecFns;

use crate::attributes::element_attribute::{
    AttrlistContext, ElementAttribute, ElementAttributeView, block_style_of, ea_parse,
    prefixed_items, str_views,
};
use crate::content::{apply_attr_refs, attr_refs};
use crate::parser::Parser;
use crate::span::{CharClass, MatchedItem, Span, SpanView, blank_pred, not_char, run_len};
use crate::text::{chars_to_string, str_eq, str_to_chars, vec_run_len_from};
use crate::warnings::{MatchAndWarnings, Warning, WarningType};

verus! {

/// The attributes, and the index where parsing stopped, of the attribute
/// list `t` from index `index` on. `sh` tells whether the next positional
/// attribute may have shorthand items; `pushed` whether an attribute has been
/// kept already.
pub open spec fn al_loop(
    t: Seq<char>,
    index: int,
    sh: bool,
    pushed: bool,
    ctx: AttrlistContext,
    attrs: Seq<(Seq<char>, Option<Seq<char>>)>,
) -> (Seq<ElementAttributeView>, Seq<WarningType>, int)
    decreases t.len() - index,
{
    let (a, ni, w) = ea_parse(t, index, sh, ctx, attrs);
    let sh2 = sh && a.name is Some;
    if index < 0 || ni < index || ni > t.len() {
        (Seq::empty(), w, index)
    } else if a.name is None && a.value.len() == 0 && ni == t.len() && !pushed {
        (Seq::empty(), w, index)
    } else {
        let keep = a.name is None || a.value != "None"@;
        let pre = if keep {
            seq![a]
        } else {
            Seq::empty()
        };
        let p1 = ni + run_len(t.skip(ni), blank_pred());
        if 0 <= p1 < t.len() && t[p1] == ',' {
            let p2 = p1 + 1 + run_len(t.skip(p1 + 1), blank_pred());
            if p2 < t.len() && t[p2] == ',' && p2 >= index {
                let r = al_loop(t, p2 + 1, sh2, pushed || keep, ctx, attrs);
                (pre + r.0, w + seq![WarningType::EmptyAttributeValue] + r.1, r.2)
            } else if index < p2 <= t.len() {
                let r = al_loop(t, p2, sh2, pushed || keep, ctx, attrs);
                (pre + r.0, w + r.1, r.2)
            } else {
                (pre, w, p2)
            }
        } else {
            (pre, w, p1)
        }
    }
}

/// The text of an attribute list once attribute references are replaced
/// (only when it holds both `{` and `}`).
pub open spec fn al_text(d: Seq<char>, attrs: Seq<(Seq<char>, Option<Seq<char>>)>) -> Seq<char> {
    if d.contains('{') && d.contains('}') && 4 * attr_refs(d, attrs).len() <= usize::MAX {
        attr_refs(d, attrs)
    } else {
        d
    }
}

/// The parse of an attribute list (without its brackets) from the text `d`:
/// its attributes, its anchor, and the kinds of warnings found.
///
/// A list written `[anchor]` (i.e. `[[anchor]]` with its outer brackets)
/// is an anchor. Otherwise attributes are separated by commas.
pub open spec fn al_parse(
    d: Seq<char>,
    attrs: Seq<(Seq<char>, Option<Seq<char>>)>,
    ctx: AttrlistContext,
) -> (Seq<ElementAttributeView>, Option<Seq<char>>, Seq<WarningType>) {
    let t = al_text(d, attrs);
    if t.len() > 0 && t[0] == '[' && t.last() == ']' {
        (Seq::empty(), Some(t.subrange(1, t.len() - 1)), Seq::empty())
    } else {
        let r = al_loop(t, 0, true, false, ctx, attrs);
        (
            r.0,
            None,
            r.1 + if r.2 < t.len() {
                seq![WarningType::MissingCommaAfterQuotedAttributeValue]
            } else {
                Seq::empty()
            },
        )
    }
}

/// The index of the first attribute named `name`.
pub open spec fn first_named(attrs: Seq<ElementAttributeView>, name: Seq<char>) -> Option<int>
    decreases attrs.len(),
{
    if attrs.len() == 0 {
        None
    } else if attrs[0].name == Some(name) {
        Some(0)
    } else {
        match first_named(attrs.drop_first(), name) {
            Some(i) => Some(i + 1),
            None => None,
        }
    }
}

/// The index of the `n`th (1-based) positional attribute.
pub open spec fn nth_positional(attrs: Seq<ElementAttributeView>, n: int) -> Option<int>
    decreases attrs.len(),
{
    if attrs.len() == 0 || n <= 0 {
        None
    } else if attrs[0].name is None {
        if n == 1 {
            Some(0)
        } else {
            match nth_positional(attrs.drop_first(), n - 1) {
                Some(i) => Some(i + 1),
                None => None,
            }
        }
    } else {
        match nth_positional(attrs.drop_first(), n) {
            Some(i) => Some(i + 1),
            None => None,
        }
    }
}

/// The non-empty pieces of `s` from index `i` on, separated by `c`.
pub open spec fn split_from(s: Seq<char>, i: int, c: char) -> Seq<Seq<char>>
    decreases s.len() - i,
{
    if i < 0 || i >= s.len() {
        Seq::empty()
    } else if s[i] == c {
        split_from(s, i + 1, c)
    } else {
        let k = run_len(s.skip(i), not_char(c));
        if k <= 0 || i + k > s.len() {
            Seq::empty()
        } else {
            seq![s.subrange(i, i + k)] + split_from(s, i + k, c)
        }
    }
}

/// The models of a sequence of element attributes.
pub open spec fn views(v: Seq<ElementAttribute>) -> Seq<ElementAttributeView> {
    v.map_values(|a: ElementAttribute| a@)
}

/// The model of an [`Attrlist`].
pub struct AttrlistView {
    pub attributes: Seq<ElementAttributeView>,
    pub anchor: Option<Seq<char>>,
    pub source: SpanView,
}

impl AttrlistView {
    pub open spec fn named(self, name: Seq<char>) -> Option<ElementAttributeView> {
        match first_named(self.attributes, name) {
            Some(i) => Some(self.attributes[i]),
            None => None,
        }
    }

    pub open spec fn nth(self, n: int) -> Option<ElementAttributeView> {
        match nth_positional(self.attributes, n) {
            Some(i) => Some(self.attributes[i]),
            None => None,
        }
    }

    /// The block style: the one named by the shorthand items of the first
    /// positional attribute.
    pub open spec fn block_style(self) -> Option<Seq<char>> {
        match self.nth(1) {
            Some(a) => block_style_of(a.items()),
            None => None,
        }
    }

    /// The ID: the anchor, else the shorthand `#id` of the first positional
    /// attribute, else the value of the `id` attribute.
    pub open spec fn id(self) -> Option<Seq<char>> {
        if self.anchor is Some {
            self.anchor
        } else if self.nth(1) is Some && self.nth(1)->0.id() is Some {
            self.nth(1)->0.id()
        } else {
            match self.named("id"@) {
                Some(a) => Some(a.value),
                None => None,
            }
        }
    }

    /// The roles: shorthand `.role` items, then the space-separated words of
    /// the `role` attribute.
    pub open spec fn roles(self) -> Seq<Seq<char>> {
        (match self.nth(1) {
            Some(a) => prefixed_items(a.items(), '.'),
            None => Seq::empty(),
        }) + (match self.named("role"@) {
            Some(a) => split_from(a.value, 0, ' '),
            None => Seq::empty(),
        })
    }

    /// The options: shorthand `%option` items, then the comma-separated
    /// words of the `opts` and then the `options` attribute.
    pub open spec fn options(self) -> Seq<Seq<char>> {
        (match self.nth(1) {
            Some(a) => prefixed_items(a.items(), '%'),
            None => Seq::empty(),
        }) + (match self.named("opts"@) {
            Some(a) => split_from(a.value, 0, ','),
            None => Seq::empty(),
        }) + (match self.named("options"@) {
            Some(a) => split_from(a.value, 0, ','),
            None => Seq::empty(),
        })
    }
}

/// An attribute list: the text between square brackets that defines
/// attributes for a block or macro, split into element attributes.
#[derive(Debug, PartialEq, Eq)]
pub struct Attrlist {
    attributes: Vec<ElementAttribute>,
    anchor: Option<String>,
    source: Span,
}

impl View for Attrlist {
    type V = AttrlistView;

    closed spec fn view(&self) -> AttrlistView {
        AttrlistView {
            attributes: views(self.attributes@),
            anchor: match self.anchor {
                Some(a) => Some(a@),
                None => None,
            },
            source: self.source@,
        }
    }
}

/// The warnings `w` all point at `source` and have the kinds `kinds`.
pub open spec fn warnings_at(w: Seq<Warning>, source: SpanView, kinds: Seq<WarningType>) -> bool {
    &&& w.len() == kinds.len()
    &&& forall|i: int| 0 <= i < w.len() ==> (#[trigger] w[i]).source@ == source && w[i].warning
        == kinds[i]
}

pub proof fn lemma_warnings_at(w: Seq<Warning>, source: SpanView, kinds: Seq<WarningType>)
    requires
        warnings_at(w, source, kinds),
    ensures
        crate::warnings::warning_views(w) == crate::warnings::all_at(source, kinds),
{
    assert(crate::warnings::warning_views(w) =~= crate::warnings::all_at(source, kinds));
}

fn warn_all(source: &Span, kinds: &Vec<WarningType>, out: &mut Vec<Warning>)
    ensures
        final(out)@.len() == old(out)@.len() + kinds@.len(),
        forall|i: int| 0 <= i < old(out)@.len() ==> final(out)@[i] == old(out)@[i],
        forall|i: int|
            0 <= i < kinds@.len() ==> (#[trigger] final(out)@[old(out)@.len() + i]).source@
                == source@ && final(out)@[old(out)@.len() + i].warning == kinds@[i],
{
    let n = kinds.len();
    let mut i: usize = 0;
    while i < n
        invariant
            n == kinds@.len(),
            i <= n,
            out@.len() == old(out)@.len() + i,
            forall|j: int| 0 <= j < old(out)@.len() ==> out@[j] == old(out)@[j],
            forall|j: int|
                0 <= j < i ==> (#[trigger] out@[old(out)@.len() + j]).source@ == source@ && out@[old(
                    out,
                )@.len() + j].warning == kinds@[j],
        decreases n - i,
    {
        let k = match &kinds[i] {
            WarningType::DuplicateId(s) => WarningType::DuplicateId(s.clone()),
            WarningType::SectionHeadingLevelExceedsMaximum(n) => WarningType::SectionHeadingLevelExceedsMaximum(*n),
            WarningType::SectionHeadingLevelSkipped(a, b) => WarningType::SectionHeadingLevelSkipped(*a, *b),
            WarningType::EmptyAttributeValue => WarningType::EmptyAttributeValue,
            WarningType::MissingCommaAfterQuotedAttributeValue => WarningType::MissingCommaAfterQuotedAttributeValue,
            WarningType::AttributeValueMissingTerminatingQuote => WarningType::AttributeValueMissingTerminatingQuote,
            WarningType::EmptyShorthandItem => WarningType::EmptyShorthandItem,
            WarningType::InvalidBlockAnchorName => WarningType::InvalidBlockAnchorName,
            WarningType::EmptyBlockAnchorName => WarningType::EmptyBlockAnchorName,
            WarningType::MissingBlockAfterTitleOrAttributeList => WarningType::MissingBlockAfterTitleOrAttributeList,
            WarningType::UnterminatedDelimitedBlock => WarningType::UnterminatedDelimitedBlock,
            WarningType::InvalidMacroName => WarningType::InvalidMacroName,
            WarningType::MacroMissingDoubleColon => WarningType::MacroMissingDoubleColon,
            WarningType::MacroMissingAttributeList => WarningType::MacroMissingAttributeList,
            WarningType::MediaMacroMissingTarget => WarningType::MediaMacroMissingTarget,
            WarningType::Level0SectionHeadingNotSupported => WarningType::Level0SectionHeadingNotSupported,
        };
        out.push(Warning { source: source.copy(), warning: k });
        i = i + 1;
    }
}

impl Default for Attrlist {
    /// An empty attribute list with an empty source at the start of a
    /// document.
    fn default() -> (r: Attrlist)
        ensures
            r@.attributes == Seq::<ElementAttributeView>::empty(),
            r@.anchor is None,
            r@.source == (SpanView { data: Seq::empty(), line: 1, col: 1, offset: 0 }),
    {
        let attributes: Vec<ElementAttribute> = Vec::new();
        proof {
            reveal_strlit("");
        }
        let r = Attrlist { attributes, anchor: None, source: Span::new("") };
        assert(r@.attributes =~= Seq::<ElementAttributeView>::empty());
        assert(r@.source.data =~= Seq::<char>::empty());
        r
    }
}

impl Attrlist {
    /// Parses an attribute list. `source` must not include the enclosing
    /// square brackets.
    pub fn parse(source: &Span, parser: &Parser, attrlist_context: AttrlistContext) -> (r:
        MatchAndWarnings<MatchedItem<Attrlist>>)
        requires
            source@.wf(),
        ensures
            ({
                let p = al_parse(source@.data, parser@.attributes, attrlist_context);
                &&& r.item.item@.attributes == p.0
                &&& r.item.item@.anchor == p.1
                &&& r.item.item@.source == source@
                &&& warnings_at(r.warnings@, source@, p.2)
            }),
            r.item.after@ == source@.skip(source@.len()),
            r.item.after@.wf(),
    {
        let d = str_to_chars(source.data());
        let text_vec = if source.contains_char('{') && source.contains_char('}') {
            let s = apply_attr_refs(&d, parser);
            let n = s.len();
            if n <= usize::MAX / 4 {
                s
            } else {
                d
            }
        } else {
            d
        };
        let ghost t = al_text(source@.data, parser@.attributes);
        assert(text_vec@ == t);
        let text = chars_to_string(&text_vec);
        let tlen = text_vec.len();
        let mut warnings: Vec<Warning> = Vec::new();
        if tlen > 0 && text_vec[0] == '[' && text_vec[tlen - 1] == ']' {
            let anchor = chars_to_string(&slice_vec(&text_vec, 1, tlen - 1));
            let item = Attrlist { attributes: Vec::new(), anchor: Some(anchor), source: source.copy() };
            assert(item@.attributes =~= Seq::<ElementAttributeView>::empty());
            return MatchAndWarnings {
                item: MatchedItem { item, after: source.discard_all() },
                warnings,
            };
        }
        let (attributes, kinds, after_index) = parse_attributes(&text, &text_vec, parser, attrlist_context);
        let mut all_kinds = kinds;
        if after_index < tlen {
            all_kinds.push(WarningType::MissingCommaAfterQuotedAttributeValue);
        }
        warn_all(source, &all_kinds, &mut warnings);
        let item = Attrlist { attributes, anchor: None, source: source.copy() };
        proof {
            let p = al_parse(source@.data, parser@.attributes, attrlist_context);
            assert(all_kinds@ =~= p.2);
            assert forall|i: int| 0 <= i < warnings@.len() implies (#[trigger] warnings@[i]).source@
                == source@ && warnings@[i].warning == p.2[i] by {
                assert(warnings@[0 + i] == warnings@[i]);
            }
        }
        MatchAndWarnings { item: MatchedItem { item, after: source.discard_all() }, warnings }
    }
}

fn slice_vec(s: &Vec<char>, start: usize, end: usize) -> (r: Vec<char>)
    requires
        start <= end <= s@.len(),
    ensures
        r@ == s@.subrange(start as int, end as int),
{
    let mut out: Vec<char> = Vec::new();
    let mut i = start;
    while i < end
        invariant
            start <= i <= end <= s@.len(),
            out@ == s@.subrange(start as int, i as int),
        decreases end - i,
    {
        out.push(s[i]);
        assert(out@ =~= s@.subrange(start as int, i + 1));
        i = i + 1;
    }
    out
}

/// Runs the attribute loop of [`Attrlist::parse`] over `text` (whose
/// characters are `tv`).
/// The outcome of parsing one attribute of a list.
enum Step {
    /// Parsing goes on at this index, with this shorthand flag.
    Continue(usize, bool),
    /// Parsing stopped; the index where it stopped.
    Stop(usize),
}

/// Parses the attribute at `index` of `text` and what follows it up to the
/// next attribute.
#[verifier::rlimit(40)]
fn attr_step(
    text: &String,
    tv: &Vec<char>,
    parser: &Parser,
    ctx: AttrlistContext,
    index: usize,
    sh: bool,
    attributes: &mut Vec<ElementAttribute>,
    kinds: &mut Vec<WarningType>,
) -> (r: Step)
    requires
        text@ == tv@,
        4 * tv@.len() <= usize::MAX,
        index <= tv@.len(),
    ensures
        ({
            let cur = al_loop(tv@, index as int, sh, old(attributes)@.len() > 0, ctx, parser@.attributes);
            match r {
                Step::Continue(ni, sh2) => {
                    let nxt = al_loop(tv@, ni as int, sh2, final(attributes)@.len() > 0, ctx, parser@.attributes);
                    &&& index < ni <= tv@.len()
                    &&& views(old(attributes)@) + cur.0 == views(final(attributes)@) + nxt.0
                    &&& old(kinds)@ + cur.1 == final(kinds)@ + nxt.1
                    &&& cur.2 == nxt.2
                },
                Step::Stop(a) => {
                    &&& views(final(attributes)@) == views(old(attributes)@) + cur.0
                    &&& final(kinds)@ == old(kinds)@ + cur.1
                    &&& a == cur.2
                },
            }
        }),
{
    let n = tv.len();
    let (attr, ni, wts) = ElementAttribute::parse(text.as_str(), index, parser, sh, ctx);
    let ghost cur = al_loop(tv@, index as int, sh, attributes@.len() > 0, ctx, parser@.attributes);
    let ghost vs = views(attributes@);
    let ghost k0 = kinds@;
    let mut wv = wts;
    kinds.append(&mut wv);
    let unnamed = attr.name().is_none();
    let sh2 = sh && !unnamed;
    if unnamed && attr.value().unicode_len() == 0 && ni == n && attributes.len() == 0 {
        assert(cur.0 =~= Seq::<ElementAttributeView>::empty());
        assert(views(attributes@) =~= vs + cur.0);
        return Step::Stop(index);
    }
    let keep = unnamed || !str_eq(attr.value(), "None");
    let ghost av = attr@;
    if keep {
        attributes.push(attr);
    }
    assert(views(attributes@) =~= vs + if keep {
        seq![av]
    } else {
        Seq::<ElementAttributeView>::empty()
    });
    let p1 = vec_run_len_from(tv, ni, CharClass::Blank);
    if p1 < n && tv[p1] == ',' {
        let p2 = vec_run_len_from(tv, p1 + 1, CharClass::Blank);
        if p2 < n && tv[p2] == ',' {
            kinds.push(WarningType::EmptyAttributeValue);
            assert(kinds@ =~= k0 + wts@ + seq![WarningType::EmptyAttributeValue]);
            Step::Continue(p2 + 1, sh2)
        } else if p2 > index {
            Step::Continue(p2, sh2)
        } else {
            Step::Stop(p2)
        }
    } else {
        Step::Stop(p1)
    }
}

/// Runs the attribute loop of [`Attrlist::parse`] over `text` (whose
/// characters are `tv`).
fn parse_attributes(text: &String, tv: &Vec<char>, parser: &Parser, ctx: AttrlistContext) -> (r: (
    Vec<ElementAttribute>,
    Vec<WarningType>,
    usize,
))
    requires
        text@ == tv@,
        4 * tv@.len() <= usize::MAX,
    ensures
        ({
            let p = al_loop(tv@, 0, true, false, ctx, parser@.attributes);
            &&& views(r.0@) == p.0
            &&& r.1@ == p.1
            &&& r.2 == p.2
        }),
{
    let n = tv.len();
    let mut attributes: Vec<ElementAttribute> = Vec::new();
    let mut kinds: Vec<WarningType> = Vec::new();
    let mut index: usize = 0;
    let mut sh = true;
    let ghost total = al_loop(tv@, 0, true, false, ctx, parser@.attributes);
    assert(views(attributes@) =~= Seq::<ElementAttributeView>::empty());
    assert(total.0 =~= views(attributes@) + total.0);
    assert(total.1 =~= kinds@ + total.1);
    loop
        invariant
            n == tv@.len(),
            text@ == tv@,
            4 * tv@.len() <= usize::MAX,
            index <= n,
            total == al_loop(tv@, 0, true, false, ctx, parser@.attributes),
            total.0 == views(attributes@) + al_loop(tv@, index as int, sh, attributes@.len() > 0, ctx, parser@.attributes).0,
            total.1 == kinds@ + al_loop(tv@, index as int, sh, attributes@.len() > 0, ctx, parser@.attributes).1,
            total.2 == al_loop(tv@, index as int, sh, attributes@.len() > 0, ctx, parser@.attributes).2,
        decreases n - index,
    {
        let ghost va = views(attributes@);
        let ghost ka = kinds@;
        match attr_step(text, tv, parser, ctx, index, sh, &mut attributes, &mut kinds) {
            Step::Continue(ni, sh2) => {
                proof {
                    let nxt = al_loop(tv@, ni as int, sh2, attributes@.len() > 0, ctx, parser@.attributes);
                    assert(total.0 =~= views(attributes@) + nxt.0);
                    assert(total.1 =~= kinds@ + nxt.1);
                }
                index = ni;
                sh = sh2;
            },
            Step::Stop(a) => {
                proof {
                    assert(total.0 =~= views(attributes@));
                    assert(total.1 =~= kinds@);
                }
                return (attributes, kinds, a);
            },
        }
    }
}


proof fn lemma_first_named_at(attrs: Seq<ElementAttributeView>, name: Seq<char>, i: int)
    requires
        0 <= i < attrs.len(),
        attrs[i].name == Some(name),
        forall|j: int| 0 <= j < i ==> attrs[j].name != Some(name),
    ensures
        first_named(attrs, name) == Some(i),
    decreases i,
{
    if i > 0 {
        lemma_first_named_at(attrs.drop_first(), name, i - 1);
    }
}

proof fn lemma_first_named_none(attrs: Seq<ElementAttributeView>, name: Seq<char>)
    requires
        forall|j: int| 0 <= j < attrs.len() ==> attrs[j].name != Some(name),
    ensures
        first_named(attrs, name) is None,
    decreases attrs.len(),
{
    if attrs.len() > 0 {
        lemma_first_named_none(attrs.drop_first(), name);
    }
}

pub open spec fn shift(o: Option<int>, d: int) -> Option<int> {
    match o {
        Some(i) => Some(i + d),
        None => None,
    }
}

proof fn lemma_nth_positional_bounds(attrs: Seq<ElementAttributeView>, n: int)
    ensures
        nth_positional(attrs, n) matches Some(i) ==> 0 <= i < attrs.len() && attrs[i].name is None,
    decreases attrs.len(),
{
    if attrs.len() > 0 && n > 0 {
        lemma_nth_positional_bounds(attrs.drop_first(), n);
        lemma_nth_positional_bounds(attrs.drop_first(), n - 1);
    }
}

/// Splits `s` into the non-empty pieces separated by `c`.
fn split_words<'a>(s: &'a str, c: char) -> (r: Vec<&'a str>)
    ensures
        str_views(r@) == split_from(s@, 0, c),
{
    let n = s.unicode_len();
    let mut out: Vec<&'a str> = Vec::new();
    let mut i: usize = 0;
    assert(str_views(out@) =~= Seq::<Seq<char>>::empty());
    while i < n
        invariant
            n == s@.len(),
            i <= n,
            str_views(out@) + split_from(s@, i as int, c) == split_from(s@, 0, c),
        decreases n - i,
    {
        if s.get_char(i) == c {
            i = i + 1;
        } else {
            let mut j = i;
            while j < n && s.get_char(j) != c
                invariant
                    i <= j <= n,
                    n == s@.len(),
                    forall|m: int| i <= m < j ==> not_char(c)(#[trigger] s@[m]),
                decreases n - j,
            {
                j = j + 1;
            }
            proof {
                let t = s@.skip(i as int);
                assert forall|m: int| 0 <= m < j - i implies not_char(c)(#[trigger] t[m]) by {
                    assert(t[m] == s@[i + m]);
                }
                if j - i < t.len() {
                    assert(t[j - i] == s@[j as int]);
                }
                crate::span::lemma_run_len_unique(t, not_char(c), j - i);
            }
            let ghost before = str_views(out@);
            out.push(s.substring_char(i, j));
            assert(str_views(out@) =~= before + seq![s@.subrange(i as int, j as int)]);
            i = j;
        }
    }
    assert(str_views(out@) =~= str_views(out@) + split_from(s@, n as int, c));
    out
}

fn append_strs<'a>(a: &mut Vec<&'a str>, b: Vec<&'a str>)
    ensures
        str_views(final(a)@) == str_views(old(a)@) + str_views(b@),
{
    let mut bb = b;
    a.append(&mut bb);
    assert(str_views(a@) =~= str_views(old(a)@) + str_views(b@));
}

impl Attrlist {
    /// Returns the attributes of this list, in order.
    pub fn attributes(&self) -> (r: &[ElementAttribute])
        ensures
            views(r@) == self@.attributes,
    {
        self.attributes.as_slice()
    }

    /// Returns the anchor of this list (`[[anchor]]` syntax), if any.
    pub fn anchor(&self) -> (r: Option<&str>)
        ensures
            r is Some == self@.anchor is Some,
            r matches Some(a) ==> self@.anchor == Some(a@),
    {
        match &self.anchor {
            Some(a) => Some(a.as_str()),
            None => None,
        }
    }

    /// Returns the source span of this list.
    pub fn span(&self) -> (r: &Span)
        ensures
            r@ == self@.source,
    {
        &self.source
    }

    /// An identical copy of this attribute list.
    pub fn copy(&self) -> (r: Attrlist)
        ensures
            r@ == self@,
    {
        let n = self.attributes.len();
        let mut attributes: Vec<ElementAttribute> = Vec::new();
        let mut i: usize = 0;
        while i < n
            invariant
                n == self.attributes@.len(),
                i <= n,
                views(attributes@) == views(self.attributes@).take(i as int),
            decreases n - i,
        {
            let ghost before = views(attributes@);
            let c = self.attributes[i].copy();
            assert(c@ == views(self.attributes@)[i as int]);
            attributes.push(c);
            assert(views(attributes@) =~= before.push(c@));
            assert(views(attributes@) =~= views(self.attributes@).take(i + 1));
            i = i + 1;
        }
        assert(views(self.attributes@).take(n as int) =~= views(self.attributes@));
        let anchor = match &self.anchor {
            Some(a) => Some(a.clone()),
            None => None,
        };
        Attrlist { attributes, anchor, source: self.source.copy() }
    }

    /// Returns the first attribute named `name`.
    pub fn named_attribute(&self, name: &str) -> (r: Option<&ElementAttribute>)
        ensures
            r is Some == self@.named(name@) is Some,
            r matches Some(a) ==> self@.named(name@) == Some(a@),
    {
        let n = self.attributes.len();
        let mut i: usize = 0;
        while i < n
            invariant
                n == self.attributes@.len(),
                n == self@.attributes.len(),
                i <= n,
                forall|j: int| 0 <= j < i ==> self@.attributes[j].name != Some(name@),
            decreases n - i,
        {
            let a = &self.attributes[i];
            assert(a@ == self@.attributes[i as int]);
            match a.name() {
                Some(an) => {
                    if str_eq(an, name) {
                        proof {
                            lemma_first_named_at(self@.attributes, name@, i as int);
                        }
                        return Some(a);
                    }
                },
                None => {},
            }
            i = i + 1;
        }
        proof {
            lemma_first_named_none(self@.attributes, name@);
        }
        None
    }

    /// Returns the `n`th (1-based) positional attribute. Named attributes
    /// are not counted.
    pub fn nth_attribute(&self, n: usize) -> (r: Option<&ElementAttribute>)
        ensures
            r is Some == self@.nth(n as int) is Some,
            r matches Some(a) ==> self@.nth(n as int) == Some(a@),
    {
        if n == 0 {
            return None;
        }
        let len = self.attributes.len();
        let ghost attrs = self@.attributes;
        let mut i: usize = 0;
        let mut count: usize = 0;
        assert(attrs.skip(0) =~= attrs);
        while i < len
            invariant
                len == self.attributes@.len(),
                len == attrs.len(),
                attrs == self@.attributes,
                1 <= n,
                count < n,
                count <= i <= len,
                nth_positional(attrs, n as int) == shift(
                    nth_positional(attrs.skip(i as int), n - count),
                    i as int,
                ),
            decreases len - i,
        {
            let a = &self.attributes[i];
            assert(a@ == attrs[i as int]);
            assert(attrs.skip(i as int).drop_first() =~= attrs.skip(i + 1));
            assert(attrs.skip(i as int)[0] == attrs[i as int]);
            if a.name().is_none() {
                if count + 1 == n {
                    return Some(a);
                }
                count = count + 1;
            }
            i = i + 1;
        }
        None
    }

    /// Returns the first attribute named `name`, or else the `index`th
    /// (1-based) positional attribute.
    pub fn named_or_positional_attribute(&self, name: &str, index: usize) -> (r: Option<
        &ElementAttribute,
    >)
        ensures
            self@.named(name@) is Some ==> r is Some && self@.named(name@) == Some(r->0@),
            self@.named(name@) is None ==> (r is Some == self@.nth(index as int) is Some),
            self@.named(name@) is None && r is Some ==> self@.nth(index as int) == Some(r->0@),
    {
        match self.named_attribute(name) {
            Some(a) => Some(a),
            None => self.nth_attribute(index),
        }
    }

    /// Returns the block style declared by this list (from the shorthand
    /// items of its first positional attribute), if any.
    pub fn block_style(&self) -> (r: Option<&str>)
        ensures
            r is Some == self@.block_style() is Some,
            r matches Some(s) ==> self@.block_style() == Some(s@),
    {
        match self.nth_attribute(1) {
            Some(a) => a.block_style(),
            None => None,
        }
    }

    /// Returns the ID given by this list: its anchor, else the shorthand
    /// `#id`, else the value of the `id` attribute.
    pub fn id(&self) -> (r: Option<&str>)
        ensures
            r is Some == self@.id() is Some,
            r matches Some(s) ==> self@.id() == Some(s@),
    {
        if let Some(a) = self.anchor() {
            return Some(a);
        }
        if let Some(a1) = self.nth_attribute(1) {
            if let Some(id) = a1.id() {
                return Some(id);
            }
        }
        match self.named_attribute("id") {
            Some(a) => Some(a.value()),
            None => None,
        }
    }

    /// Returns the roles: shorthand `.role` items, then the words of the
    /// `role` attribute.
    pub fn roles(&self) -> (r: Vec<&str>)
        ensures
            str_views(r@) == self@.roles(),
    {
        let mut roles: Vec<&str> = match self.nth_attribute(1) {
            Some(a) => a.roles(),
            None => {
                let v: Vec<&str> = Vec::new();
                assert(str_views(v@) =~= Seq::<Seq<char>>::empty());
                v
            },
        };
        match self.named_attribute("role") {
            Some(ra) => {
                let words = split_words(ra.value(), ' ');
                append_strs(&mut roles, words);
            },
            None => {
                assert(str_views(roles@) =~= str_views(roles@) + Seq::<Seq<char>>::empty());
            },
        }
        roles
    }

    /// Returns the options: shorthand `%option` items, then the
    /// comma-separated values of the `opts` and `options` attributes.
    pub fn options(&self) -> (r: Vec<&str>)
        ensures
            str_views(r@) == self@.options(),
    {
        let mut options: Vec<&str> = match self.nth_attribute(1) {
            Some(a) => a.options(),
            None => {
                let v: Vec<&str> = Vec::new();
                assert(str_views(v@) =~= Seq::<Seq<char>>::empty());
                v
            },
        };
        match self.named_attribute("opts") {
            Some(oa) => {
                let words = split_words(oa.value(), ',');
                append_strs(&mut options, words);
            },
            None => {
                assert(str_views(options@) =~= str_views(options@) + Seq::<Seq<char>>::empty());
            },
        }
        match self.named_attribute("options") {
            Some(oa) => {
                let words = split_words(oa.value(), ',');
                append_strs(&mut options, words);
            },
            None => {
                assert(str_views(options@) =~= str_views(options@) + Seq::<Seq<char>>::empty());
            },
        }
        options
    }

    /// Returns `true` if this list has the option `name`.
    pub fn has_option(&self, name: &str) -> (r: bool)
        ensures
            r == self@.options().contains(name@),
    {
        let options = self.options();
        let n = options.len();
        let mut i: usize = 0;
        while i < n
            invariant
                n == options@.len(),
                i <= n,
                str_views(options@) == self@.options(),
                forall|j: int| 0 <= j < i ==> self@.options()[j] != name@,
            decreases n - i,
        {
            if str_eq(options[i], name) {
                assert(self@.options()[i as int] == name@);
                return true;
            }
            i = i + 1;
        }
        false
    }
}

} // verus!
