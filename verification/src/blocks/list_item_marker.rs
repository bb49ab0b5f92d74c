use vstd::prelude::*;
use vstd::string::StrSliceExecFns;

use crate::content::{Content, ContentView};
use crate::patterns::{regex_captures, regex_captures_result, regex_is_match, regex_is_match_result};
use crate::span::{
    MatchedItem, Span, SpanView, blank_pred, lemma_trimmed_len, run_len, trailing_ws_pred,
    trimmed_len,
};
use crate::text::str_eq;

verus! {

/// The pattern of a list item marker at the start of a line: a hyphen, one
/// or more asterisks or dots, a bullet, digits or a letter followed by a
/// dot, or roman numerals followed by `)`, then a space or tab.
pub const LIST_ITEM_MARKER_PATTERN: &'static str = "^(-|\\*+|\\.+|\\x{2022}|\\d+\\.|[a-zA-Z]\\.|[IVXivx]+\\))[ \\t]";

/// The pattern of a description list term at the start of a line: a term
/// that starts with a non-blank character, then `::`, `:::`, `::::` or `;;`,
/// then the end of the line or a space or tab.
pub const DESCRIPTION_LIST_MARKER_PATTERN: &'static str = "^([^ \\t].*?)(?::::?:?|;;)(?:$|[ \\t])";

/// A list item marker, as a model.
pub enum ListItemMarkerView {
    Hyphen(SpanView),
    Asterisks(SpanView),
    Bullet(SpanView),
    Dots(SpanView),
    AlphaListCapital(SpanView),
    DefinedTerm { term: ContentView, marker: SpanView, source: SpanView },
}

/// The kinds of list item marker that this parser supports.
pub enum MarkerKind {
    Hyphen,
    Asterisks,
    Bullet,
    Dots,
    AlphaListCapital,
}

/// The kind of marker that the matched text `m` is, if it is a supported
/// one. Numbered, lowercase alphabetic and roman markers are not.
pub open spec fn marker_kind(m: Seq<char>) -> Option<MarkerKind> {
    if m == seq!['-'] {
        Some(MarkerKind::Hyphen)
    } else if m.len() > 0 && m[0] == '*' {
        Some(MarkerKind::Asterisks)
    } else if m == seq!['\u{2022}'] {
        Some(MarkerKind::Bullet)
    } else if m.len() > 0 && m[0] == '.' {
        Some(MarkerKind::Dots)
    } else if m.len() > 0 && 'A' <= m[0] && m[0] <= 'Z' {
        Some(MarkerKind::AlphaListCapital)
    } else {
        None
    }
}

pub open spec fn marker_of_kind(k: MarkerKind, span: SpanView) -> ListItemMarkerView {
    match k {
        MarkerKind::Hyphen => ListItemMarkerView::Hyphen(span),
        MarkerKind::Asterisks => ListItemMarkerView::Asterisks(span),
        MarkerKind::Bullet => ListItemMarkerView::Bullet(span),
        MarkerKind::Dots => ListItemMarkerView::Dots(span),
        MarkerKind::AlphaListCapital => ListItemMarkerView::AlphaListCapital(span),
    }
}

/// `v` without its leading spaces and tabs.
pub open spec fn skip_blanks(v: SpanView) -> SpanView {
    v.skip(run_len(v.data, blank_pred()))
}

/// The text of capture group `i`, if the capture result has it.
pub open spec fn group(c: Seq<Option<Seq<char>>>, i: int) -> Option<Seq<char>> {
    if 0 <= i < c.len() {
        c[i]
    } else {
        None
    }
}

/// A list item marker read from `s` (which starts with no blanks) by the
/// list item pattern, and what follows it.
pub open spec fn list_marker_at(s: SpanView, c: Seq<Option<Seq<char>>>) -> Option<(ListItemMarkerView, SpanView)> {
    match group(c, 1) {
        Some(m) => if m.len() > 0 && s.starts_with(m) && marker_kind(m) is Some {
            Some((marker_of_kind(marker_kind(m)->0, s.sub(0, m.len() as int)), skip_blanks(s.skip(m.len() as int))))
        } else {
            None
        },
        None => None,
    }
}

/// A description list term read from `s` by the description list pattern,
/// and what follows it.
pub open spec fn term_marker_at(s: SpanView, d: Seq<Option<Seq<char>>>) -> Option<(ListItemMarkerView, SpanView)> {
    match (group(d, 0), group(d, 1)) {
        (Some(whole), Some(term)) => {
            let w = whole.len() as int;
            let src = s.sub(0, trimmed_len(s.data.take(w), trailing_ws_pred()));
            if s.starts_with(whole) && term.len() <= src.len() {
                let t = src.sub(0, term.len() as int);
                Some((
                    ListItemMarkerView::DefinedTerm {
                        term: ContentView { original: t, rendered: t.data },
                        marker: src.skip(term.len() as int),
                        source: src,
                    },
                    skip_blanks(s.skip(w)),
                ))
            } else {
                None
            }
        },
        _ => None,
    }
}

/// The list item marker at the start of `source` (after leading blanks),
/// and what follows it and the blanks after it.
pub open spec fn marker_at(source: SpanView) -> Option<(ListItemMarkerView, SpanView)> {
    let s = skip_blanks(source);
    match regex_captures_result(LIST_ITEM_MARKER_PATTERN@, s.data) {
        Some(c) => list_marker_at(s, c),
        None => match regex_captures_result(DESCRIPTION_LIST_MARKER_PATTERN@, s.data) {
            Some(d) => term_marker_at(s, d),
            None => None,
        },
    }
}

/// Whether two markers introduce items of the same list: the same kind of
/// marker with the same text (any two capital letter markers match; two
/// terms match when their delimiters do).
pub open spec fn markers_match(a: ListItemMarkerView, b: ListItemMarkerView) -> bool {
    match (a, b) {
        (ListItemMarkerView::Hyphen(x), ListItemMarkerView::Hyphen(y)) => x.data == y.data,
        (ListItemMarkerView::Asterisks(x), ListItemMarkerView::Asterisks(y)) => x.data == y.data,
        (ListItemMarkerView::Bullet(x), ListItemMarkerView::Bullet(y)) => x.data == y.data,
        (ListItemMarkerView::Dots(x), ListItemMarkerView::Dots(y)) => x.data == y.data,
        (ListItemMarkerView::AlphaListCapital(_), ListItemMarkerView::AlphaListCapital(_)) => true,
        (
            ListItemMarkerView::DefinedTerm { marker: x, .. },
            ListItemMarkerView::DefinedTerm { marker: y, .. },
        ) => x.data == y.data,
        _ => false,
    }
}

/// The span of a marker: the marker itself, or the whole term assembly.
pub open spec fn marker_span(m: ListItemMarkerView) -> SpanView {
    match m {
        ListItemMarkerView::Hyphen(x) => x,
        ListItemMarkerView::Asterisks(x) => x,
        ListItemMarkerView::Bullet(x) => x,
        ListItemMarkerView::Dots(x) => x,
        ListItemMarkerView::AlphaListCapital(x) => x,
        ListItemMarkerView::DefinedTerm { source, .. } => source,
    }
}

/// A list item is signaled by one of several designated marker sequences.
#[derive(Debug)]
pub enum ListItemMarker {
    /// Unordered list (hyphen).
    Hyphen(Span),
    /// Unordered list (asterisks).
    Asterisks(Span),
    /// Unordered list (Unicode bullet).
    Bullet(Span),
    /// Ordered list (dots).
    Dots(Span),
    /// Letter followed by dot (alpha list).
    AlphaListCapital(Span),
    /// A term to be defined.
    DefinedTerm {
        /// The name of the term being defined.
        term: Content,
        /// The marker (`::`, etc.) used to call out the definition.
        marker: Span,
        /// The source span for the entire term assembly.
        source: Span,
    },
}

impl View for ListItemMarker {
    type V = ListItemMarkerView;

    open spec fn view(&self) -> ListItemMarkerView {
        match self {
            ListItemMarker::Hyphen(x) => ListItemMarkerView::Hyphen(x@),
            ListItemMarker::Asterisks(x) => ListItemMarkerView::Asterisks(x@),
            ListItemMarker::Bullet(x) => ListItemMarkerView::Bullet(x@),
            ListItemMarker::Dots(x) => ListItemMarkerView::Dots(x@),
            ListItemMarker::AlphaListCapital(x) => ListItemMarkerView::AlphaListCapital(x@),
            ListItemMarker::DefinedTerm { term, marker, source } => ListItemMarkerView::DefinedTerm {
                term: term@,
                marker: marker@,
                source: source@,
            },
        }
    }
}

/// Matching markers is reflexive.
pub proof fn lemma_markers_match_reflexive(a: ListItemMarkerView)
    ensures
        markers_match(a, a),
{
}

/// Matching markers is symmetric.
pub proof fn lemma_markers_match_symmetric(a: ListItemMarkerView, b: ListItemMarkerView)
    ensures
        markers_match(a, b) == markers_match(b, a),
{
}

/// Matching markers is transitive.
pub proof fn lemma_markers_match_transitive(
    a: ListItemMarkerView,
    b: ListItemMarkerView,
    c: ListItemMarkerView,
)
    requires
        markers_match(a, b),
        markers_match(b, c),
    ensures
        markers_match(a, c),
{
}

/// Two markers of the same kind.
pub open spec fn same_kind(a: ListItemMarkerView, b: ListItemMarkerView) -> bool {
    &&& a is Hyphen <==> b is Hyphen
    &&& a is Asterisks <==> b is Asterisks
    &&& a is Bullet <==> b is Bullet
    &&& a is Dots <==> b is Dots
    &&& a is AlphaListCapital <==> b is AlphaListCapital
    &&& a is DefinedTerm <==> b is DefinedTerm
}

/// A marker whose text is what it is made of: hyphens, asterisks, a bullet
/// or dots (so that `*` and `**`, or `.` and `..`, differ).
pub open spec fn symbol_marker(a: ListItemMarkerView) -> bool {
    a is Hyphen || a is Asterisks || a is Bullet || a is Dots
}

/// Markers match only when they are of the same kind; symbol markers match
/// exactly when their texts are equal (`.` does not match `..`, `*` does
/// not match `**`), and any two capital letter markers match.
pub proof fn lemma_markers_match_text(a: ListItemMarkerView, b: ListItemMarkerView)
    ensures
        markers_match(a, b) ==> same_kind(a, b),
        symbol_marker(a) && same_kind(a, b) ==> (markers_match(a, b) <==> marker_span(a).data
            == marker_span(b).data),
        a is AlphaListCapital && b is AlphaListCapital ==> markers_match(a, b),
{
}

/// The capture groups of a regex result, as plain values.
pub open spec fn group_views(v: Seq<Option<String>>) -> Seq<Option<Seq<char>>> {
    v.map_values(|g: Option<String>| match g {
        Some(s) => Some(s@),
        None => None,
    })
}

/// Builds the list item marker that the capture groups `caps` of the list
/// item pattern, matched at the start of `s`, describe, and what follows it
/// past blanks; `None` where group 1 is missing, does not start `s`, or is a
/// kind of marker that is not supported.
pub fn marker_from_captures(s: &Span, caps: &Vec<Option<String>>) -> (r: Option<MatchedItem<ListItemMarker>>)
    requires
        s@.wf(),
    ensures
        match list_marker_at(s@, group_views(caps@)) {
            Some((m, after)) => r matches Some(mi) && mi.item@ == m && mi.after@ == after && mi.after@.wf(),
            None => r is None,
        },
{
    proof {
        reveal_strlit("-");
        reveal_strlit("\u{2022}");
        assert("-"@ =~= seq!['-']);
        assert("\u{2022}"@ =~= seq!['\u{2022}']);
    }
    if caps.len() < 2 {
        return None;
    }
    let m = match &caps[1] {
        Some(m) => m.as_str(),
        None => {
            return None;
        },
    };
    assert(group(group_views(caps@), 1) == Some(m@));
    let n = m.unicode_len();
    if n == 0 || !s.starts_with(m) {
        return None;
    }
    let marker = s.slice_to(n);
    let rest = s.discard(n);
    let after = rest.discard_whitespace();
    let c = m.get_char(0);
    let item = if str_eq(m, "-") {
        ListItemMarker::Hyphen(marker)
    } else if c == '*' {
        ListItemMarker::Asterisks(marker)
    } else if str_eq(m, "\u{2022}") {
        ListItemMarker::Bullet(marker)
    } else if c == '.' {
        ListItemMarker::Dots(marker)
    } else if 'A' <= c && c <= 'Z' {
        ListItemMarker::AlphaListCapital(marker)
    } else {
        return None;
    };
    Some(MatchedItem { item, after })
}

/// Builds the description list term that the capture groups `d` of the
/// description list pattern, matched at the start of `s`, describe, and
/// what follows it past blanks; `None` where a group is missing or does not
/// fit `s`.
pub fn term_from_captures(s: &Span, d: &Vec<Option<String>>) -> (r: Option<MatchedItem<ListItemMarker>>)
    requires
        s@.wf(),
    ensures
        match term_marker_at(s@, group_views(d@)) {
            Some((m, after)) => r matches Some(mi) && mi.item@ == m && mi.after@ == after && mi.after@.wf(),
            None => r is None,
        },
{
    if d.len() < 2 {
        return None;
    }
    let whole = match &d[0] {
        Some(w) => w.as_str(),
        None => {
            return None;
        },
    };
    let term = match &d[1] {
        Some(t) => t.as_str(),
        None => {
            return None;
        },
    };
    assert(group(group_views(d@), 0) == Some(whole@));
    assert(group(group_views(d@), 1) == Some(term@));
    if !s.starts_with(whole) {
        return None;
    }
    let w = whole.unicode_len();
    let all = s.slice_to(w);
    let src = all.trim_trailing_whitespace();
    proof {
        assert(all@.data == s@.data.take(w as int));
        lemma_trimmed_len(all@.data, trailing_ws_pred());
        crate::span::lemma_sub_sub(s@, 0, w as int, 0, trimmed_len(all@.data, trailing_ws_pred()));
    }
    let term_len = term.unicode_len();
    if term_len > src.len() {
        return None;
    }
    let t = src.slice_to(term_len);
    let marker = src.discard(term_len);
    let after = s.discard(w).discard_whitespace();
    Some(MatchedItem {
        item: ListItemMarker::DefinedTerm { term: Content::from_span(&t), marker, source: src },
        after,
    })
}

impl ListItemMarker {
    /// Returns `true` if `source` starts with a list item marker (as the
    /// list item pattern finds it).
    pub fn starts_with_marker(source: &Span) -> (r: bool)
        ensures
            r == (regex_is_match_result(LIST_ITEM_MARKER_PATTERN@, source@.data) == Some(true)),
    {
        match regex_is_match(LIST_ITEM_MARKER_PATTERN, source.data()) {
            Some(b) => b,
            None => false,
        }
    }

    /// Parses the list item marker at the start of `source`, after any
    /// leading blanks: a list item marker, or else a description list term
    /// and its delimiter. Returns the marker and what follows it (past any
    /// blanks).
    pub fn parse(source: &Span) -> (r: Option<MatchedItem<ListItemMarker>>)
        requires
            source@.wf(),
        ensures
            match marker_at(source@) {
                Some((m, after)) => r matches Some(mi) && mi.item@ == m && mi.after@ == after && mi.after@.wf(),
                None => r is None,
            },
    {
        let s = source.discard_whitespace();
        match regex_captures(LIST_ITEM_MARKER_PATTERN, s.data()) {
            Some(caps) => marker_from_captures(&s, &caps),
            None => match regex_captures(DESCRIPTION_LIST_MARKER_PATTERN, s.data()) {
                Some(d) => term_from_captures(&s, &d),
                None => None,
            },
        }
    }

    /// Returns `true` if `other` is a marker of the same list as this one
    /// (equal text for markers of the same kind, disregarding where they
    /// are).
    pub fn is_match_for(&self, other: &ListItemMarker) -> (r: bool)
        ensures
            r == markers_match(self@, other@),
    {
        match (self, other) {
            (ListItemMarker::Hyphen(x), ListItemMarker::Hyphen(y)) => str_eq(x.data(), y.data()),
            (ListItemMarker::Asterisks(x), ListItemMarker::Asterisks(y)) => str_eq(x.data(), y.data()),
            (ListItemMarker::Bullet(x), ListItemMarker::Bullet(y)) => str_eq(x.data(), y.data()),
            (ListItemMarker::Dots(x), ListItemMarker::Dots(y)) => str_eq(x.data(), y.data()),
            (ListItemMarker::AlphaListCapital(_), ListItemMarker::AlphaListCapital(_)) => true,
            (
                ListItemMarker::DefinedTerm { marker: x, .. },
                ListItemMarker::DefinedTerm { marker: y, .. },
            ) => str_eq(x.data(), y.data()),
            _ => false,
        }
    }

    /// Returns the span of this marker (for a term, the whole term
    /// assembly).
    pub fn span(&self) -> (r: &Span)
        ensures
            r@ == marker_span(self@),
    {
        match self {
            ListItemMarker::Hyphen(x) => x,
            ListItemMarker::Asterisks(x) => x,
            ListItemMarker::Bullet(x) => x,
            ListItemMarker::Dots(x) => x,
            ListItemMarker::AlphaListCapital(x) => x,
            ListItemMarker::DefinedTerm { source, .. } => source,
        }
    }

    /// An identical copy of this marker.
    pub fn copy(&self) -> (r: ListItemMarker)
        ensures
            r@ == self@,
    {
        match self {
            ListItemMarker::Hyphen(x) => ListItemMarker::Hyphen(x.copy()),
            ListItemMarker::Asterisks(x) => ListItemMarker::Asterisks(x.copy()),
            ListItemMarker::Bullet(x) => ListItemMarker::Bullet(x.copy()),
            ListItemMarker::Dots(x) => ListItemMarker::Dots(x.copy()),
            ListItemMarker::AlphaListCapital(x) => ListItemMarker::AlphaListCapital(x.copy()),
            ListItemMarker::DefinedTerm { term, marker, source } => ListItemMarker::DefinedTerm {
                term: term.copy(),
                marker: marker.copy(),
                source: source.copy(),
            },
        }
    }
}

} // verus!
