use vstd::prelude::*;

use crate::blocks::metadata::{BlockMetadata, md_loop};
use crate::blocks::raw_delimited::next_line;
use crate::parser::{Parser, attr_lookup, default_attributes};
use crate::patterns::{lowercase_of, regex_replace_all, regex_replace_all_result, to_lowercase};
use crate::span::{
    CharClass, MatchedItem, Span, SpanView, blank_pred, class_pred, empty_lines_len, is_char,
    lemma_line_lens, lemma_run_len, line_item_len, normalized_line_len, run_len,
};
use crate::text::{chars_to_string, push_str, str_to_chars};
use crate::warnings::{Warning, WarningType, warning_views};

verus! {

/// What a section title line at the start of `source` gives: its level
/// (the number of `=` or `#` marks, less one), the title text and what
/// follows the line; and the warnings for a level-0 or too-deep marker.
pub open spec fn title_line(source: SpanView) -> (Option<(int, SpanView, SpanView)>, Seq<(SpanView, WarningType)>) {
    if normalized_line_len(source.data) == 0 {
        (None, Seq::empty())
    } else {
        let line = source.sub(0, line_item_len(source.data));
        let mark = if line.data[0] == '=' { '=' } else { '#' };
        let count = run_len(line.data, is_char(mark));
        let norm = source.sub(0, normalized_line_len(source.data));
        if count == 0 {
            (None, Seq::empty())
        } else if count == 1 {
            (None, seq![(norm, WarningType::Level0SectionHeadingNotSupported)])
        } else if count > 6 {
            (None, seq![(norm, WarningType::SectionHeadingLevelExceedsMaximum((count - 1) as usize))])
        } else {
            let rest = line.skip(count);
            let ws = run_len(rest.data, blank_pred());
            if ws == 0 {
                (None, Seq::empty())
            } else {
                (Some((count - 1, rest.skip(ws), next_line(source))), Seq::empty())
            }
        }
    }
}

/// Parses a section title line: two to six `=` (or `#`) marks, blanks,
/// then the title. The level is the number of marks less one, so it is
/// between 1 and 5.
pub fn parse_title_line(source: &Span, warnings: &mut Vec<Warning>) -> (r: Option<MatchedItem<(usize, Span)>>)
    requires
        source@.wf(),
    ensures
        ({
            let t = title_line(source@);
            &&& r is Some == t.0 is Some
            &&& r matches Some(mi) ==> {
                let (lvl, title, after) = t.0->0;
                &&& mi.item.0 == lvl
                &&& mi.item.1@ == title
                &&& mi.after@ == after
                &&& mi.item.1@.wf()
                &&& mi.after@.wf()
                &&& 1 <= mi.item.0 <= 5
            }
            &&& warning_views(final(warnings)@) == warning_views(old(warnings)@) + t.1
        }),
{
    proof {
        lemma_line_lens(source@.data);
        crate::span::lemma_normalized_within_item(source@.data);
    }
    let mi = match source.take_non_empty_line() {
        Some(mi) => mi,
        None => {
            assert(warning_views(warnings@) =~= warning_views(old(warnings)@) + Seq::empty());
            return None;
        },
    };
    let line = mi.item;
    let mark = if line.char_at(0) == '=' {
        '='
    } else {
        '#'
    };
    let count = line.run_len_from(0, CharClass::Is(mark));
    proof {
        assert(line@.data.skip(0) =~= line@.data);
        assert(class_pred(CharClass::Is(mark)) == is_char(mark));
        lemma_run_len(line@.data, is_char(mark));
    }
    if count == 0 {
        assert(warning_views(warnings@) =~= warning_views(old(warnings)@) + Seq::empty());
        return None;
    }
    if count == 1 || count > 6 {
        let norm = source.take_normalized_line().item;
        let ghost nv = norm@;
        let w = if count == 1 {
            WarningType::Level0SectionHeadingNotSupported
        } else {
            WarningType::SectionHeadingLevelExceedsMaximum(count - 1)
        };
        warnings.push(Warning { source: norm, warning: w });
        assert(warning_views(warnings@) =~= warning_views(old(warnings)@) + seq![(nv, w)]);
        return None;
    }
    let rest = line.discard(count);
    let ws = rest.take_whitespace();
    proof {
        lemma_run_len(rest@.data, blank_pred());
    }
    if ws.item.is_empty() {
        assert(warning_views(warnings@) =~= warning_views(old(warnings)@) + Seq::empty());
        return None;
    }
    assert(warning_views(warnings@) =~= warning_views(old(warnings)@) + Seq::empty());
    Some(MatchedItem { item: (count - 1, ws.after), after: mi.after })
}

/// The level of the section title line that starts the block at `source`
/// (past its metadata, read with default attributes), if there is one.
pub open spec fn next_title_level(source: SpanView) -> (Option<int>, Seq<(SpanView, WarningType)>) {
    let src = source.skip(empty_lines_len(source.data));
    let start = md_loop(src, (None, None, None, None), default_attributes()).0;
    let t = title_line(start);
    (
        match t.0 {
            Some((level, _, _)) => Some(level),
            None => None,
        },
        t.1,
    )
}

/// Decides whether the block at `source` is a section title at `level` or
/// above (a peer or an ancestor of the section being read), which ends
/// that section. Records the level of any section title found in
/// `most_recent_level`, and warns when it skips a level.
pub fn peer_or_ancestor_section(
    source: &Span,
    level: usize,
    most_recent_level: &mut usize,
    warnings: &mut Vec<Warning>,
) -> (r: bool)
    requires
        source@.wf(),
        *old(most_recent_level) <= 5,
    ensures
        ({
            let (found, w) = next_title_level(source@);
            let line = source@.sub(0, normalized_line_len(source@.data));
            &&& r == (found matches Some(f) && f <= level)
            &&& *final(most_recent_level) == match found {
                Some(f) => f as usize,
                None => *old(most_recent_level),
            }
            &&& *final(most_recent_level) <= 5
            &&& warning_views(final(warnings)@) == warning_views(old(warnings)@) + w + match found {
                Some(f) => if f > *old(most_recent_level) + 1 {
                    seq![(line, WarningType::SectionHeadingLevelSkipped(*old(most_recent_level), f as usize))]
                } else {
                    Seq::empty()
                },
                None => Seq::empty(),
            }
        }),
{
    let temp_parser = Parser::default();
    let md = BlockMetadata::parse(source, &temp_parser);
    let start = md.item.block_start;
    let ghost w0 = warning_views(warnings@);
    match parse_title_line(&start, warnings) {
        Some(mi) => {
            let found = mi.item.0;
            let ghost w1 = warning_views(warnings@);
            if found > *most_recent_level + 1 {
                let line = source.take_normalized_line().item;
                let ghost lv = line@;
                let w = WarningType::SectionHeadingLevelSkipped(*most_recent_level, found);
                warnings.push(Warning { source: line, warning: w });
                proof {
                    lemma_line_lens(source@.data);
                    assert(warning_views(warnings@) =~= w1 + seq![(lv, w)]);
                }
            } else {
                assert(warning_views(warnings@) =~= w1 + Seq::empty());
            }
            *most_recent_level = found;
            found <= level
        },
        None => {
            assert(warning_views(warnings@) =~= warning_views(warnings@) + Seq::empty());
            false
        },
    }
}

/// The pattern of what a generated section ID drops: markup tags, escaped
/// tags, character references, and characters other than word characters,
/// blanks, hyphens and dots.
pub const INVALID_SECTION_ID_CHARS_PATTERN: &'static str = "<[^>]+>|&lt;[^&]*&gt;|&(?:[a-z][a-z]+\\d{0,2}|#\\d{2,5}|#x[\\da-f]{2,4});|[^ \\w\\-.]+";

/// `s` with each space, dot and hyphen replaced by `sep`.
pub open spec fn replace_separators(s: Seq<char>, sep: Seq<char>) -> Seq<char>
    decreases s.len(),
{
    if s.len() == 0 {
        Seq::empty()
    } else {
        let c = s.last();
        replace_separators(s.drop_last(), sep) + if c == ' ' || c == '.' || c == '-' {
            sep
        } else {
            seq![c]
        }
    }
}

/// `s` with each run of `c` shortened to a single `c`.
pub open spec fn collapse_runs(s: Seq<char>, c: char) -> Seq<char>
    decreases s.len(),
{
    if s.len() == 0 {
        Seq::empty()
    } else if s.len() >= 2 && s.last() == c && s[s.len() - 2] == c {
        collapse_runs(s.drop_last(), c)
    } else {
        collapse_runs(s.drop_last(), c).push(s.last())
    }
}

/// The section ID proposed for a section titled `title`: the title in
/// lower case, without markup and invalid characters, then as
/// [`section_id_from`] says.
pub open spec fn section_id_of(title: Seq<char>, attrs: Seq<(Seq<char>, Option<Seq<char>>)>) -> Seq<char> {
    let lower = lowercase_of(title);
    let cleaned = match regex_replace_all_result(INVALID_SECTION_ID_CHARS_PATTERN@, lower, Seq::empty()) {
        Some(c) => c,
        None => lower,
    };
    section_id_from(cleaned, attrs)
}

/// The section ID made of the lowercased, cleaned title `cleaned`: with
/// separators in place of spaces, dots and hyphens (runs of them
/// collapsed, none at the end, and none at the start unless there is a
/// prefix), after `idprefix`.
pub open spec fn section_id_from(cleaned: Seq<char>, attrs: Seq<(Seq<char>, Option<Seq<char>>)>) -> Seq<char> {
    let prefix = match attr_lookup(attrs, "idprefix"@) {
        Some(p) => p,
        None => Seq::empty(),
    };
    let separator = match attr_lookup(attrs, "idseparator"@) {
        Some(s) => s,
        None => Seq::empty(),
    };
    let sep = separator.take(if separator.len() > 0 { 1 } else { 0 });
    let replaced = replace_separators(cleaned, sep);
    let id = if sep.len() == 0 {
        replaced
    } else {
        let c = sep[0];
        let collapsed = collapse_runs(replaced, c);
        let trimmed = if collapsed.len() > 0 && collapsed.last() == c {
            collapsed.drop_last()
        } else {
            collapsed
        };
        if prefix.len() == 0 && trimmed.len() > 0 && trimmed[0] == c {
            trimmed.drop_first()
        } else {
            trimmed
        }
    };
    prefix + id
}

/// Proposes a section ID from the (rendered) section title, as the
/// AsciiDoc language describes for automatic section IDs.
pub fn generate_section_id(title: &str, parser: &Parser) -> (r: String)
    ensures
        r@ == section_id_of(title@, parser@.attributes),
{
    proof {
        reveal_strlit("");
        assert(""@ =~= Seq::<char>::empty());
    }
    let lower = to_lowercase(title);
    let cleaned = match regex_replace_all(INVALID_SECTION_ID_CHARS_PATTERN, lower.as_str(), "") {
        Some(c) => c,
        None => lower,
    };
    section_id_from_cleaned(cleaned.as_str(), parser)
}

/// Makes the section ID from the lowercased title `cleaned`, once markup
/// and invalid characters are removed, as [`section_id_from`] says.
pub fn section_id_from_cleaned(cleaned: &str, parser: &Parser) -> (r: String)
    ensures
        r@ == section_id_from(cleaned@, parser@.attributes),
{
    proof {
        reveal_strlit("");
        assert(""@ =~= Seq::<char>::empty());
    }
    let prefix: &str = match parser.attribute_value("idprefix") {
        Some(p) => p,
        None => "",
    };
    let separator: &str = match parser.attribute_value("idseparator") {
        Some(s) => s,
        None => "",
    };
    let sep_chars = str_to_chars(separator);
    let has_sep = sep_chars.len() > 0;
    let ghost sep = separator@.take(if separator@.len() > 0 { 1 } else { 0 });
    let cl = str_to_chars(cleaned);
    let n = cl.len();
    let mut replaced: Vec<char> = Vec::new();
    let mut i: usize = 0;
    while i < n
        invariant
            n == cl@.len(),
            i <= n,
            has_sep == (sep_chars@.len() > 0),
            sep_chars@ == separator@,
            sep == separator@.take(if separator@.len() > 0 { 1 } else { 0 }),
            replaced@ == replace_separators(cl@.take(i as int), sep),
        decreases n - i,
    {
        let c = cl[i];
        proof {
            assert(cl@.take(i + 1).drop_last() =~= cl@.take(i as int));
        }
        if c == ' ' || c == '.' || c == '-' {
            if has_sep {
                replaced.push(sep_chars[0]);
                assert(sep =~= seq![sep_chars@[0]]);
            } else {
                assert(sep =~= Seq::<char>::empty());
                assert(replaced@ =~= replaced@ + sep);
            }
        } else {
            replaced.push(c);
        }
        i = i + 1;
    }
    assert(cl@.take(n as int) =~= cl@);
    let mut out: Vec<char> = Vec::new();
    push_str(&mut out, prefix);
    if !has_sep {
        let mut j: usize = 0;
        let m = replaced.len();
        while j < m
            invariant
                m == replaced@.len(),
                j <= m,
                out@ == prefix@ + replaced@.take(j as int),
            decreases m - j,
        {
            out.push(replaced[j]);
            j = j + 1;
            assert(out@ =~= prefix@ + replaced@.take(j as int));
        }
        assert(replaced@.take(m as int) =~= replaced@);
        return chars_to_string(&out);
    }
    let c = sep_chars[0];
    let m = replaced.len();
    let mut collapsed: Vec<char> = Vec::new();
    let mut j: usize = 0;
    while j < m
        invariant
            m == replaced@.len(),
            j <= m,
            collapsed@ == collapse_runs(replaced@.take(j as int), c),
        decreases m - j,
    {
        let ch = replaced[j];
        proof {
            assert(replaced@.take(j + 1).drop_last() =~= replaced@.take(j as int));
        }
        if !(j >= 1 && ch == c && replaced[j - 1] == c) {
            collapsed.push(ch);
        }
        j = j + 1;
    }
    assert(replaced@.take(m as int) =~= replaced@);
    let k = collapsed.len();
    let end = if k > 0 && collapsed[k - 1] == c {
        k - 1
    } else {
        k
    };
    let start = if prefix.unicode_len() == 0 && end > 0 && collapsed[0] == c {
        1
    } else {
        0
    };
    let mut j: usize = start;
    while j < end
        invariant
            start <= j <= end <= collapsed@.len(),
            out@ == prefix@ + collapsed@.subrange(start as int, j as int),
        decreases end - j,
    {
        out.push(collapsed[j]);
        j = j + 1;
        assert(out@ =~= prefix@ + collapsed@.subrange(start as int, j as int));
    }
    proof {
        let coll = collapse_runs(replace_separators(cleaned@, sep), c);
        let trimmed = if coll.len() > 0 && coll.last() == c {
            coll.drop_last()
        } else {
            coll
        };
        assert(trimmed =~= collapsed@.subrange(0, end as int));
        if start == 1 {
            assert(trimmed.drop_first() =~= collapsed@.subrange(1, end as int));
        } else {
            assert(trimmed =~= collapsed@.subrange(0, end as int));
        }
    }
    chars_to_string(&out)
}

} // verus!
