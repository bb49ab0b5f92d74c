use vstd::prelude::*;

verus! {

/// What `Regex::new(pattern)` followed by `is_match(haystack)` gives:
/// `None` if the pattern does not compile.
pub uninterp spec fn regex_is_match_result(pattern: Seq<char>, haystack: Seq<char>) -> Option<bool>;

/// The capture groups of the first match of `pattern` in `haystack`, each
/// as its matched text (`None` for a group that did not take part), or
/// `None` if the pattern does not compile or does not match.
pub uninterp spec fn regex_captures_result(pattern: Seq<char>, haystack: Seq<char>) -> Option<
    Seq<Option<Seq<char>>>,
>;

/// `haystack` with every match of `pattern` replaced by `replacement`
/// (expanded as `Regex::replace_all` does), or `None` if the pattern does not
/// compile.
pub uninterp spec fn regex_replace_all_result(
    pattern: Seq<char>,
    haystack: Seq<char>,
    replacement: Seq<char>,
) -> Option<Seq<char>>;

/// The lowercase form of `s`, as `str::to_lowercase` computes it.
pub uninterp spec fn lowercase_of(s: Seq<char>) -> Seq<char>;

/// Compiles `pattern` with `regex::Regex::new` and tests it against
/// `haystack` with `Regex::is_match`.
///
/// The contract only names the result: it is a function of the pattern and
/// the haystack. Nothing is claimed about which haystacks match.
#[verifier::external_body]
pub(crate) fn regex_is_match(pattern: &str, haystack: &str) -> (r: Option<bool>)
    ensures
        r == regex_is_match_result(pattern@, haystack@),
{
    match regex::Regex::new(pattern) {
        Ok(re) => Some(re.is_match(haystack)),
        Err(_) => None,
    }
}

/// Compiles `pattern` with `regex::Regex::new` and returns the capture
/// groups of `Regex::captures` on `haystack`, each group converted to an
/// owned `String` (`Captures::iter` in group order).
///
/// The contract only names the result; in particular it does not claim
/// where in the haystack a group matched.
#[verifier::external_body]
pub(crate) fn regex_captures(pattern: &str, haystack: &str) -> (r: Option<Vec<Option<String>>>)
    ensures
        match r {
            Some(v) => regex_captures_result(pattern@, haystack@) == Some(
                v@.map_values(|g: Option<String>| match g {
                    Some(s) => Some(s@),
                    None => None,
                }),
            ),
            None => regex_captures_result(pattern@, haystack@) is None,
        },
{
    let re = regex::Regex::new(pattern).ok()?;
    let caps = re.captures(haystack)?;
    Some(caps.iter().map(|m| m.map(|m| m.as_str().to_string())).collect())
}

/// Compiles `pattern` with `regex::Regex::new` and calls
/// `Regex::replace_all` on `haystack`.
///
/// The contract only names the result as a function of its arguments.
#[verifier::external_body]
pub(crate) fn regex_replace_all(pattern: &str, haystack: &str, replacement: &str) -> (r: Option<String>)
    ensures
        match r {
            Some(s) => regex_replace_all_result(pattern@, haystack@, replacement@) == Some(s@),
            None => regex_replace_all_result(pattern@, haystack@, replacement@) is None,
        },
{
    let re = regex::Regex::new(pattern).ok()?;
    Some(re.replace_all(haystack, replacement).to_string())
}

/// Calls `str::to_lowercase`.
///
/// The contract only names the result (Unicode lowercase mapping) as a
/// function of the input.
#[verifier::external_body]
pub(crate) fn to_lowercase(s: &str) -> (r: String)
    ensures
        r@ == lowercase_of(s@),
{
    s.to_lowercase()
}

} // verus!
