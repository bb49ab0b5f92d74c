use vstd::prelude::*;
use vstd::string::StrSliceExecFns;

verus! {

/// Collects characters into a `String`.
///
/// Calls `String::from_iter` (the `FromIterator<&char>` impl of `String`);
/// the contract claims that the string holds exactly the given characters,
/// in order, as std documents for building a `String` from chars.
#[verifier::external_body]
pub(crate) fn chars_to_string(v: &Vec<char>) -> (r: String)
    ensures
        r@ == v@,
{
    String::from_iter(v)
}

/// Appends the characters of `s` to `out`.
pub fn push_str(out: &mut Vec<char>, s: &str)
    ensures
        final(out)@ == old(out)@ + s@,
{
    let n = s.unicode_len();
    let mut i: usize = 0;
    while i < n
        invariant
            n == s@.len(),
            i <= n,
            out@ == old(out)@ + s@.take(i as int),
        decreases n - i,
    {
        out.push(s.get_char(i));
        proof {
            assert(s@.take(i + 1) =~= s@.take(i as int).push(s@[i as int]));
        }
        i = i + 1;
    }
    assert(s@.take(n as int) =~= s@);
}

/// The characters of `s` as a vector.
pub fn str_to_chars(s: &str) -> (r: Vec<char>)
    ensures
        r@ == s@,
{
    let mut v: Vec<char> = Vec::new();
    push_str(&mut v, s);
    assert(Seq::<char>::empty() + s@ =~= s@);
    v
}

/// The decimal digit character for `d < 10`.
pub open spec fn digit_char(d: nat) -> char {
    if d == 0 {
        '0'
    } else if d == 1 {
        '1'
    } else if d == 2 {
        '2'
    } else if d == 3 {
        '3'
    } else if d == 4 {
        '4'
    } else if d == 5 {
        '5'
    } else if d == 6 {
        '6'
    } else if d == 7 {
        '7'
    } else if d == 8 {
        '8'
    } else {
        '9'
    }
}

/// The decimal representation of `n`, without leading zeros.
pub open spec fn decimal(n: nat) -> Seq<char>
    decreases n,
{
    if n < 10 {
        seq![digit_char(n)]
    } else {
        decimal(n / 10).push(digit_char(n % 10))
    }
}

pub fn digit_char_exec(d: usize) -> (r: char)
    requires
        d < 10,
    ensures
        r == digit_char(d as nat),
{
    if d == 0 {
        '0'
    } else if d == 1 {
        '1'
    } else if d == 2 {
        '2'
    } else if d == 3 {
        '3'
    } else if d == 4 {
        '4'
    } else if d == 5 {
        '5'
    } else if d == 6 {
        '6'
    } else if d == 7 {
        '7'
    } else if d == 8 {
        '8'
    } else {
        '9'
    }
}

/// Appends the decimal representation of `n` to `out`.
pub fn push_decimal(out: &mut Vec<char>, n: usize)
    ensures
        final(out)@ == old(out)@ + decimal(n as nat),
    decreases n,
{
    if n >= 10 {
        push_decimal(out, n / 10);
    }
    out.push(digit_char_exec(n % 10));
    proof {
        if n >= 10 {
            assert(old(out)@ + decimal(n as nat) =~= old(out)@ + decimal((n / 10) as nat) + seq![
                digit_char((n % 10) as nat),
            ]);
        } else {
            assert(old(out)@ + decimal(n as nat) =~= old(out)@ + seq![digit_char(n as nat)]);
        }
    }
}

/// Returns `true` if the two strings hold the same characters.
pub fn str_eq(a: &str, b: &str) -> (r: bool)
    ensures
        r == (a@ == b@),
{
    let n = a.unicode_len();
    if n != b.unicode_len() {
        return false;
    }
    let mut i: usize = 0;
    while i < n
        invariant
            n == a@.len(),
            n == b@.len(),
            i <= n,
            forall|j: int| 0 <= j < i ==> a@[j] == b@[j],
        decreases n - i,
    {
        if a.get_char(i) != b.get_char(i) {
            return false;
        }
        i = i + 1;
    }
    assert(a@ =~= b@);
    true
}

} // verus!

verus! {

use crate::span::{CharClass, class_pred, class_matches, run_len, lemma_run_len_unique};

/// Counts the characters of `v` from `start` on that belong to class `k`.
pub fn vec_run_len_from(v: &Vec<char>, start: usize, k: CharClass) -> (r: usize)
    requires
        start <= v@.len(),
    ensures
        r == start + run_len(v@.skip(start as int), class_pred(k)),
        start <= r <= v@.len(),
{
    let n = v.len();
    let mut i = start;
    while i < n && class_matches(&k, v[i])
        invariant
            start <= i <= n,
            n == v@.len(),
            forall|j: int| start <= j < i ==> class_pred(k)(#[trigger] v@[j]),
        decreases n - i,
    {
        i = i + 1;
    }
    proof {
        let t = v@.skip(start as int);
        assert forall|j: int| 0 <= j < i - start implies class_pred(k)(#[trigger] t[j]) by {
            assert(t[j] == v@[start + j]);
        }
        if i - start < t.len() {
            assert(t[i - start] == v@[i as int]);
        }
        lemma_run_len_unique(t, class_pred(k), i - start);
    }
    i
}

} // verus!
