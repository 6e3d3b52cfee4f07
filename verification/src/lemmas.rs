//! Facts about the grammar on which the proofs of the crate rest.

use vstd::prelude::*;
use crate::grammar::{
    decimal_value, digit_value, entry_prefix, is_digit, leading_digits, number_prefix, DASH,
};

verus! {

/// The leading digits of `s` are digits, they lie within `s`, and what
/// follows them is no digit.
pub proof fn lemma_leading_digits_bounds(s: Seq<char>)
    ensures
        leading_digits(s) <= s.len(),
        forall|k: int| 0 <= k < leading_digits(s) ==> is_digit(#[trigger] s[k]),
        leading_digits(s) < s.len() ==> !is_digit(s[leading_digits(s) as int]),
    decreases s.len(),
{
    if s.len() > 0 && is_digit(s[0]) {
        let tail = s.skip(1);
        lemma_leading_digits_bounds(tail);
        assert forall|k: int| 0 <= k < leading_digits(s) implies is_digit(#[trigger] s[k]) by {
            if k > 0 {
                assert(s[k] == tail[k - 1]);
            }
        }
        if leading_digits(s) < s.len() {
            assert(s[leading_digits(s) as int] == tail[leading_digits(tail) as int]);
        }
    }
}

/// A run of `len` digits at the start of `s` that ends where `s` ends, or
/// before a character that is no digit, is all of the leading digits of `s`.
pub proof fn lemma_leading_digits_is(s: Seq<char>, len: nat)
    requires
        len <= s.len(),
        forall|k: int| 0 <= k < len ==> is_digit(#[trigger] s[k]),
        len < s.len() ==> !is_digit(s[len as int]),
    ensures
        leading_digits(s) == len,
    decreases len,
{
    if len > 0 {
        let tail = s.skip(1);
        assert forall|k: int| 0 <= k < len - 1 implies is_digit(#[trigger] tail[k]) by {
            assert(tail[k] == s[k + 1]);
        }
        lemma_leading_digits_is(tail, (len - 1) as nat);
    }
}

/// Reading more digits never gives a smaller value.
pub proof fn lemma_decimal_value_grows(digits: Seq<char>, shorter: int, longer: int)
    requires
        0 <= shorter <= longer <= digits.len(),
    ensures
        decimal_value(digits.take(shorter)) <= decimal_value(digits.take(longer)),
    decreases longer - shorter,
{
    if shorter < longer {
        lemma_decimal_value_grows(digits, shorter, longer - 1);
        assert(digits.take(longer).drop_last() =~= digits.take(longer - 1));
    }
}

/// One more digit at the end multiplies the value by ten and adds the digit.
pub proof fn lemma_decimal_value_step(digits: Seq<char>, len: int)
    requires
        0 <= len < digits.len(),
    ensures
        decimal_value(digits.take(len + 1)) == 10 * decimal_value(digits.take(len)) + digit_value(
            digits[len],
        ),
{
    assert(digits.take(len + 1).drop_last() =~= digits.take(len));
}

/// Whether `c` can stand inside an entry: whether it is a digit or the dash.
pub open spec fn is_entry_char(c: char) -> bool {
    is_digit(c) || c == DASH
}

/// Whether `s` and `t` are the same up to position `end`, where each of
/// them ends or goes on with a character that satisfies `stops`.
pub open spec fn same_until(
    s: Seq<char>,
    t: Seq<char>,
    end: int,
    stops: spec_fn(char) -> bool,
) -> bool {
    &&& 0 <= end <= s.len()
    &&& end <= t.len()
    &&& s.take(end) == t.take(end)
    &&& end < s.len() ==> stops(s[end])
    &&& end < t.len() ==> stops(t[end])
}

/// The number at the start of an input is decided by the characters up to
/// the first that is no digit.
pub proof fn lemma_number_prefix_local(s: Seq<char>, t: Seq<char>, end: int)
    requires
        same_until(s, t, end, |c: char| !is_digit(c)),
    ensures
        number_prefix(s) == number_prefix(t),
{
    let len = leading_digits(s);
    lemma_leading_digits_bounds(s);
    if len > end {
        assert(is_digit(s[end]));
    }
    assert forall|k: int| 0 <= k < len implies is_digit(#[trigger] t[k]) by {
        assert(t[k] == t.take(end)[k]);
        assert(s[k] == s.take(end)[k]);
    }
    if len < t.len() {
        if len < end {
            assert(t[len as int] == t.take(end)[len as int]);
            assert(s[len as int] == s.take(end)[len as int]);
        }
    }
    lemma_leading_digits_is(t, len);
    assert(s.take(len as int) =~= s.take(end).take(len as int));
    assert(t.take(len as int) =~= t.take(end).take(len as int));
}

/// An entry takes at least one character, takes none beyond the end of the
/// input, and takes only digits and dashes.
pub proof fn lemma_entry_prefix_bounds(s: Seq<char>)
    ensures
        entry_prefix(s) matches Some((_, len)) ==> {
            &&& 0 < len <= s.len()
            &&& forall|k: int| 0 <= k < len ==> is_entry_char(#[trigger] s[k])
        },
{
    let first = number_prefix(s);
    let dash_at: nat = match first {
        Some((_, len)) => len,
        None => 0,
    };
    lemma_leading_digits_bounds(s);
    if dash_at < s.len() && s[dash_at as int] == DASH {
        let tail = s.skip(dash_at as int + 1);
        lemma_leading_digits_bounds(tail);
        if let Some((_, len)) = entry_prefix(s) {
            assert forall|k: int| 0 <= k < len implies is_entry_char(#[trigger] s[k]) by {
                if k > dash_at {
                    assert(s[k] == tail[k - dash_at - 1]);
                }
            }
        }
    }
}

/// The entry at the start of an input is decided by the characters up to
/// the first that is neither a digit nor a dash.
pub proof fn lemma_entry_prefix_local(s: Seq<char>, t: Seq<char>, end: int)
    requires
        same_until(s, t, end, |c: char| !is_entry_char(c)),
    ensures
        entry_prefix(s) == entry_prefix(t),
{
    lemma_number_prefix_local(s, t, end);
    let first = number_prefix(s);
    let dash_at: nat = match first {
        Some((_, len)) => len,
        None => 0,
    };
    lemma_leading_digits_bounds(s);
    if dash_at > end {
        assert(is_digit(s[end]));
    }
    if dash_at < end {
        assert(t[dash_at as int] == t.take(end)[dash_at as int]);
        assert(s[dash_at as int] == s.take(end)[dash_at as int]);
        if s[dash_at as int] == DASH {
            let from = dash_at as int + 1;
            assert(s.skip(from).take(end - from) =~= s.take(end).skip(from));
            assert(t.skip(from).take(end - from) =~= t.take(end).skip(from));
            lemma_number_prefix_local(s.skip(from), t.skip(from), end - from);
        }
    }
}

} // verus!
