//! The grammar of page selectors, as functions on sequences of characters.
//!
//! ```text
//! selector := entry (',' entry)* ','?  |  (nothing)
//! entry    := number | number '-' | '-' number | number '-' number
//! number   := digit+
//! ```
//!
//! An input is read from left to right. Each entry takes as many characters
//! as it can: the digits of its first number, a dash, the digits of its
//! second number. A run of digits whose value does not fit in a `usize` does
//! not count as a number, so the entry ends before it.

use vstd::prelude::*;
use crate::range::{page_set, PageRange};

verus! {

/// The character that separates the entries of a selector.
pub const SEPARATOR: char = ',';

/// The character that stands between the two bounds of a range.
pub const DASH: char = '-';

/// Whether `c` is one of the ten decimal digits `0` to `9`.
pub open spec fn is_digit(c: char) -> bool {
    '0' <= c <= '9'
}

/// The value of the decimal digit `c`.
pub open spec fn digit_value(c: char) -> nat
    recommends
        is_digit(c),
{
    (c as int - '0' as int) as nat
}

/// The number of decimal digits at the start of `s`.
pub open spec fn leading_digits(s: Seq<char>) -> nat
    decreases s.len(),
{
    if s.len() > 0 && is_digit(s[0]) {
        1 + leading_digits(s.skip(1))
    } else {
        0
    }
}

/// The number that the digits of `digits` denote in base ten. The empty
/// sequence denotes zero, and leading zeros do not change the value.
pub open spec fn decimal_value(digits: Seq<char>) -> nat
    decreases digits.len(),
{
    if digits.len() == 0 {
        0
    } else {
        10 * decimal_value(digits.drop_last()) + digit_value(digits.last())
    }
}

/// The number at the start of `s`, with the count of characters that it
/// takes: all the leading digits of `s`. There is none when `s` does not
/// start with a digit, and none when the digits denote a value above
/// `usize::MAX`.
pub open spec fn number_prefix(s: Seq<char>) -> Option<(usize, nat)> {
    let len = leading_digits(s);
    let value = decimal_value(s.take(len as int));
    if len > 0 && value <= usize::MAX {
        Some((value as usize, len))
    } else {
        None
    }
}

/// The entry at the start of `s`, with the count of characters that it
/// takes. What follows the entry is not looked at.
///
/// | first number | dash | second number | entry           |
/// |--------------|------|---------------|-----------------|
/// | `N`          | no   |               | `Single(N)`     |
/// | `N`          | yes  | none          | `From(N)`       |
/// | none         | yes  | `M`           | `UpTo(M)`       |
/// | `N`          | yes  | `M`           | `Between(N, M)` |
/// | none         | no   |               | none            |
/// | none         | yes  | none          | none            |
pub open spec fn entry_prefix(s: Seq<char>) -> Option<(PageRange, nat)> {
    let first = number_prefix(s);
    let dash_at = match first {
        Some((_, len)) => len,
        None => 0,
    };
    if dash_at < s.len() && s[dash_at as int] == DASH {
        let second = number_prefix(s.skip(dash_at as int + 1));
        match (first, second) {
            (Some((n, _)), None) => Some((PageRange::From(n), dash_at + 1)),
            (None, Some((m, len))) => Some((PageRange::UpTo(m), dash_at + 1 + len)),
            (Some((n, _)), Some((m, len))) => Some(
                (PageRange::Between(n, m), dash_at + 1 + len),
            ),
            (None, None) => None,
        }
    } else {
        match first {
            Some((n, len)) => Some((PageRange::Single(n), len)),
            None => None,
        }
    }
}

/// The entries of the selector `s` in the order in which they are written,
/// or the position at which `s` stops being a selector.
///
/// The empty input is the selector without entries. Otherwise `s` starts
/// with an entry, and after it comes the end of the input or a separator
/// and a selector. So a separator may end the input, but it may neither
/// start it nor follow another separator.
///
/// The position of a failure counts characters from the start of `s`. It
/// is where an entry was looked for and none found, or where something else
/// than a separator follows an entry.
pub open spec fn parse_selector(s: Seq<char>) -> Result<Seq<PageRange>, nat>
    decreases s.len(),
{
    if s.len() == 0 {
        Ok(Seq::empty())
    } else {
        match entry_prefix(s) {
            None => Err(0),
            Some((entry, len)) => {
                if len >= s.len() {
                    Ok(seq![entry])
                } else if s[len as int] == SEPARATOR {
                    match parse_selector(s.skip(len as int + 1)) {
                        Ok(rest) => Ok(seq![entry] + rest),
                        Err(position) => Err(len + 1 + position),
                    }
                } else {
                    Err(len)
                }
            },
        }
    }
}

/// The pages that the selector `s` denotes, or the position at which `s`
/// stops being a selector.
pub open spec fn selected_pages(s: Seq<char>) -> Result<Set<nat>, nat> {
    match parse_selector(s) {
        Ok(ranges) => Ok(page_set(ranges)),
        Err(position) => Err(position),
    }
}

} // verus!
