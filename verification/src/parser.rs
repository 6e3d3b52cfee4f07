//! Reading a page selector from characters.

use vstd::prelude::*;
use vstd::slice::slice_subrange;
use vstd::string::StrSliceExecFns;
use crate::grammar::{
    decimal_value, digit_value, entry_prefix, is_digit, leading_digits, number_prefix,
    parse_selector, selected_pages, DASH, SEPARATOR,
};
use crate::lemmas::{
    lemma_decimal_value_grows, lemma_decimal_value_step, lemma_leading_digits_bounds,
    lemma_leading_digits_is,
};
use crate::pages::Pages;
use crate::range::PageRange;

verus! {

/// Why an input is no page selector.
#[derive(Debug, PartialEq, Eq)]
pub struct ParseError {
    /// The count of characters before the place at which the input stops
    /// being a selector.
    pub position: usize,
    /// The input from that place to its end.
    pub fragment: String,
}

impl Clone for ParseError {
    /// The same position and the same rest of the input.
    fn clone(&self) -> (copy: Self)
        ensures
            copy == *self,
    {
        ParseError { position: self.position, fragment: self.fragment.clone() }
    }
}

/// Whether `result` is what reading `input` as a page selector gives: the
/// set of the pages that `input` denotes, or the position at which `input`
/// stops being a selector, with the rest of `input` from there.
pub open spec fn reads_as(input: Seq<char>, result: Result<Pages, ParseError>) -> bool {
    match result {
        Ok(pages) => selected_pages(input) == Ok::<Set<nat>, nat>(pages@),
        Err(error) => {
            &&& selected_pages(input) == Err::<Set<nat>, nat>(error.position as nat)
            &&& error.position < input.len()
            &&& error.fragment@ == input.skip(error.position as int)
        },
    }
}

/// Tells whether `c` is a decimal digit.
fn is_decimal_digit(c: char) -> (digit: bool)
    ensures
        digit == is_digit(c),
{
    '0' <= c && c <= '9'
}

/// The value of a decimal digit.
fn decimal_digit_value(c: char) -> (value: usize)
    requires
        is_digit(c),
    ensures
        value == digit_value(c),
        value <= 9,
{
    (c as u32 - '0' as u32) as usize
}

/// Reads the number at the start of `input`: all of its leading digits, as
/// a number in base ten. Returns the number and the count of characters
/// read, or nothing when `input` does not start with a digit or the number
/// does not fit in a `usize`.
pub fn parse_number(input: &[char]) -> (result: Option<(usize, usize)>)
    ensures
        match result {
            Some((value, len)) => number_prefix(input@) == Some((value, len as nat)) && 0 < len
                <= input@.len(),
            None => number_prefix(input@) is None,
        },
{
    let mut value: usize = 0;
    let mut len: usize = 0;
    while len < input.len() && is_decimal_digit(input[len])
        invariant
            len <= input@.len(),
            forall|k: int| 0 <= k < len ==> is_digit(#[trigger] input@[k]),
            value == decimal_value(input@.take(len as int)),
        decreases input@.len() - len,
    {
        let digit = decimal_digit_value(input[len]);
        proof {
            lemma_decimal_value_step(input@, len as int);
        }
        let next = match value.checked_mul(10) {
            Some(tenfold) => tenfold.checked_add(digit),
            None => None,
        };
        match next {
            Some(next) => {
                value = next;
                len += 1;
            },
            None => {
                proof {
                    let all = leading_digits(input@);
                    lemma_leading_digits_bounds(input@);
                    if all <= len {
                        assert(!is_digit(input@[all as int]));
                    }
                    lemma_decimal_value_grows(input@, len + 1, all as int);
                }
                return None;
            },
        }
    }
    proof {
        lemma_leading_digits_is(input@, len as nat);
    }
    if len == 0 {
        None
    } else {
        Some((value, len))
    }
}

/// Reads the entry at the start of `input` and returns it with the count of
/// characters that it takes, or nothing when `input` does not start with an
/// entry.
///
/// The entry takes as much of `input` as it can: the digits of a first
/// number, a dash, the digits of a second number. What follows it is left
/// to the caller.
pub fn parse_page_range(input: &[char]) -> (result: Option<(PageRange, usize)>)
    ensures
        match result {
            Some((range, len)) => entry_prefix(input@) == Some((range, len as nat)) && 0 < len
                <= input@.len(),
            None => entry_prefix(input@) is None,
        },
{
    let first = parse_number(input);
    let dash_at = match first {
        Some((_, len)) => len,
        None => 0,
    };
    if dash_at < input.len() && input[dash_at] == DASH {
        let second = parse_number(slice_subrange(input, dash_at + 1, input.len()));
        assert(input@.subrange(dash_at + 1, input@.len() as int) == input@.skip(dash_at + 1));
        match (first, second) {
            (Some((start, _)), None) => Some((PageRange::From(start), dash_at + 1)),
            (None, Some((end, len))) => Some((PageRange::UpTo(end), dash_at + 1 + len)),
            (Some((start, _)), Some((end, len))) => Some(
                (PageRange::Between(start, end), dash_at + 1 + len),
            ),
            (None, None) => None,
        }
    } else {
        match first {
            Some((page, len)) => Some((PageRange::Single(page), len)),
            None => None,
        }
    }
}

/// What a selector comes to when its first `offset` characters gave the
/// entries `done` and the characters after them give `rest`.
spec fn after_entries(
    done: Seq<PageRange>,
    offset: nat,
    rest: Result<Seq<PageRange>, nat>,
) -> Result<Seq<PageRange>, nat> {
    match rest {
        Ok(ranges) => Ok(done + ranges),
        Err(position) => Err(offset + position),
    }
}

/// Reads a whole selector and returns its entries in the order in which
/// they are written, or the position at which `input` stops being a
/// selector. Nothing is returned of the entries before a failure.
pub fn parse_page_list(input: &[char]) -> (result: Result<Vec<PageRange>, usize>)
    ensures
        match result {
            Ok(ranges) => parse_selector(input@) == Ok::<Seq<PageRange>, nat>(ranges@),
            Err(position) => parse_selector(input@) == Err::<Seq<PageRange>, nat>(position as nat)
                && position < input@.len(),
        },
{
    let mut ranges: Vec<PageRange> = Vec::new();
    let mut position: usize = 0;
    assert(input@.skip(0) == input@);
    assert(Seq::<PageRange>::empty() + Seq::<PageRange>::empty() == Seq::<PageRange>::empty());
    while position < input.len()
        invariant
            position <= input@.len(),
            parse_selector(input@) == after_entries(
                ranges@,
                position as nat,
                parse_selector(input@.skip(position as int)),
            ),
        decreases input@.len() - position,
    {
        let ghost rest = input@.skip(position as int);
        let ghost done = ranges@;
        assert(input@.subrange(position as int, input@.len() as int) == rest);
        match parse_page_range(slice_subrange(input, position, input.len())) {
            None => {
                return Err(position);
            },
            Some((range, len)) => {
                ranges.push(range);
                let next = position + len;
                if next >= input.len() {
                    assert(done + seq![range] == ranges@);
                    return Ok(ranges);
                }
                assert(rest[len as int] == input@[next as int]);
                if input[next] != SEPARATOR {
                    return Err(next);
                }
                assert(rest.skip(len + 1) == input@.skip(next + 1));
                assert forall|more: Seq<PageRange>|
                    done + (seq![range] + more) == ranges@ + more by {
                    assert(done + (seq![range] + more) =~= ranges@ + more);
                }
                position = next + 1;
            },
        }
    }
    assert(ranges@ + Seq::<PageRange>::empty() == ranges@);
    Ok(ranges)
}

/// The characters of `text` in their order.
fn characters(text: &str) -> (chars: Vec<char>)
    ensures
        chars@ == text@,
{
    let mut chars: Vec<char> = Vec::new();
    for c in it: text.chars()
        invariant
            chars@ == it.seq().take(it.index() as int),
    {
        chars.push(c);
    }
    chars
}

/// Reads a page selector such as `1-3,5,9-` and returns the set of the
/// pages that it denotes.
///
/// The whole of `input` must be a selector: otherwise nothing is selected,
/// and the error tells where `input` stops being one and what stands there.
/// The empty input selects no page.
pub fn cli_pages_value_parser(input: &str) -> (result: Result<Pages, ParseError>)
    ensures
        reads_as(input@, result),
{
    let chars = characters(input);
    match parse_page_list(chars.as_slice()) {
        Ok(ranges) => Ok(Pages::from_ranges(ranges.as_slice())),
        Err(position) => {
            let rest = input.substring_char(position, chars.len());
            Err(ParseError { position, fragment: rest.to_owned() })
        },
    }
}

} // verus!
