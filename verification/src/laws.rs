//! What holds of every selector, and of every split of a document's pages
//! into those kept and those removed.

use vstd::prelude::*;
use crate::grammar::{
    decimal_value, entry_prefix, is_digit, number_prefix, parse_selector, selected_pages, DASH,
    SEPARATOR,
};
use crate::lemmas::{
    is_entry_char, lemma_entry_prefix_bounds, lemma_entry_prefix_local,
    lemma_leading_digits_bounds, lemma_leading_digits_is,
};
use crate::pages::{increasing, lists_pages, Pages};
use crate::parser::{reads_as, ParseError};
use crate::range::{
    lemma_page_set_concat, lemma_page_set_empty, lemma_page_set_single, page_set, PageRange,
};

verus! {

/// Whether `digits` is a number of the grammar: one digit or more, with a
/// value that fits in a `usize`.
pub open spec fn is_number(digits: Seq<char>) -> bool {
    &&& digits.len() > 0
    &&& forall|k: int| 0 <= k < digits.len() ==> is_digit(#[trigger] digits[k])
    &&& decimal_value(digits) <= usize::MAX
}

/// Whether `s` is one entry and nothing more.
pub open spec fn is_entry(s: Seq<char>) -> bool {
    entry_prefix(s) matches Some((_, len)) && len == s.len()
}

/// Whether `s` is a selector with at least one entry and without a
/// separator after the last one.
pub open spec fn ends_with_entry(s: Seq<char>) -> bool {
    parse_selector(s) is Ok && s.len() > 0 && s.last() != SEPARATOR
}

/// Reading is a function of the input: two results of reading the same
/// input are the same set of pages, or the same position with the same rest
/// of the input.
pub proof fn theorem_reading_is_determined(
    input: Seq<char>,
    first: Result<Pages, ParseError>,
    second: Result<Pages, ParseError>,
)
    requires
        reads_as(input, first),
        reads_as(input, second),
    ensures
        match (first, second) {
            (Ok(a), Ok(b)) => a@ == b@,
            (Err(a), Err(b)) => a.position == b.position && a.fragment@ == b.fragment@,
            _ => false,
        },
{
}

/// The empty input is the selector without entries: it selects no page.
pub proof fn theorem_empty_input_selects_nothing()
    ensures
        parse_selector(Seq::empty()) == Ok::<Seq<PageRange>, nat>(Seq::empty()),
        selected_pages(Seq::empty()) == Ok::<Set<nat>, nat>(Set::empty()),
{
    lemma_page_set_empty();
}

/// One entry alone is a selector, and it ends with that entry.
pub proof fn theorem_entry_is_selector(s: Seq<char>)
    requires
        is_entry(s),
    ensures
        ends_with_entry(s),
        entry_prefix(s) matches Some((entry, _)) && parse_selector(s) == Ok::<
            Seq<PageRange>,
            nat,
        >(seq![entry]),
{
    lemma_entry_prefix_bounds(s);
    assert(is_entry_char(s[s.len() - 1]));
}

/// A selector with an entry starts with one: its first characters, up to
/// the first separator or to the end, are an entry by themselves.
pub proof fn theorem_selector_starts_with_entry(s: Seq<char>)
    requires
        parse_selector(s) is Ok,
        s.len() > 0,
    ensures
        entry_prefix(s) matches Some((entry, len)) && {
            &&& 0 < len <= s.len()
            &&& len < s.len() ==> s[len as int] == SEPARATOR
            &&& entry_prefix(s.take(len as int)) == Some((entry, len))
            &&& is_entry(s.take(len as int))
        },
{
    lemma_entry_prefix_bounds(s);
    if let Some((_, len)) = entry_prefix(s) {
        let cut = s.take(len as int);
        assert(cut.take(len as int) =~= cut);
        lemma_entry_prefix_local(s, cut, len as int);
    }
}

/// After a selector that ends with an entry and a separator, reading goes
/// on as if it started there: the entries that follow are added to those of
/// the selector, and a failure lies as far behind the separator as it lies
/// in what follows it.
pub proof fn theorem_reading_goes_on_after_separator(front: Seq<char>, back: Seq<char>)
    requires
        ends_with_entry(front),
    ensures
        parse_selector(front) matches Ok(first) && parse_selector(front + seq![SEPARATOR] + back)
            == match parse_selector(back) {
            Ok(second) => Ok::<Seq<PageRange>, nat>(first + second),
            Err(position) => Err::<Seq<PageRange>, nat>(front.len() + 1 + position),
        },
    decreases front.len(),
{
    let joined = front + seq![SEPARATOR] + back;
    lemma_entry_prefix_bounds(front);
    let (entry, len) = entry_prefix(front)->0;
    assert(front.take(len as int) =~= joined.take(len as int));
    lemma_entry_prefix_local(front, joined, len as int);
    if len >= front.len() {
        assert(joined.skip(len as int + 1) =~= back);
    } else {
        let rest = front.skip(len as int + 1);
        assert(rest.len() > 0 && rest.last() == front.last());
        theorem_reading_goes_on_after_separator(rest, back);
        assert(joined.skip(len as int + 1) =~= rest + seq![SEPARATOR] + back);
        let more = parse_selector(rest)->Ok_0;
        if let Ok(second) = parse_selector(back) {
            assert(seq![entry] + (more + second) =~= (seq![entry] + more) + second);
        }
    }
}

/// A selector that ends with an entry, a separator and a second selector
/// make a selector, whose entries are those of the first followed by those
/// of the second. It denotes the pages of the first together with those of
/// the second.
pub proof fn theorem_joined_selectors(front: Seq<char>, back: Seq<char>)
    requires
        ends_with_entry(front),
        parse_selector(back) is Ok,
    ensures
        ({
            let joined = front + seq![SEPARATOR] + back;
            &&& parse_selector(front) matches Ok(first)
            &&& parse_selector(back) matches Ok(second)
            &&& selected_pages(front) matches Ok(first_pages)
            &&& selected_pages(back) matches Ok(second_pages)
            &&& parse_selector(joined) == Ok::<Seq<PageRange>, nat>(first + second)
            &&& selected_pages(joined) == Ok::<Set<nat>, nat>(first_pages.union(second_pages))
        }),
{
    theorem_reading_goes_on_after_separator(front, back);
    lemma_page_set_concat(parse_selector(front)->Ok_0, parse_selector(back)->Ok_0);
}

/// For two entries `a` and `b`, the selector `a,b` denotes the pages of `a`
/// together with the pages of `b`.
pub proof fn theorem_two_entries_select_the_union(a: Seq<char>, b: Seq<char>)
    requires
        is_entry(a),
        is_entry(b),
    ensures
        ({
            &&& selected_pages(a) matches Ok(pages_of_a)
            &&& selected_pages(b) matches Ok(pages_of_b)
            &&& selected_pages(a + seq![SEPARATOR] + b) == Ok::<Set<nat>, nat>(
                pages_of_a.union(pages_of_b),
            )
        }),
{
    theorem_entry_is_selector(a);
    theorem_entry_is_selector(b);
    theorem_joined_selectors(a, b);
}

/// A selector written twice, with a separator between the two copies,
/// denotes the pages that it denotes when written once.
pub proof fn theorem_repeating_changes_nothing(s: Seq<char>)
    requires
        ends_with_entry(s),
    ensures
        selected_pages(s + seq![SEPARATOR] + s) == selected_pages(s),
{
    theorem_joined_selectors(s, s);
    let pages = page_set(parse_selector(s)->Ok_0);
    assert(pages.union(pages) =~= pages);
}

/// One separator after the last entry of a selector changes nothing: the
/// entries are the same.
pub proof fn theorem_trailing_separator(s: Seq<char>)
    requires
        ends_with_entry(s),
    ensures
        parse_selector(s.push(SEPARATOR)) == parse_selector(s),
        selected_pages(s.push(SEPARATOR)) == selected_pages(s),
{
    let nothing = Seq::<char>::empty();
    theorem_joined_selectors(s, nothing);
    assert(s + seq![SEPARATOR] + nothing =~= s.push(SEPARATOR));
    let entries = parse_selector(s)->Ok_0;
    assert(entries + Seq::<PageRange>::empty() =~= entries);
}

/// A failure lies at a character of the input, never behind its end.
pub proof fn theorem_failure_is_inside(s: Seq<char>)
    ensures
        parse_selector(s) matches Err(position) ==> position < s.len(),
    decreases s.len(),
{
    if s.len() > 0 {
        lemma_entry_prefix_bounds(s);
        if let Some((_, len)) = entry_prefix(s) {
            if len < s.len() && s[len as int] == SEPARATOR {
                theorem_failure_is_inside(s.skip(len as int + 1));
            }
        }
    }
}

/// A selector holds digits, dashes and separators and nothing else, and so
/// does an input before the position at which it stops being a selector.
pub proof fn theorem_only_digits_dashes_and_separators(s: Seq<char>)
    ensures
        match parse_selector(s) {
            Ok(_) => forall|k: int|
                0 <= k < s.len() ==> is_digit(#[trigger] s[k]) || s[k] == DASH || s[k]
                    == SEPARATOR,
            Err(position) => forall|k: int|
                0 <= k < position ==> is_digit(#[trigger] s[k]) || s[k] == DASH || s[k]
                    == SEPARATOR,
        },
    decreases s.len(),
{
    if s.len() > 0 {
        lemma_entry_prefix_bounds(s);
        if let Some((_, len)) = entry_prefix(s) {
            let upto = match parse_selector(s) {
                Ok(_) => s.len(),
                Err(position) => position,
            };
            if len < s.len() && s[len as int] == SEPARATOR {
                let rest = s.skip(len as int + 1);
                theorem_only_digits_dashes_and_separators(rest);
                theorem_failure_is_inside(rest);
                assert forall|k: int| 0 <= k < upto implies is_digit(#[trigger] s[k]) || s[k]
                    == DASH || s[k] == SEPARATOR by {
                    if k < len {
                        assert(is_entry_char(s[k]));
                    } else if k > len {
                        assert(s[k] == rest[k - len - 1]);
                    }
                }
            } else {
                assert forall|k: int| 0 <= k < upto implies is_digit(#[trigger] s[k]) || s[k]
                    == DASH || s[k] == SEPARATOR by {
                    assert(is_entry_char(s[k]));
                }
            }
        }
    }
}

/// No input that starts with a separator is a selector: before the first
/// separator stands an entry.
pub proof fn theorem_leading_separator_fails(s: Seq<char>)
    requires
        s.len() > 0,
        s[0] == SEPARATOR,
    ensures
        parse_selector(s) == Err::<Seq<PageRange>, nat>(0),
{
    lemma_no_number_is_read(s);
}

/// No input in which a separator follows a separator is a selector: reading
/// fails at the second of the first such pair, unless it fails before.
pub proof fn theorem_double_separator_fails(front: Seq<char>, back: Seq<char>)
    requires
        ends_with_entry(front),
    ensures
        parse_selector(front + seq![SEPARATOR] + (seq![SEPARATOR] + back)) == Err::<
            Seq<PageRange>,
            nat,
        >(front.len() + 1),
{
    theorem_leading_separator_fails(seq![SEPARATOR] + back);
    theorem_reading_goes_on_after_separator(front, seq![SEPARATOR] + back);
}

/// A dash with no number on either side is no entry: an input that starts
/// with a dash and has no digit after it is no selector.
pub proof fn theorem_lone_dash_fails(s: Seq<char>)
    requires
        s.len() > 0,
        s[0] == DASH,
        s.len() > 1 ==> !is_digit(s[1]),
    ensures
        parse_selector(s) == Err::<Seq<PageRange>, nat>(0),
{
    lemma_no_number_is_read(s);
    let after = s.skip(1);
    if after.len() > 0 {
        assert(after[0] == s[1]);
    }
    lemma_no_number_is_read(after);
}

/// The digits of a number, followed by nothing or by a character that is no
/// digit, are read as that number.
proof fn lemma_number_is_read(digits: Seq<char>, then: Seq<char>)
    requires
        is_number(digits),
        then.len() > 0 ==> !is_digit(then[0]),
    ensures
        number_prefix(digits + then) == Some((decimal_value(digits) as usize, digits.len())),
{
    let s = digits + then;
    assert forall|k: int| 0 <= k < digits.len() implies is_digit(#[trigger] s[k]) by {
        assert(s[k] == digits[k]);
    }
    if digits.len() < s.len() {
        assert(s[digits.len() as int] == then[0]);
    }
    lemma_leading_digits_is(s, digits.len());
    assert(s.take(digits.len() as int) =~= digits);
}

/// Where no digit stands, no number is read.
proof fn lemma_no_number_is_read(s: Seq<char>)
    requires
        s.len() > 0 ==> !is_digit(s[0]),
    ensures
        number_prefix(s) is None,
{
}

/// A number `N` alone is the selector of the single page `N`.
pub proof fn theorem_number_selects_one_page(n: Seq<char>)
    requires
        is_number(n),
    ensures
        parse_selector(n) == Ok::<Seq<PageRange>, nat>(
            seq![PageRange::Single(decimal_value(n) as usize)],
        ),
        selected_pages(n) == Ok::<Set<nat>, nat>(set![decimal_value(n)]),
{
    lemma_number_is_read(n, Seq::empty());
    assert(n + Seq::<char>::empty() =~= n);
    let entry = PageRange::Single(decimal_value(n) as usize);
    lemma_page_set_single(entry);
    assert(entry.pages() =~= set![decimal_value(n)]);
}

/// A number `N` and a dash are the selector of the page `N` and of every
/// page after it, up to the largest page number that there is.
pub proof fn theorem_number_dash_selects_from(n: Seq<char>)
    requires
        is_number(n),
    ensures
        parse_selector(n.push(DASH)) == Ok::<Seq<PageRange>, nat>(
            seq![PageRange::From(decimal_value(n) as usize)],
        ),
        selected_pages(n.push(DASH)) == Ok::<Set<nat>, nat>(
            Set::new(|page: nat| decimal_value(n) <= page <= usize::MAX),
        ),
{
    let s = n.push(DASH);
    lemma_number_is_read(n, seq![DASH]);
    assert(n + seq![DASH] =~= s);
    assert(s.skip(n.len() as int + 1) =~= Seq::<char>::empty());
    lemma_no_number_is_read(s.skip(n.len() as int + 1));
    let entry = PageRange::From(decimal_value(n) as usize);
    lemma_page_set_single(entry);
    assert(entry.pages() =~= Set::new(|page: nat| decimal_value(n) <= page <= usize::MAX));
}

/// A dash and a number `M` are the selector of every page up to `M`, page
/// zero and `M` included.
pub proof fn theorem_dash_number_selects_up_to(m: Seq<char>)
    requires
        is_number(m),
    ensures
        parse_selector(seq![DASH] + m) == Ok::<Seq<PageRange>, nat>(
            seq![PageRange::UpTo(decimal_value(m) as usize)],
        ),
        selected_pages(seq![DASH] + m) == Ok::<Set<nat>, nat>(
            Set::new(|page: nat| page <= decimal_value(m)),
        ),
{
    let s = seq![DASH] + m;
    lemma_no_number_is_read(s);
    lemma_number_is_read(m, Seq::empty());
    assert(s.skip(1) =~= m + Seq::<char>::empty());
    let entry = PageRange::UpTo(decimal_value(m) as usize);
    lemma_page_set_single(entry);
    assert(entry.pages() =~= Set::new(|page: nat| page <= decimal_value(m)));
}

/// Two numbers `N` and `M` with a dash between them are the selector of the
/// pages from `N` to `M`, both included: of no page when `N` is above `M`.
pub proof fn theorem_number_dash_number_selects_between(n: Seq<char>, m: Seq<char>)
    requires
        is_number(n),
        is_number(m),
    ensures
        parse_selector(n.push(DASH) + m) == Ok::<Seq<PageRange>, nat>(
            seq![PageRange::Between(decimal_value(n) as usize, decimal_value(m) as usize)],
        ),
        selected_pages(n.push(DASH) + m) == Ok::<Set<nat>, nat>(
            Set::new(|page: nat| decimal_value(n) <= page <= decimal_value(m)),
        ),
{
    let s = n.push(DASH) + m;
    lemma_number_is_read(n, seq![DASH] + m);
    assert(n + (seq![DASH] + m) =~= s);
    lemma_number_is_read(m, Seq::empty());
    assert(s.skip(n.len() as int + 1) =~= m + Seq::<char>::empty());
    let entry = PageRange::Between(decimal_value(n) as usize, decimal_value(m) as usize);
    lemma_page_set_single(entry);
    assert(entry.pages() =~= Set::new(
        |page: nat| decimal_value(n) <= page <= decimal_value(m),
    ));
}

/// An entry has one of the four shapes, and no other: it is a number, a
/// number and a dash, a dash and a number, or two numbers with a dash
/// between them. Its bounds are the values of those numbers.
pub proof fn theorem_entry_has_one_of_four_shapes(e: Seq<char>)
    requires
        is_entry(e),
    ensures
        match entry_prefix(e) {
            Some((PageRange::Single(page), _)) => is_number(e) && decimal_value(e) == page,
            Some((PageRange::From(start), _)) => {
                &&& e.last() == DASH
                &&& is_number(e.drop_last())
                &&& decimal_value(e.drop_last()) == start
            },
            Some((PageRange::UpTo(end), _)) => {
                &&& e.first() == DASH
                &&& is_number(e.drop_first())
                &&& decimal_value(e.drop_first()) == end
            },
            Some((PageRange::Between(start, end), _)) => exists|dash_at: int|
                {
                    &&& 0 < dash_at < e.len() - 1
                    &&& #[trigger] e[dash_at] == DASH
                    &&& is_number(e.take(dash_at))
                    &&& decimal_value(e.take(dash_at)) == start
                    &&& is_number(e.skip(dash_at + 1))
                    &&& decimal_value(e.skip(dash_at + 1)) == end
                },
            None => false,
        },
{
    let first = number_prefix(e);
    let dash_at: nat = match first {
        Some((_, len)) => len,
        None => 0,
    };
    lemma_leading_digits_bounds(e);
    if dash_at < e.len() && e[dash_at as int] == DASH {
        let tail = e.skip(dash_at as int + 1);
        lemma_leading_digits_bounds(tail);
        let head = e.take(dash_at as int);
        match (first, number_prefix(tail)) {
            (Some(_), None) => {
                assert(e.drop_last() =~= head);
            },
            (None, Some((_, len))) => {
                assert(e.drop_first() =~= tail);
                assert(tail.take(len as int) =~= tail);
            },
            (Some(_), Some((_, len))) => {
                assert(tail.take(len as int) =~= tail);
                assert(e[dash_at as int] == DASH);
            },
            (None, None) => {},
        }
    } else {
        assert(e.take(e.len() as int) =~= e);
    }
}

/// Two ranges of which the second starts within the first, or right after
/// it, cover together what the one range from the start of the first to
/// the farther of the two ends covers.
pub proof fn theorem_overlapping_ranges_collapse(
    start: usize,
    end: usize,
    second_start: usize,
    second_end: usize,
)
    requires
        start <= second_start <= end + 1,
        second_start <= second_end,
    ensures
        page_set(
            seq![PageRange::Between(start, end), PageRange::Between(second_start, second_end)],
        ) == PageRange::Between(start, if end < second_end { second_end } else { end }).pages(),
{
    let first = PageRange::Between(start, end);
    let second = PageRange::Between(second_start, second_end);
    let whole = PageRange::Between(start, if end < second_end { second_end } else { end });
    lemma_page_set_single(first);
    lemma_page_set_single(second);
    lemma_page_set_concat(seq![first], seq![second]);
    assert(seq![first] + seq![second] =~= seq![first, second]);
    assert(first.pages().union(second.pages()) =~= whole.pages());
}

/// Two increasing lists that hold the same page numbers agree in their
/// first `upto` places, and the second is no shorter than `upto`.
proof fn lemma_same_pages_same_prefix(first: Seq<usize>, second: Seq<usize>, upto: int)
    requires
        increasing(first),
        increasing(second),
        forall|page: usize| first.contains(page) <==> second.contains(page),
        0 <= upto <= first.len(),
    ensures
        upto <= second.len(),
        forall|k: int| 0 <= k < upto ==> first[k] == second[k],
    decreases upto,
{
    if upto > 0 {
        let last = upto - 1;
        lemma_same_pages_same_prefix(first, second, last);
        assert(first.contains(first[last]));
        let at = choose|at: int| 0 <= at < second.len() && second[at] == first[last];
        if at < last {
            assert(first[at] == second[at]);
        }
        assert(second.contains(second[last]));
        let back = choose|back: int| 0 <= back < first.len() && first[back] == second[last];
        if back < last {
            assert(first[back] == second[back]);
        }
    }
}

/// Two lists of the pages of one document that are in one set are the same
/// list.
pub proof fn theorem_page_list_is_determined(
    first: Seq<usize>,
    second: Seq<usize>,
    page_count: nat,
    chosen: Set<nat>,
)
    requires
        lists_pages(first, page_count, chosen),
        lists_pages(second, page_count, chosen),
    ensures
        first == second,
{
    lemma_same_pages_same_prefix(first, second, first.len() as int);
    lemma_same_pages_same_prefix(second, first, second.len() as int);
    assert(first =~= second);
}

/// Of the pages of a document, each is kept or removed, and none is both.
/// Nothing else is kept or removed.
pub proof fn theorem_kept_or_removed(
    kept: Seq<usize>,
    removed: Seq<usize>,
    page_count: nat,
    chosen: Set<nat>,
)
    requires
        lists_pages(kept, page_count, chosen),
        lists_pages(removed, page_count, chosen.complement()),
    ensures
        forall|page: usize|
            1 <= page <= page_count ==> (#[trigger] kept.contains(page) <==> !removed.contains(
                page,
            )),
        forall|page: usize| #[trigger] kept.contains(page) ==> 1 <= page <= page_count,
        forall|page: usize| #[trigger] removed.contains(page) ==> 1 <= page <= page_count,
{
}

/// Only the pages of the document count: two sets that hold the same of
/// them give the same list, whatever else they hold. So page zero, and
/// pages above the count, have no effect.
pub proof fn theorem_only_pages_of_the_document_count(
    list: Seq<usize>,
    page_count: nat,
    chosen: Set<nat>,
    other: Set<nat>,
)
    requires
        lists_pages(list, page_count, chosen),
        forall|page: nat|
            1 <= page <= page_count ==> (chosen.contains(page) <==> other.contains(page)),
    ensures
        lists_pages(list, page_count, other),
{
}

/// With no page chosen, every page of the document is removed: the list of
/// the pages to remove is 1, 2, and so on up to the count.
pub proof fn theorem_nothing_chosen_removes_all(removed: Seq<usize>, page_count: nat)
    requires
        page_count <= usize::MAX,
        lists_pages(removed, page_count, Set::<nat>::empty().complement()),
    ensures
        removed == Seq::new(page_count, |i: int| (i + 1) as usize),
{
    let all = Seq::new(page_count, |i: int| (i + 1) as usize);
    assert forall|page: usize| #[trigger]
        all.contains(page) <==> 1 <= page <= page_count by {
        if 1 <= page <= page_count {
            assert(all[page - 1] == page);
        }
    }
    theorem_page_list_is_determined(removed, all, page_count, Set::<nat>::empty().complement());
}

} // verus!
