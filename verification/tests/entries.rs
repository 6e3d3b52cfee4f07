use page_selector::parser::parse_number;
use page_selector::{parse_page_list, parse_page_range, PageRange};

fn chars(text: &str) -> Vec<char> {
    text.chars().collect()
}

#[test]
fn number_takes_all_leading_digits() {
    assert_eq!(parse_number(&chars("123")), Some((123, 3)));
    assert_eq!(parse_number(&chars("123-4")), Some((123, 3)));
    assert_eq!(parse_number(&chars("9,")), Some((9, 1)));
    assert_eq!(parse_number(&chars("0")), Some((0, 1)));
    assert_eq!(parse_number(&chars("00042x")), Some((42, 5)));
}

#[test]
fn number_needs_a_digit() {
    assert_eq!(parse_number(&chars("")), None);
    assert_eq!(parse_number(&chars("-1")), None);
    assert_eq!(parse_number(&chars(",1")), None);
    assert_eq!(parse_number(&chars("x1")), None);
    assert_eq!(parse_number(&chars("+1")), None);
    assert_eq!(parse_number(&chars("\u{0661}")), None);
}

#[test]
fn number_must_fit() {
    let largest = usize::MAX.to_string();
    assert_eq!(parse_number(&chars(&largest)), Some((usize::MAX, largest.len())));
    let one_more = (usize::MAX as u128 + 1).to_string();
    assert_eq!(parse_number(&chars(&one_more)), None);
    let tenfold = format!("{}0", usize::MAX);
    assert_eq!(parse_number(&chars(&tenfold)), None);
    let padded = format!("000{}", usize::MAX);
    assert_eq!(parse_number(&chars(&padded)), Some((usize::MAX, padded.len())));
}

#[test]
fn entry_of_each_shape() {
    assert_eq!(parse_page_range(&chars("7")), Some((PageRange::Single(7), 1)));
    assert_eq!(parse_page_range(&chars("12-34")), Some((PageRange::Between(12, 34), 5)));
    assert_eq!(parse_page_range(&chars("12-")), Some((PageRange::From(12), 3)));
    assert_eq!(parse_page_range(&chars("-34")), Some((PageRange::UpTo(34), 3)));
}

#[test]
fn entry_leaves_what_follows_it() {
    assert_eq!(parse_page_range(&chars("7,8")), Some((PageRange::Single(7), 1)));
    assert_eq!(parse_page_range(&chars("12-34,5")), Some((PageRange::Between(12, 34), 5)));
    assert_eq!(parse_page_range(&chars("12-,5")), Some((PageRange::From(12), 3)));
    assert_eq!(parse_page_range(&chars("-34-5")), Some((PageRange::UpTo(34), 3)));
    assert_eq!(parse_page_range(&chars("1--2")), Some((PageRange::From(1), 2)));
    assert_eq!(parse_page_range(&chars("1x")), Some((PageRange::Single(1), 1)));
}

#[test]
fn entry_needs_a_number() {
    assert_eq!(parse_page_range(&chars("")), None);
    assert_eq!(parse_page_range(&chars("-")), None);
    assert_eq!(parse_page_range(&chars("--1")), None);
    assert_eq!(parse_page_range(&chars("-,1")), None);
    assert_eq!(parse_page_range(&chars(",")), None);
    assert_eq!(parse_page_range(&chars("a")), None);
}

#[test]
fn entry_ends_before_a_number_that_does_not_fit() {
    let too_large = "99999999999999999999999999";
    assert_eq!(parse_page_range(&chars(too_large)), None);
    assert_eq!(
        parse_page_range(&chars(&format!("4-{}", too_large))),
        Some((PageRange::From(4), 2))
    );
    assert_eq!(parse_page_range(&chars(&format!("{}-4", too_large))), None);
    assert_eq!(parse_page_range(&chars(&format!("-{}", too_large))), None);
}

#[test]
fn list_keeps_the_written_order() {
    assert_eq!(
        parse_page_list(&chars("2,4-6,9-,-1,2")),
        Ok(vec![
            PageRange::Single(2),
            PageRange::Between(4, 6),
            PageRange::From(9),
            PageRange::UpTo(1),
            PageRange::Single(2),
        ])
    );
    assert_eq!(parse_page_list(&chars("5-3")), Ok(vec![PageRange::Between(5, 3)]));
}

#[test]
fn list_may_be_empty_or_end_with_a_separator() {
    assert_eq!(parse_page_list(&chars("")), Ok(vec![]));
    assert_eq!(parse_page_list(&chars("1,")), Ok(vec![PageRange::Single(1)]));
    assert_eq!(
        parse_page_list(&chars("1,2,")),
        Ok(vec![PageRange::Single(1), PageRange::Single(2)])
    );
    assert_eq!(parse_page_list(&chars("1,2")), parse_page_list(&chars("1,2,")));
}

#[test]
fn list_tells_where_it_fails() {
    assert_eq!(parse_page_list(&chars("-")), Err(0));
    assert_eq!(parse_page_list(&chars("a")), Err(0));
    assert_eq!(parse_page_list(&chars("1--2")), Err(2));
    assert_eq!(parse_page_list(&chars(",")), Err(0));
    assert_eq!(parse_page_list(&chars("1,,")), Err(2));
    assert_eq!(parse_page_list(&chars("10-20,30x")), Err(8));
    assert_eq!(parse_page_list(&chars("10-20,x30")), Err(6));
    assert_eq!(parse_page_list(&chars("10-20;30")), Err(5));
}

#[test]
fn bounds_of_each_shape() {
    assert_eq!(PageRange::Single(7).start(), 7);
    assert_eq!(PageRange::Single(7).end(), 7);
    assert_eq!(PageRange::Between(3, 9).start(), 3);
    assert_eq!(PageRange::Between(3, 9).end(), 9);
    assert_eq!(PageRange::From(5).start(), 5);
    assert_eq!(PageRange::From(5).end(), usize::MAX);
    assert_eq!(PageRange::UpTo(5).start(), 0);
    assert_eq!(PageRange::UpTo(5).end(), 5);
}

#[test]
fn range_covers_its_bounds_and_what_lies_between() {
    let range = PageRange::Between(3, 5);
    assert!(!range.contains(2));
    assert!(range.contains(3));
    assert!(range.contains(4));
    assert!(range.contains(5));
    assert!(!range.contains(6));
    assert!(PageRange::From(usize::MAX).contains(usize::MAX));
    assert!(!PageRange::From(usize::MAX).contains(usize::MAX - 1));
    assert!(PageRange::UpTo(0).contains(0));
    assert!(!PageRange::UpTo(0).contains(1));
}

#[test]
fn only_a_reversed_range_is_empty() {
    assert!(PageRange::Between(5, 3).is_empty());
    assert!(!PageRange::Between(5, 3).contains(4));
    assert!(!PageRange::Between(5, 3).contains(5));
    assert!(!PageRange::Between(5, 3).contains(3));
    assert!(!PageRange::Between(3, 3).is_empty());
    assert!(!PageRange::Single(0).is_empty());
    assert!(!PageRange::From(usize::MAX).is_empty());
    assert!(!PageRange::UpTo(0).is_empty());
}
