use page_selector::{cli_pages_value_parser, Pages, ParseError};

fn select(input: &str) -> Pages {
    match cli_pages_value_parser(input) {
        Ok(pages) => pages,
        Err(error) => panic!("{:?} is no selector: {:?}", input, error),
    }
}

fn failure(input: &str) -> ParseError {
    match cli_pages_value_parser(input) {
        Ok(pages) => panic!("{:?} is a selector: {:?}", input, pages),
        Err(error) => error,
    }
}

fn same_pages(left: &Pages, right: &Pages) -> bool {
    let near_zero = (0..300).all(|page| left.contains(page) == right.contains(page));
    let near_max = (0..300).all(|below| {
        left.contains(usize::MAX - below) == right.contains(usize::MAX - below)
    });
    near_zero && near_max
}

#[test]
fn single_page_selects_that_page_alone() {
    let pages = select("7");
    assert!(pages.contains(7));
    assert!(!pages.contains(6));
    assert!(!pages.contains(8));
    assert!(!pages.contains(0));
    assert!(!pages.contains(usize::MAX));
    assert_eq!(pages.pages_to_keep(20), vec![7]);
}

#[test]
fn overlapping_ranges_collapse() {
    let overlapping = select("1-3,2-5");
    let plain = select("1-5");
    assert_eq!(overlapping.pages_to_keep(100), vec![1, 2, 3, 4, 5]);
    assert_eq!(plain.pages_to_keep(100), vec![1, 2, 3, 4, 5]);
    assert!(same_pages(&overlapping, &plain));
    assert!(!overlapping.contains(0));
    assert!(!overlapping.contains(6));
}

#[test]
fn open_end_reaches_the_largest_page_number() {
    let pages = select("5-");
    assert!(!pages.contains(0));
    assert!(!pages.contains(4));
    assert!(pages.contains(5));
    assert!(pages.contains(6));
    assert!(pages.contains(1_000_000));
    assert!(pages.contains(usize::MAX - 1));
    assert!(pages.contains(usize::MAX));
}

#[test]
fn open_end_on_ten_pages_removes_the_first_four() {
    let pages = select("5-");
    assert_eq!(pages.pages_to_remove(10), vec![1, 2, 3, 4]);
    assert_eq!(pages.pages_to_keep(10), vec![5, 6, 7, 8, 9, 10]);
}

#[test]
fn open_start_begins_at_page_zero() {
    let pages = select("-3");
    assert!(pages.contains(0));
    assert!(pages.contains(1));
    assert!(pages.contains(2));
    assert!(pages.contains(3));
    assert!(!pages.contains(4));
    assert!(!pages.contains(usize::MAX));
}

#[test]
fn open_start_keeps_the_first_pages_of_any_document() {
    let pages = select("-3");
    assert_eq!(pages.pages_to_keep(3), vec![1, 2, 3]);
    assert_eq!(pages.pages_to_keep(10), vec![1, 2, 3]);
    assert_eq!(pages.pages_to_keep(1000), vec![1, 2, 3]);
    assert_eq!(pages.pages_to_remove(5), vec![4, 5]);
    assert_eq!(pages.pages_to_keep(2), vec![1, 2]);
    assert_eq!(pages.pages_to_remove(2), Vec::<usize>::new());
}

#[test]
fn empty_input_selects_nothing() {
    let pages = select("");
    assert!(pages.is_empty());
    assert!(!pages.contains(0));
    assert!(!pages.contains(1));
    assert!(!pages.contains(usize::MAX));
}

#[test]
fn empty_selection_removes_every_page() {
    let pages = select("");
    assert_eq!(pages.pages_to_remove(10), vec![1, 2, 3, 4, 5, 6, 7, 8, 9, 10]);
    assert_eq!(pages.pages_to_keep(10), Vec::<usize>::new());
}

#[test]
fn lone_dash_is_refused() {
    let error = failure("-");
    assert_eq!(error.position, 0);
    assert_eq!(error.fragment, "-");
}

#[test]
fn letter_is_refused() {
    let error = failure("a");
    assert_eq!(error.position, 0);
    assert_eq!(error.fragment, "a");
}

#[test]
fn double_dash_is_refused() {
    let error = failure("1--2");
    assert_eq!(error.position, 2);
    assert_eq!(error.fragment, "-2");
}

#[test]
fn trailing_separator_is_tolerated() {
    let with = select("1,2,");
    let without = select("1,2");
    assert_eq!(with.pages_to_keep(50), vec![1, 2]);
    assert_eq!(without.pages_to_keep(50), vec![1, 2]);
    assert!(same_pages(&with, &without));
}

#[test]
fn ten_pages_end_to_end() {
    let pages = select("2,4-6,9-");
    assert_eq!(pages.pages_to_keep(10), vec![2, 4, 5, 6, 9, 10]);
    assert_eq!(pages.pages_to_remove(10), vec![1, 3, 7, 8]);
}

#[test]
fn reading_twice_gives_the_same_pages() {
    for input in ["", "7", "1-3,2-5", "5-", "-3", "2,4-6,9-", "1,2,"] {
        let first = select(input);
        let second = select(input);
        assert!(same_pages(&first, &second), "{:?}", input);
        assert_eq!(first.pages_to_keep(40), second.pages_to_keep(40));
    }
    for input in ["-", "a", "1--2", "1,,2", ","] {
        assert_eq!(failure(input), failure(input));
    }
}

#[test]
fn two_entries_select_the_union() {
    let entries = ["7", "1-3", "12-", "-2", "5-4", "007", "3-3"];
    for a in entries {
        for b in entries {
            let joined = select(&format!("{},{}", a, b));
            let left = select(a);
            let right = select(b);
            for page in (0..40).chain(usize::MAX - 5..=usize::MAX) {
                assert_eq!(
                    joined.contains(page),
                    left.contains(page) || right.contains(page),
                    "{:?},{:?} at {}",
                    a,
                    b,
                    page
                );
            }
        }
    }
}

#[test]
fn repeated_entry_adds_nothing() {
    let once = select("4-6");
    let twice = select("4-6,4-6");
    assert!(same_pages(&once, &twice));
    assert_eq!(twice.pages_to_keep(10), vec![4, 5, 6]);
}

#[test]
fn order_of_entries_does_not_matter() {
    let forward = select("1-2,8,4-");
    let backward = select("4-,8,1-2");
    assert!(same_pages(&forward, &backward));
    assert_eq!(forward.pages_to_keep(6), vec![1, 2, 4, 5, 6]);
}

#[test]
fn leading_zeros_do_not_change_a_number() {
    let pages = select("007,010-0012");
    assert_eq!(pages.pages_to_keep(20), vec![7, 10, 11, 12]);
}

#[test]
fn page_zero_can_be_selected_but_is_no_page_of_a_document() {
    let pages = select("0");
    assert!(pages.contains(0));
    assert!(!pages.is_empty());
    assert_eq!(pages.pages_to_keep(5), Vec::<usize>::new());
    assert_eq!(pages.pages_to_remove(5), vec![1, 2, 3, 4, 5]);
}

#[test]
fn largest_page_number_is_read() {
    let pages = select(&usize::MAX.to_string());
    assert!(pages.contains(usize::MAX));
    assert!(!pages.contains(usize::MAX - 1));
    let range = select(&format!("{}-{}", usize::MAX - 1, usize::MAX));
    assert!(range.contains(usize::MAX));
    assert!(range.contains(usize::MAX - 1));
    assert!(!range.contains(usize::MAX - 2));
}

#[test]
fn number_above_the_largest_is_refused() {
    let too_large = format!("{}0", usize::MAX);
    let error = failure(&too_large);
    assert_eq!(error.position, 0);
    assert_eq!(error.fragment, too_large);

    let one_more = (usize::MAX as u128 + 1).to_string();
    let error = failure(&one_more);
    assert_eq!(error.position, 0);
    assert_eq!(error.fragment, one_more);

    let error = failure("99999999999999999999999999999999999999999999");
    assert_eq!(error.position, 0);
}

#[test]
fn second_number_above_the_largest_is_refused_after_the_dash() {
    let error = failure("1-99999999999999999999999999");
    assert_eq!(error.position, 2);
    assert_eq!(error.fragment, "99999999999999999999999999");

    let error = failure("3,1-99999999999999999999999999,4");
    assert_eq!(error.position, 4);
    assert_eq!(error.fragment, "99999999999999999999999999,4");
}

#[test]
fn first_number_above_the_largest_is_refused_before_the_dash() {
    let error = failure("99999999999999999999999999-5");
    assert_eq!(error.position, 0);
    assert_eq!(error.fragment, "99999999999999999999999999-5");
}

#[test]
fn reversed_range_selects_nothing() {
    let pages = select("5-3");
    assert!(pages.is_empty());
    assert!(!pages.contains(3));
    assert!(!pages.contains(4));
    assert!(!pages.contains(5));
    assert_eq!(pages.pages_to_keep(10), Vec::<usize>::new());

    let mixed = select("5-3,8");
    assert!(!mixed.is_empty());
    assert_eq!(mixed.pages_to_keep(10), vec![8]);
}

#[test]
fn separator_needs_an_entry_before_it() {
    let error = failure(",");
    assert_eq!(error.position, 0);
    assert_eq!(error.fragment, ",");

    let error = failure(",1");
    assert_eq!(error.position, 0);
    assert_eq!(error.fragment, ",1");

    let error = failure("1,,2");
    assert_eq!(error.position, 2);
    assert_eq!(error.fragment, ",2");

    let error = failure("1,2,,");
    assert_eq!(error.position, 4);
    assert_eq!(error.fragment, ",");
}

#[test]
fn entries_need_a_separator_between_them() {
    let error = failure("1-3-5");
    assert_eq!(error.position, 3);
    assert_eq!(error.fragment, "-5");

    let error = failure("1-2 3");
    assert_eq!(error.position, 3);
    assert_eq!(error.fragment, " 3");
}

#[test]
fn blanks_are_refused() {
    let error = failure(" 1");
    assert_eq!(error.position, 0);
    let error = failure("1 ");
    assert_eq!(error.position, 1);
    assert_eq!(error.fragment, " ");
    let error = failure("1, 2");
    assert_eq!(error.position, 2);
    assert_eq!(error.fragment, " 2");
}

#[test]
fn signs_are_refused() {
    let error = failure("+1");
    assert_eq!(error.position, 0);
    assert_eq!(error.fragment, "+1");
    let error = failure("1-+2");
    assert_eq!(error.position, 2);
    assert_eq!(error.fragment, "+2");
}

#[test]
fn other_digits_and_letters_are_refused() {
    let error = failure("1,\u{0663}");
    assert_eq!(error.position, 2);
    assert_eq!(error.fragment, "\u{0663}");

    let error = failure("2-4,\u{00e9}t\u{00e9},5");
    assert_eq!(error.position, 4);
    assert_eq!(error.fragment, "\u{00e9}t\u{00e9},5");

    let error = failure("\u{ff11}");
    assert_eq!(error.position, 0);
}

#[test]
fn failure_names_the_rest_of_the_input() {
    let error = failure("1,2,x,4");
    assert_eq!(error, ParseError { position: 4, fragment: String::from("x,4") });
}

#[test]
fn nothing_is_selected_when_a_later_entry_fails() {
    assert!(cli_pages_value_parser("1,2,3-").is_ok());
    assert!(cli_pages_value_parser("1,2,3-x").is_err());
    assert!(cli_pages_value_parser("1,2,-").is_err());
}
