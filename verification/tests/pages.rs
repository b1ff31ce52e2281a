use kprint::merge::merge_ranges;
use kprint::pages::{parse_one_in_range, parse_pages, parse_range, render_range_error};

fn ranges(spec: &str) -> Vec<(i32, i32)> {
    match parse_pages(spec) {
        Ok(v) => v,
        Err(e) => panic!("unexpected failure on {:?}: {}", spec, e.message()),
    }
}

fn bad_term(spec: &str) -> String {
    match parse_pages(spec) {
        Ok(v) => panic!("unexpected success on {:?}: {:?}", spec, v),
        Err(e) => e.bad_range().to_string(),
    }
}

#[test]
fn overlapping_ranges_are_fused() {
    assert_eq!(ranges("1-3,2-5,10-12"), vec![(1, 5), (10, 12)]);
}

#[test]
fn bare_single_page_is_dropped() {
    assert_eq!(ranges("5"), vec![]);
}

#[test]
fn range_of_one_page_is_dropped() {
    assert_eq!(ranges("4-4"), vec![]);
    assert_eq!(ranges("1-2,4-4,7"), vec![(1, 2)]);
}

#[test]
fn blank_specification_selects_all_pages() {
    assert_eq!(ranges(""), vec![]);
    assert_eq!(ranges("   "), vec![]);
    assert_eq!(ranges(" \t\n"), vec![]);
}

#[test]
fn non_integer_term_is_reported() {
    assert_eq!(bad_term("abc"), "abc");
}

#[test]
fn first_bad_term_wins() {
    assert_eq!(bad_term("1-2,x,y"), "x");
    assert_eq!(bad_term("1-q,zz"), "q");
    assert_eq!(bad_term("p-q"), "p");
    assert_eq!(bad_term("5,1-2, zz ,3"), "zz");
}

#[test]
fn bad_term_is_not_dropped_by_the_filter() {
    assert_eq!(bad_term("1-3,abc,5-9"), "abc");
    assert_eq!(bad_term("3-1,abc"), "abc");
}

#[test]
fn empty_term_is_reported() {
    assert_eq!(bad_term("1-2,"), "");
    assert_eq!(bad_term(","), "");
    assert_eq!(bad_term("-5"), "");
    assert_eq!(bad_term("5-"), "");
}

#[test]
fn white_space_inside_a_term_is_an_error() {
    assert_eq!(bad_term("1 - 3"), "1 ");
    assert_eq!(bad_term("1- 3"), " 3");
}

#[test]
fn terms_are_trimmed() {
    assert_eq!(ranges(" 1-3 ,\t7-9 "), vec![(1, 3), (7, 9)]);
}

#[test]
fn signs_are_read() {
    assert_eq!(ranges("+3-+7"), vec![(3, 7)]);
    assert_eq!(ranges("1--5"), vec![]);
    assert_eq!(parse_range("0--5").ok(), Some((0, -5)));
}

#[test]
fn out_of_range_numeral_is_reported() {
    assert_eq!(bad_term("1-99999999999"), "99999999999");
    assert_eq!(ranges("1-2147483647"), vec![(1, 2147483647)]);
    assert_eq!(bad_term("1-2147483648"), "2147483648");
}

#[test]
fn ranges_are_sorted_by_start() {
    assert_eq!(ranges("10-12,1-3"), vec![(1, 3), (10, 12)]);
    assert_eq!(ranges("7-9,4-5,1-2"), vec![(1, 2), (4, 5), (7, 9)]);
}

#[test]
fn touching_ranges_are_fused() {
    assert_eq!(ranges("1-3,3-5"), vec![(1, 5)]);
    assert_eq!(ranges("1-3,4-5"), vec![(1, 3), (4, 5)]);
}

#[test]
fn fused_range_ends_where_the_later_one_ends() {
    assert_eq!(ranges("1-10,2-5"), vec![(1, 5)]);
    assert_eq!(ranges("1-10,2-5,7-8"), vec![(1, 5), (7, 8)]);
}

#[test]
fn equal_starts_keep_their_order() {
    assert_eq!(ranges("1-5,1-3"), vec![(1, 3)]);
    assert_eq!(ranges("1-3,1-5"), vec![(1, 5)]);
}

#[test]
fn merging_is_idempotent() {
    let input = vec![(10, 12), (2, 5), (4, 4), (1, 3), (9, 2), (5, 6), (20, 30), (30, 31)];
    let once = merge_ranges(&input);
    assert_eq!(once, vec![(1, 6), (10, 12), (20, 31)]);
    let twice = merge_ranges(&once);
    assert_eq!(twice, once);
}

#[test]
fn merging_nothing_gives_nothing() {
    assert_eq!(merge_ranges(&vec![]), vec![]);
    assert_eq!(merge_ranges(&vec![(3, 3), (5, 1)]), vec![]);
}

#[test]
fn one_numeral() {
    assert_eq!(parse_one_in_range("42").ok(), Some(42));
    assert_eq!(parse_one_in_range("-7").ok(), Some(-7));
    assert_eq!(parse_one_in_range("007").ok(), Some(7));
    assert_eq!(parse_one_in_range("-2147483648").ok(), Some(i32::MIN));
    assert!(parse_one_in_range("4 2").is_err());
    assert!(parse_one_in_range("+").is_err());
    assert!(parse_one_in_range("").is_err());
    assert!(parse_one_in_range("1_000").is_err());
}

#[test]
fn one_term() {
    assert_eq!(parse_range("3-8").ok(), Some((3, 8)));
    assert_eq!(parse_range("8-3").ok(), Some((8, 3)));
    assert_eq!(parse_range("6").ok(), Some((6, 6)));
    match parse_range("6-x") {
        Err(e) => assert_eq!(e.bad_range(), "x"),
        Ok(v) => panic!("unexpected success: {:?}", v),
    }
}

#[test]
fn range_error_message() {
    match parse_pages("abc") {
        Err(e) => assert_eq!(
            e.message(),
            "Range Parsing Error: invalid digit found in string in abc"
        ),
        Ok(v) => panic!("unexpected success: {:?}", v),
    }
    assert_eq!(
        render_range_error("cause", "term"),
        "Range Parsing Error: cause in term"
    );
}
