use advanzia2csv::pattern::{Patterns, DATE_PATTERN};
use advanzia2csv::splitter::{split_at_starts, split_by_regex};
use regex::Regex;

#[test]
fn fragments_begin_with_their_marker() {
    let patterns = Patterns::new().unwrap();
    let text = "some prefix26.01.2021\nA\n27.02.2022\nB";
    assert_eq!(
        split_by_regex(text, &patterns.date),
        vec!["26.01.2021\nA\n", "27.02.2022\nB"]
    );
}

#[test]
fn text_before_the_first_marker_is_dropped() {
    let re = Regex::new(DATE_PATTERN).unwrap();
    assert_eq!(split_by_regex("no marker here", &re), Vec::<&str>::new());
    assert_eq!(split_by_regex("", &re), Vec::<&str>::new());
    assert_eq!(split_by_regex("x 01.02.2003", &re), vec!["01.02.2003"]);
}

#[test]
fn adjacent_markers_give_one_fragment_each() {
    let re = Regex::new(DATE_PATTERN).unwrap();
    assert_eq!(
        split_by_regex("01.02.200304.05.2006ö", &re),
        vec!["01.02.2003", "04.05.2006ö"]
    );
}

#[test]
fn empty_fragments_are_not_emitted() {
    let end = Regex::new("$").unwrap();
    assert_eq!(split_by_regex("ab", &end), Vec::<&str>::new());
    let gaps = Regex::new("x*").unwrap();
    assert_eq!(split_by_regex("ab", &gaps), vec!["a", "b"]);
}

#[test]
fn starts_cut_the_text() {
    assert_eq!(split_at_starts("aXbXc", &vec![1, 3]), vec!["Xb", "Xc"]);
    assert_eq!(split_at_starts("aXbXc", &vec![0]), vec!["aXbXc"]);
    assert_eq!(split_at_starts("aXbXc", &vec![5]), Vec::<&str>::new());
    assert_eq!(split_at_starts("aXbXc", &vec![]), Vec::<&str>::new());
    assert_eq!(split_at_starts("äXö", &vec![2, 3]), vec!["X", "ö"]);
}
