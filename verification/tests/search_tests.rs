use regex::RegexBuilder;
use tailr::search::{find_lines, select_lines};

fn lines(texts: &[&str]) -> Vec<String> {
    texts.iter().map(|t| String::from(*t)).collect()
}

#[test]
fn select_keeps_flagged_lines_in_order() {
    let ls = lines(&["a\n", "b\n", "c\n"]);
    assert_eq!(
        select_lines(&ls, &vec![true, false, true], false),
        lines(&["a\n", "c\n"])
    );
    assert_eq!(
        select_lines(&ls, &vec![true, false, true], true),
        lines(&["b\n"])
    );
    assert_eq!(select_lines(&ls, &vec![false, false, false], false), lines(&[]));
    assert_eq!(select_lines(&lines(&[]), &vec![], false), lines(&[]));
}

#[test]
fn find_lines_case_sensitive() {
    let ls = lines(&["Lorem\n", "Ipsum\n", "DOLOR SIT AMET\n"]);
    let re = RegexBuilder::new("or").build().unwrap();
    assert_eq!(find_lines(&ls, &re, false), lines(&["Lorem\n"]));
    assert_eq!(
        find_lines(&ls, &re, true),
        lines(&["Ipsum\n", "DOLOR SIT AMET\n"])
    );
}

#[test]
fn find_lines_case_insensitive() {
    let ls = lines(&["Lorem\n", "Ipsum\n", "DOLOR SIT AMET\n"]);
    let re = RegexBuilder::new("or")
        .case_insensitive(true)
        .build()
        .unwrap();
    assert_eq!(
        find_lines(&ls, &re, false),
        lines(&["Lorem\n", "DOLOR SIT AMET\n"])
    );
    assert_eq!(find_lines(&ls, &re, true), lines(&["Ipsum\n"]));
}

#[test]
fn matching_and_inverted_runs_partition_the_lines() {
    let ls = lines(&["Lorem\n", "Ipsum\n", "DOLOR SIT AMET\n", "more\n"]);
    let re = RegexBuilder::new("or").build().unwrap();
    let kept = find_lines(&ls, &re, false);
    let dropped = find_lines(&ls, &re, true);
    assert_eq!(kept.len() + dropped.len(), ls.len());
    for line in &ls {
        assert_eq!(
            kept.contains(line) as u8 + dropped.contains(line) as u8,
            1
        );
    }
}

#[test]
fn find_lines_anchored_pattern() {
    let ls = lines(&["apple\n", "banana\n", "an apple\n"]);
    let re = RegexBuilder::new("^an").build().unwrap();
    assert_eq!(find_lines(&ls, &re, false), lines(&["an apple\n"]));
}
