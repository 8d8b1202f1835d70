use tailr::ranges::{parse_index, parse_pos, RangeError};

fn illegal(s: &str) -> RangeError {
    RangeError::IllegalValue(String::from(s))
}

#[test]
fn parse_index_is_one_indexed() {
    assert_eq!(parse_index("1"), Ok(0));
    assert_eq!(parse_index("10"), Ok(9));
    assert_eq!(parse_index("007"), Ok(6));
}

#[test]
fn parse_index_rejects_zero_signs_and_junk() {
    assert_eq!(parse_index("0"), Err(illegal("0")));
    assert_eq!(parse_index("+5"), Err(illegal("+5")));
    assert_eq!(parse_index("-5"), Err(illegal("-5")));
    assert_eq!(parse_index(""), Err(illegal("")));
    assert_eq!(parse_index("abc"), Err(illegal("abc")));
    assert_eq!(parse_index("1a"), Err(illegal("1a")));
}

#[test]
fn single_numbers_become_unit_ranges() {
    assert_eq!(parse_pos(String::from("1")), Ok(vec![(0, 1)]));
    assert_eq!(parse_pos(String::from("100")), Ok(vec![(99, 100)]));
    assert_eq!(parse_pos(String::from("1,3")), Ok(vec![(0, 1), (2, 3)]));
    assert_eq!(parse_pos(String::from("001,0003")), Ok(vec![(0, 1), (2, 3)]));
}

#[test]
fn pairs_become_closed_ranges() {
    assert_eq!(parse_pos(String::from("1-3")), Ok(vec![(0, 3)]));
    assert_eq!(parse_pos(String::from("0001-03")), Ok(vec![(0, 3)]));
    assert_eq!(parse_pos(String::from("2-2")), Ok(vec![(1, 2)]));
    assert_eq!(
        parse_pos(String::from("1,7,3-5")),
        Ok(vec![(0, 1), (6, 7), (2, 5)])
    );
    assert_eq!(
        parse_pos(String::from("15,19-20")),
        Ok(vec![(14, 15), (18, 20)])
    );
}

#[test]
fn bad_pieces_are_reported_verbatim() {
    assert_eq!(parse_pos(String::from("")), Err(illegal("")));
    assert_eq!(parse_pos(String::from(",")), Err(illegal("")));
    assert_eq!(parse_pos(String::from("1,")), Err(illegal("")));
    assert_eq!(parse_pos(String::from("1,a")), Err(illegal("a")));
    assert_eq!(parse_pos(String::from("a")), Err(illegal("a")));
    assert_eq!(parse_pos(String::from("-")), Err(illegal("-")));
    assert_eq!(parse_pos(String::from("1-")), Err(illegal("1-")));
    assert_eq!(parse_pos(String::from("-1")), Err(illegal("-1")));
    assert_eq!(parse_pos(String::from("1-a")), Err(illegal("1-a")));
    assert_eq!(parse_pos(String::from("a-1")), Err(illegal("a-1")));
    assert_eq!(parse_pos(String::from("1-2-3")), Err(illegal("1-2-3")));
}

#[test]
fn signs_inside_pairs_are_rejected() {
    assert_eq!(parse_pos(String::from("+1")), Err(illegal("+1")));
    assert_eq!(parse_pos(String::from("+1-2")), Err(illegal("+1-2")));
    assert_eq!(parse_pos(String::from("1-+2")), Err(illegal("1-+2")));
}

#[test]
fn a_zero_side_of_a_pair_is_reported_alone() {
    // both sides are digit strings, so the bad selection value itself is named
    assert_eq!(parse_pos(String::from("0-1")), Err(illegal("0")));
    assert_eq!(parse_pos(String::from("1-0")), Err(illegal("0")));
}

#[test]
fn reversed_pairs_are_rejected_with_their_indices() {
    assert_eq!(
        parse_pos(String::from("3-1")),
        Err(RangeError::Reversed(2, 0))
    );
    assert_eq!(
        parse_pos(String::from("2-1")),
        Err(RangeError::Reversed(1, 0))
    );
}

#[test]
fn the_first_bad_piece_wins() {
    assert_eq!(parse_pos(String::from("1,x,3-1")), Err(illegal("x")));
    assert_eq!(
        parse_pos(String::from("1,3-1,x")),
        Err(RangeError::Reversed(2, 0))
    );
}
