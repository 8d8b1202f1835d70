use tailr::directive::{parse_num, get_start_index, TakeValue};

#[test]
fn parse_bare_number_counts_from_end() {
    assert_eq!(parse_num(String::from("3")), Ok(TakeValue::TakeNum(-3)));
    assert_eq!(parse_num(String::from("10")), Ok(TakeValue::TakeNum(-10)));
}

#[test]
fn parse_explicit_signs() {
    assert_eq!(parse_num(String::from("+3")), Ok(TakeValue::TakeNum(3)));
    assert_eq!(parse_num(String::from("-3")), Ok(TakeValue::TakeNum(-3)));
}

#[test]
fn parse_zero_forms() {
    assert_eq!(parse_num(String::from("0")), Ok(TakeValue::TakeNum(0)));
    assert_eq!(parse_num(String::from("-0")), Ok(TakeValue::TakeNum(0)));
    assert_eq!(parse_num(String::from("+0")), Ok(TakeValue::PlusZero));
}

#[test]
fn parse_rejects_malformed_input_verbatim() {
    assert_eq!(parse_num(String::from("")), Err(String::from("")));
    assert_eq!(parse_num(String::from("+")), Err(String::from("+")));
    assert_eq!(parse_num(String::from("-")), Err(String::from("-")));
    assert_eq!(parse_num(String::from("3.14")), Err(String::from("3.14")));
    assert_eq!(parse_num(String::from("foo")), Err(String::from("foo")));
    assert_eq!(parse_num(String::from("3x")), Err(String::from("3x")));
    assert_eq!(parse_num(String::from("++3")), Err(String::from("++3")));
    assert_eq!(parse_num(String::from(" 3")), Err(String::from(" 3")));
}

#[test]
fn parse_signed_64_bit_bounds() {
    assert_eq!(
        parse_num(String::from("+9223372036854775807")),
        Ok(TakeValue::TakeNum(i64::MAX))
    );
    assert_eq!(
        parse_num(String::from("+9223372036854775808")),
        Err(String::from("+9223372036854775808"))
    );
    assert_eq!(
        parse_num(String::from("-9223372036854775808")),
        Ok(TakeValue::TakeNum(i64::MIN))
    );
    // a bare number is read as negative, so the magnitude of i64::MIN still fits
    assert_eq!(
        parse_num(String::from("9223372036854775808")),
        Ok(TakeValue::TakeNum(i64::MIN))
    );
    assert_eq!(
        parse_num(String::from("9223372036854775809")),
        Err(String::from("9223372036854775809"))
    );
}

#[test]
fn parse_is_deterministic() {
    let a = parse_num(String::from("+42"));
    let b = parse_num(String::from("+42"));
    assert_eq!(a, b);
    let c = parse_num(String::from("oops"));
    let d = parse_num(String::from("oops"));
    assert_eq!(c, d);
}

#[test]
fn zero_count_emits_nothing() {
    for total in [0, 1, 5, 1000] {
        assert_eq!(get_start_index(&TakeValue::TakeNum(0), total), None);
    }
}

#[test]
fn plus_zero_emits_all_of_a_nonempty_source() {
    assert_eq!(get_start_index(&TakeValue::PlusZero, 0), None);
    assert_eq!(get_start_index(&TakeValue::PlusZero, 1), Some(0));
    assert_eq!(get_start_index(&TakeValue::PlusZero, 42), Some(0));
}

#[test]
fn negative_count_clamps_to_the_start() {
    assert_eq!(get_start_index(&TakeValue::TakeNum(-1), 10), Some(9));
    assert_eq!(get_start_index(&TakeValue::TakeNum(-3), 10), Some(7));
    assert_eq!(get_start_index(&TakeValue::TakeNum(-10), 10), Some(0));
    assert_eq!(get_start_index(&TakeValue::TakeNum(-11), 10), Some(0));
    assert_eq!(get_start_index(&TakeValue::TakeNum(-3), 0), None);
}

#[test]
fn positive_count_is_one_indexed_and_bounded() {
    assert_eq!(get_start_index(&TakeValue::TakeNum(1), 10), Some(0));
    assert_eq!(get_start_index(&TakeValue::TakeNum(2), 10), Some(1));
    assert_eq!(get_start_index(&TakeValue::TakeNum(10), 10), Some(9));
    assert_eq!(get_start_index(&TakeValue::TakeNum(11), 10), None);
    assert_eq!(get_start_index(&TakeValue::TakeNum(1), 0), None);
}
