//! The condition grammar over words.

use rp::condition::{Condition, Select, TextSelectMode};
use rp::num::Num;
use rp::parse_ops::parse_cond;
use rp::token::tokenize;

fn words(s: &str) -> Vec<String> {
    tokenize(s).expect("the token string should split")
}

fn parsed(s: &str) -> (Condition, usize) {
    parse_cond(&words(s), 0, "").expect("the condition should parse")
}

#[test]
fn condition_test_parse_cond_text_len_range() {
    assert!(parsed("len 1,3") == (Condition::new(Select::new_text_len_range(Some(1), Some(3)), false), 2));
    assert!(parsed("len ,3") == (Condition::new(Select::new_text_len_range(None, Some(3)), false), 2));
    assert!(parsed("len 1,") == (Condition::new(Select::new_text_len_range(Some(1), None), false), 2));
    assert!(parsed("not len 1,3") == (Condition::new(Select::new_text_len_range(Some(1), Some(3)), true), 3));
    assert!(parsed("not len ,3") == (Condition::new(Select::new_text_len_range(None, Some(3)), true), 3));
    assert!(parsed("not len 1,") == (Condition::new(Select::new_text_len_range(Some(1), None), true), 3));
    assert!(parsed("len ,") == (Condition::new(Select::new_text_len_range(None, None), false), 2));
    assert!(parsed("not len ,") == (Condition::new(Select::new_text_len_range(None, None), true), 3));
    assert!(parse_cond(&words("len 1.2,3.0"), 0, "").is_err());
}

#[test]
fn condition_test_parse_cond_text_len_spec() {
    assert!(parsed("len 3") == (Condition::new(Select::TextLenSpec { len: 3 }, false), 2));
    assert!(parsed("not len 3") == (Condition::new(Select::TextLenSpec { len: 3 }, true), 3));
}

#[test]
fn condition_test_parse_cond_num_range() {
    let i = Num::from_int;
    assert!(parsed("num 1,3") == (Condition::new(Select::new_num_range(Some(i(1)), Some(i(3))), false), 2));
    assert!(parsed("num ,3") == (Condition::new(Select::new_num_range(None, Some(i(3))), false), 2));
    assert!(parsed("num 1,") == (Condition::new(Select::new_num_range(Some(i(1)), None), false), 2));
    assert!(parsed("num ,") == (Condition::new(Select::new_num_range(None, None), false), 2));
    assert!(parsed("not num 1,3") == (Condition::new(Select::new_num_range(Some(i(1)), Some(i(3))), true), 3));
    // a decimal bound keeps its exact value
    assert!(
        parsed("num 1.1,")
            == (Condition::new(Select::new_num_range(Some(Num::from_decimal(11, 1)), None), false), 2)
    );
    assert!(
        parsed("num ,3.0")
            == (Condition::new(Select::new_num_range(None, Some(Num::from_decimal(3, 0))), false), 2)
    );
}

#[test]
fn condition_test_parse_cond_num_spec() {
    assert!(parsed("num 3") == (Condition::new(Select::NumSpec { value: Num::from_int(3) }, false), 2));
    assert!(parsed("not num 3") == (Condition::new(Select::NumSpec { value: Num::from_int(3) }, true), 3));
    assert!(
        parsed("num 3.1") == (Condition::new(Select::NumSpec { value: Num::from_decimal(31, 1) }, false), 2)
    );
}

#[test]
fn condition_test_parse_cond_num_kind() {
    assert!(parsed("num") == (Condition::new(Select::Num { integer: None }, false), 1));
    assert!(parsed("num integer") == (Condition::new(Select::Num { integer: Some(true) }, false), 2));
    assert!(parsed("num float") == (Condition::new(Select::Num { integer: Some(false) }, false), 2));
    assert!(parsed("not num") == (Condition::new(Select::Num { integer: None }, true), 2));
    assert!(parsed("not num integer") == (Condition::new(Select::Num { integer: Some(true) }, true), 3));
    assert!(parsed("not num float") == (Condition::new(Select::Num { integer: Some(false) }, true), 3));
}

#[test]
fn condition_test_parse_cond_text_all_case() {
    assert!(parsed("upper") == (Condition::new(Select::Text { mode: TextSelectMode::Upper }, false), 1));
    assert!(parsed("not upper") == (Condition::new(Select::Text { mode: TextSelectMode::Upper }, true), 2));
    assert!(parsed("lower") == (Condition::new(Select::Text { mode: TextSelectMode::Lower }, false), 1));
    assert!(parsed("not lower") == (Condition::new(Select::Text { mode: TextSelectMode::Lower }, true), 2));
    assert!(parse_cond(&words(""), 0, "").is_err());
}

#[test]
fn condition_test_parse_cond_ascii() {
    assert!(parsed("ascii") == (Condition::new(Select::Text { mode: TextSelectMode::Ascii }, false), 1));
    assert!(parsed("not ascii") == (Condition::new(Select::Text { mode: TextSelectMode::Ascii }, true), 2));
    assert!(parsed("nonascii") == (Condition::new(Select::Text { mode: TextSelectMode::NonAscii }, false), 1));
    assert!(parsed("not nonascii") == (Condition::new(Select::Text { mode: TextSelectMode::NonAscii }, true), 2));
}

#[test]
fn condition_test_parse_cond_text_empty_or_blank() {
    assert!(parsed("empty") == (Condition::new(Select::Text { mode: TextSelectMode::Empty }, false), 1));
    assert!(parsed("not empty") == (Condition::new(Select::Text { mode: TextSelectMode::Empty }, true), 2));
    assert!(parsed("blank") == (Condition::new(Select::Text { mode: TextSelectMode::Blank }, false), 1));
    assert!(parsed("not blank") == (Condition::new(Select::Text { mode: TextSelectMode::Blank }, true), 2));
}

#[test]
fn condition_test_parse_cond_reg_match() {
    assert!(
        parsed(r"reg '\d{1,3}\.\d{1,3}\.\d{1,3}\.\d{1,3}'")
            == (
                Condition::new(
                    Select::new_reg_match(r"\d{1,3}\.\d{1,3}\.\d{1,3}\.\d{1,3}").unwrap(),
                    false
                ),
                2
            )
    );
    assert!(
        parsed(r"not reg '\d+'")
            == (Condition::new(Select::new_reg_match(r"\d+").unwrap(), true), 3)
    );
}
