//! The condition engine: selectors, negation, and numeric parsing.

use rp::condition::{Condition, Select, TextSelectMode};
use rp::num::Num;

fn whole(v: i64) -> Num {
    Num::from_int(v)
}

fn dec(mant: i64, scale: u32) -> Num {
    Num::from_decimal(mant, scale)
}

#[test]
fn test_text_len_range() {
    assert!(!Select::new_text_len_range(Some(3), Some(5)).yes().test("12"));
    assert!(Select::new_text_len_range(Some(3), Some(5)).yes().test("123"));
    assert!(Select::new_text_len_range(Some(3), Some(5)).yes().test("1234"));
    assert!(Select::new_text_len_range(Some(3), Some(5)).yes().test("12345"));
    assert!(!Select::new_text_len_range(Some(3), Some(5)).yes().test("123456"));
    assert!(!Select::new_text_len_range(Some(3), None).yes().test("12"));
    assert!(Select::new_text_len_range(Some(3), None).yes().test("123"));
    assert!(Select::new_text_len_range(Some(3), None).yes().test("1234"));
    assert!(Select::new_text_len_range(None, Some(3)).yes().test("12"));
    assert!(Select::new_text_len_range(None, Some(3)).yes().test("123"));
    assert!(!Select::new_text_len_range(None, Some(3)).yes().test("1234"));
    assert!(Select::new_text_len_range(None, None).yes().test("123"));
    assert!(Select::new_text_len_range(Some(3), Some(5)).negated().test("12"));
    assert!(!Select::new_text_len_range(Some(3), Some(5)).negated().test("123"));
    assert!(!Select::new_text_len_range(Some(3), Some(5)).negated().test("1234"));
    assert!(!Select::new_text_len_range(Some(3), Some(5)).negated().test("12345"));
    assert!(Select::new_text_len_range(Some(3), Some(5)).negated().test("123456"));
    assert!(Select::new_text_len_range(Some(3), None).negated().test("12"));
    assert!(!Select::new_text_len_range(Some(3), None).negated().test("123"));
    assert!(!Select::new_text_len_range(Some(3), None).negated().test("1234"));
    assert!(!Select::new_text_len_range(None, Some(3)).negated().test("12"));
    assert!(!Select::new_text_len_range(None, Some(3)).negated().test("123"));
    assert!(Select::new_text_len_range(None, Some(3)).negated().test("1234"));
    assert!(!Select::new_text_len_range(None, None).negated().test("123"));
}

#[test]
fn test_text_len_spec() {
    assert!(Condition::new(Select::TextLenSpec { len: 0 }, false).test(""));
    assert!(!Condition::new(Select::TextLenSpec { len: 0 }, false).test("1"));
    assert!(!Condition::new(Select::TextLenSpec { len: 3 }, false).test(""));
    assert!(!Condition::new(Select::TextLenSpec { len: 3 }, false).test("12"));
    assert!(Condition::new(Select::TextLenSpec { len: 3 }, false).test("123"));
    assert!(!Condition::new(Select::TextLenSpec { len: 3 }, false).test("1234"));
    assert!(!Condition::new(Select::TextLenSpec { len: 0 }, true).test(""));
    assert!(Condition::new(Select::TextLenSpec { len: 0 }, true).test("1"));
    assert!(Condition::new(Select::TextLenSpec { len: 3 }, true).test(""));
    assert!(Condition::new(Select::TextLenSpec { len: 3 }, true).test("12"));
    assert!(!Condition::new(Select::TextLenSpec { len: 3 }, true).test("123"));
    assert!(Condition::new(Select::TextLenSpec { len: 3 }, true).test("1234"));
}

#[test]
fn test_integer_range() {
    assert!(!Select::new_num_range(Some(whole(3)), Some(whole(5))).yes().test("2"));
    assert!(Select::new_num_range(Some(whole(3)), Some(whole(5))).yes().test("3"));
    assert!(Select::new_num_range(Some(whole(3)), Some(whole(5))).yes().test("4"));
    assert!(Select::new_num_range(Some(whole(3)), Some(whole(5))).yes().test("5"));
    assert!(!Select::new_num_range(Some(whole(3)), Some(whole(5))).yes().test("6"));
    assert!(!Select::new_num_range(Some(whole(3)), None).yes().test("2"));
    assert!(Select::new_num_range(Some(whole(3)), None).yes().test("3"));
    assert!(Select::new_num_range(Some(whole(3)), None).yes().test("4"));
    assert!(Select::new_num_range(None, Some(whole(3))).yes().test("2"));
    assert!(Select::new_num_range(None, Some(whole(3))).yes().test("3"));
    assert!(!Select::new_num_range(None, Some(whole(3))).yes().test("4"));
    assert!(Select::new_num_range(None, None).yes().test("3"));
    assert!(!Select::new_num_range(None, None).yes().test("abc"));
    assert!(!Select::new_num_range(None, None).yes().test(""));
    assert!(Select::new_num_range(Some(whole(3)), Some(whole(5))).negated().test("2"));
    assert!(!Select::new_num_range(Some(whole(3)), Some(whole(5))).negated().test("3"));
    assert!(!Select::new_num_range(Some(whole(3)), Some(whole(5))).negated().test("4"));
    assert!(!Select::new_num_range(Some(whole(3)), Some(whole(5))).negated().test("5"));
    assert!(Select::new_num_range(Some(whole(3)), Some(whole(5))).negated().test("6"));
    assert!(Select::new_num_range(None, None).negated().test("abc"));
    assert!(Select::new_num_range(None, None).negated().test(""));
    assert!(!Select::new_num_range(None, None).negated().test("3"));
}

#[test]
fn test_integer_spec() {
    assert!(Condition::new(Select::NumSpec { value: whole(0) }, false).test("0"));
    assert!(!Condition::new(Select::NumSpec { value: whole(0) }, false).test("1"));
    assert!(!Condition::new(Select::NumSpec { value: whole(3) }, false).test("1"));
    assert!(Condition::new(Select::NumSpec { value: whole(3) }, false).test("3"));
    assert!(!Condition::new(Select::NumSpec { value: whole(3) }, false).test("abc"));
    assert!(!Condition::new(Select::NumSpec { value: whole(3) }, false).test(""));
    assert!(!Condition::new(Select::NumSpec { value: whole(0) }, true).test("0"));
    assert!(Condition::new(Select::NumSpec { value: whole(0) }, true).test("1"));
    assert!(Condition::new(Select::NumSpec { value: whole(3) }, true).test("abc"));
    assert!(Condition::new(Select::NumSpec { value: whole(3) }, true).test(""));
}

#[test]
fn test_float_range() {
    assert!(!Select::new_num_range(Some(dec(30, 1)), Some(dec(50, 1))).yes().test("2"));
    assert!(Select::new_num_range(Some(dec(30, 1)), Some(dec(50, 1))).yes().test("3"));
    assert!(Select::new_num_range(Some(dec(30, 1)), Some(dec(50, 1))).yes().test("4"));
    assert!(Select::new_num_range(Some(dec(30, 1)), Some(dec(50, 1))).yes().test("5"));
    assert!(!Select::new_num_range(Some(dec(30, 1)), Some(dec(50, 1))).yes().test("6"));
    assert!(Select::new_num_range(Some(dec(30, 1)), Some(dec(50, 1))).yes().test("3.0"));
    assert!(Select::new_num_range(Some(dec(30, 1)), Some(dec(50, 1))).yes().test("4.999"));
    assert!(!Select::new_num_range(None, None).yes().test("NaN"));
    assert!(!Select::new_num_range(None, None).yes().test("nan"));
    assert!(!Select::new_num_range(None, None).yes().test("inf"));
    assert!(!Select::new_num_range(None, None).yes().test("Inf"));
    assert!(!Select::new_num_range(None, None).yes().test("-inf"));
    assert!(!Select::new_num_range(None, None).yes().test("-Inf"));
    assert!(Select::new_num_range(None, None).negated().test("NaN"));
    assert!(Select::new_num_range(None, None).negated().test("inf"));
}

#[test]
fn test_float_spec() {
    assert!(Condition::new(Select::NumSpec { value: dec(0, 0) }, false).test("0"));
    assert!(!Condition::new(Select::NumSpec { value: dec(0, 0) }, false).test("1"));
    assert!(Condition::new(Select::NumSpec { value: dec(30, 1) }, false).test("3"));
    assert!(Condition::new(Select::NumSpec { value: dec(30, 1) }, false).test("3.0"));
    assert!(!Condition::new(Select::NumSpec { value: dec(30, 1) }, false).test("abc"));
    assert!(!Condition::new(Select::NumSpec { value: dec(30, 1) }, false).test("NaN"));
    assert!(!Condition::new(Select::NumSpec { value: dec(30, 1) }, false).test("inf"));
    assert!(Condition::new(Select::NumSpec { value: dec(30, 1) }, true).test("nan"));
    assert!(Condition::new(Select::NumSpec { value: dec(30, 1) }, true).test("-Inf"));
    assert!(!Condition::new(Select::NumSpec { value: dec(30, 1) }, true).test("3"));
}

#[test]
fn test_num() {
    assert!(!Condition::new(Select::Num { integer: Some(true) }, false).test("abc"));
    assert!(Condition::new(Select::Num { integer: Some(true) }, false).test("123"));
    assert!(!Condition::new(Select::Num { integer: Some(true) }, false).test("123.1"));
    assert!(!Condition::new(Select::Num { integer: Some(true) }, false).test("123.0"));
    assert!(!Condition::new(Select::Num { integer: Some(true) }, false).test("NaN"));
    assert!(!Condition::new(Select::Num { integer: Some(true) }, false).test("inf"));
    assert!(!Condition::new(Select::Num { integer: Some(true) }, false).test(""));
    assert!(Condition::new(Select::Num { integer: Some(true) }, true).test("abc"));
    assert!(!Condition::new(Select::Num { integer: Some(true) }, true).test("123"));
    assert!(Condition::new(Select::Num { integer: Some(true) }, true).test("123.1"));
    assert!(!Condition::new(Select::Num { integer: Some(false) }, false).test("abc"));
    assert!(!Condition::new(Select::Num { integer: Some(false) }, false).test("123"));
    assert!(Condition::new(Select::Num { integer: Some(false) }, false).test("123.1"));
    assert!(Condition::new(Select::Num { integer: Some(false) }, false).test("123.0"));
    assert!(!Condition::new(Select::Num { integer: Some(false) }, false).test("NaN"));
    assert!(!Condition::new(Select::Num { integer: Some(false) }, false).test("inf"));
    assert!(!Condition::new(Select::Num { integer: Some(false) }, false).test(""));
    assert!(!Condition::new(Select::Num { integer: None }, false).test("abc"));
    assert!(Condition::new(Select::Num { integer: None }, false).test("123"));
    assert!(Condition::new(Select::Num { integer: None }, false).test("123.1"));
    assert!(Condition::new(Select::Num { integer: None }, false).test("123.0"));
    assert!(!Condition::new(Select::Num { integer: None }, false).test("NaN"));
    assert!(!Condition::new(Select::Num { integer: None }, false).test("nan"));
    assert!(!Condition::new(Select::Num { integer: None }, false).test("inf"));
    assert!(!Condition::new(Select::Num { integer: None }, false).test("Inf"));
    assert!(!Condition::new(Select::Num { integer: None }, false).test("-inf"));
    assert!(!Condition::new(Select::Num { integer: None }, false).test("-Inf"));
    assert!(!Condition::new(Select::Num { integer: None }, false).test(""));
    assert!(Condition::new(Select::Num { integer: None }, true).test("abc"));
    assert!(Condition::new(Select::Num { integer: None }, true).test("NaN"));
}

#[test]
fn test_text_all_case() {
    assert!(!Condition::new(Select::Text { mode: TextSelectMode::Upper }, false).test("abc"));
    assert!(Condition::new(Select::Text { mode: TextSelectMode::Upper }, false).test("ABC"));
    assert!(!Condition::new(Select::Text { mode: TextSelectMode::Upper }, false).test("abcABC"));
    assert!(Condition::new(Select::Text { mode: TextSelectMode::Upper }, false).test("你好123.#!@"));
    assert!(Condition::new(Select::Text { mode: TextSelectMode::Upper }, true).test("abc"));
    assert!(!Condition::new(Select::Text { mode: TextSelectMode::Upper }, true).test("ABC"));
    assert!(Condition::new(Select::Text { mode: TextSelectMode::Upper }, true).test("abcABC"));
    assert!(!Condition::new(Select::Text { mode: TextSelectMode::Upper }, true).test("你好123.#!@"));
    assert!(Condition::new(Select::Text { mode: TextSelectMode::Lower }, false).test("abc"));
    assert!(!Condition::new(Select::Text { mode: TextSelectMode::Lower }, false).test("ABC"));
    assert!(!Condition::new(Select::Text { mode: TextSelectMode::Lower }, false).test("abcABC"));
    assert!(Condition::new(Select::Text { mode: TextSelectMode::Lower }, false).test("你好123.#!@"));
    assert!(!Condition::new(Select::Text { mode: TextSelectMode::Lower }, true).test("abc"));
    assert!(Condition::new(Select::Text { mode: TextSelectMode::Lower }, true).test("ABC"));
    assert!(Condition::new(Select::Text { mode: TextSelectMode::Lower }, true).test("abcABC"));
    assert!(!Condition::new(Select::Text { mode: TextSelectMode::Lower }, true).test("你好123.#!@"));
}

#[test]
fn test_ascii() {
    assert!(Condition::new(Select::Text { mode: TextSelectMode::Ascii }, false).test("abc"));
    assert!(Condition::new(Select::Text { mode: TextSelectMode::Ascii }, false).test(""));
    assert!(Condition::new(Select::Text { mode: TextSelectMode::Ascii }, false).test("\n"));
    assert!(!Condition::new(Select::Text { mode: TextSelectMode::Ascii }, false).test("你好"));
    assert!(!Condition::new(Select::Text { mode: TextSelectMode::NonAscii }, false).test("abc"));
    assert!(Condition::new(Select::Text { mode: TextSelectMode::NonAscii }, false).test(""));
    assert!(!Condition::new(Select::Text { mode: TextSelectMode::NonAscii }, false).test("\n"));
    assert!(Condition::new(Select::Text { mode: TextSelectMode::NonAscii }, false).test("你好"));
    assert!(!Condition::new(Select::Text { mode: TextSelectMode::Ascii }, true).test("abc"));
    assert!(!Condition::new(Select::Text { mode: TextSelectMode::Ascii }, true).test(""));
    assert!(!Condition::new(Select::Text { mode: TextSelectMode::Ascii }, true).test("\n"));
    assert!(Condition::new(Select::Text { mode: TextSelectMode::Ascii }, true).test("你好"));
    assert!(Condition::new(Select::Text { mode: TextSelectMode::NonAscii }, true).test("abc"));
    assert!(!Condition::new(Select::Text { mode: TextSelectMode::NonAscii }, true).test(""));
    assert!(Condition::new(Select::Text { mode: TextSelectMode::NonAscii }, true).test("\n"));
    assert!(!Condition::new(Select::Text { mode: TextSelectMode::NonAscii }, true).test("你好"));
}

#[test]
fn test_text_empty_or_blank() {
    assert!(Condition::new(Select::Text { mode: TextSelectMode::Empty }, false).test(""));
    assert!(!Condition::new(Select::Text { mode: TextSelectMode::Empty }, false).test("abc"));
    assert!(!Condition::new(Select::Text { mode: TextSelectMode::Empty }, false).test(" "));
    assert!(!Condition::new(Select::Text { mode: TextSelectMode::Empty }, false).test(" \n\t\r "));
    assert!(!Condition::new(Select::Text { mode: TextSelectMode::Empty }, true).test(""));
    assert!(Condition::new(Select::Text { mode: TextSelectMode::Empty }, true).test("abc"));
    assert!(Condition::new(Select::Text { mode: TextSelectMode::Empty }, true).test(" "));
    assert!(Condition::new(Select::Text { mode: TextSelectMode::Empty }, true).test(" \n\t\r "));
    assert!(Condition::new(Select::Text { mode: TextSelectMode::Blank }, false).test(""));
    assert!(!Condition::new(Select::Text { mode: TextSelectMode::Blank }, false).test("abc"));
    assert!(Condition::new(Select::Text { mode: TextSelectMode::Blank }, false).test(" "));
    assert!(Condition::new(Select::Text { mode: TextSelectMode::Blank }, false).test(" \n\t\r "));
    assert!(!Condition::new(Select::Text { mode: TextSelectMode::Blank }, true).test(""));
    assert!(Condition::new(Select::Text { mode: TextSelectMode::Blank }, true).test("abc"));
    assert!(!Condition::new(Select::Text { mode: TextSelectMode::Blank }, true).test(" "));
    assert!(!Condition::new(Select::Text { mode: TextSelectMode::Blank }, true).test(" \n\t\r "));
}

#[test]
fn test_reg_match() {
    assert!(Select::new_reg_match(r"[").is_err());
    assert!(Select::new_reg_match(r"\d+").unwrap().yes().test("123"));
    assert!(!Select::new_reg_match(r"\d+").unwrap().yes().test("123abc"));
    assert!(!Select::new_reg_match(r"\d+").unwrap().yes().test("123\n123"));
    assert!(!Select::new_reg_match(r"(?m)\d+").unwrap().yes().test("123\n123"));
    assert!(Select::new_reg_match(r"(?m)[\d\n]+").unwrap().yes().test("123\n123"));
    assert!(!Select::new_reg_match(r"\d+").unwrap().negated().test("123"));
    assert!(Select::new_reg_match(r"\d+").unwrap().negated().test("123abc"));
    assert!(Select::new_reg_match(r"\d+").unwrap().negated().test("123\n123"));
    assert!(Select::new_reg_match(r"(?m)\d+").unwrap().negated().test("123\n123"));
    assert!(!Select::new_reg_match(r"(?m)[\d\n]+").unwrap().negated().test("123\n123"));
}

#[test]
fn numeric_literals_parse_exactly() {
    // promotion: an integer bound against a decimal value, and back
    assert!(Condition::new(Select::NumSpec { value: whole(3) }, false).test("3.0"));
    assert!(Condition::new(Select::NumSpec { value: dec(30, 1) }, false).test("3"));
    assert!(Condition::new(Select::NumSpec { value: dec(125, 2) }, false).test("1.25e0"));
    assert!(Condition::new(Select::NumSpec { value: whole(1250) }, false).test("1.25e3"));
    assert!(Condition::new(Select::NumSpec { value: dec(125, 4) }, false).test("1.25e-2"));
    assert!(!Condition::new(Select::NumSpec { value: whole(3) }, false).test("3.01"));
    // the integer grammar wins first; ".5" and "5." only fit the decimal one
    assert!(Condition::new(Select::Num { integer: Some(false) }, false).test(".5"));
    assert!(Condition::new(Select::Num { integer: Some(false) }, false).test("5."));
    assert!(!Condition::new(Select::Num { integer: None }, false).test("."));
    assert!(!Condition::new(Select::Num { integer: None }, false).test("1e"));
    assert!(Condition::new(Select::Num { integer: Some(false) }, false).test("1e3"));
}
