//! The operator catalog over materialized streams.

use rp::config::Config;
use rp::item::Item;
use rp::joinop::{join_all_items, join_batch_items, JoinInfo};
use rp::op::{apply_op, execute, CaseArg, Op, PeekArg, SortBy, TakeDropMode};
use rp::replace::{replace_with_count_and_nocase, ReplaceArg};
use rp::sliceop::slice_items;
use rp::trim::{TrimArg, TrimMode};
use rp::uniq::uniq_items;
use rp::condition::{Condition, Select};

fn texts(items: &[Item]) -> Vec<String> {
    items.iter().map(|it| it.to_text()).collect()
}

fn text_items(vals: &[&str]) -> Vec<Item> {
    vals.iter().map(|v| Item::Text(v.to_string())).collect()
}

fn no_configs() -> Vec<Config> {
    Vec::new()
}

#[test]
fn op_test_replace_with_count_and_nocase() {
    assert_eq!(
        replace_with_count_and_nocase("abc ABC abc abc", "abc", "1234", None, false),
        "1234 ABC 1234 1234"
    );
    assert_eq!(
        replace_with_count_and_nocase("abc ABC abc abc", "AbC", "1234", None, true),
        "1234 1234 1234 1234"
    );
    assert_eq!(
        replace_with_count_and_nocase("abc ABC abc abc", "abc", "1234", Some(0), false),
        "abc ABC abc abc"
    );
    assert_eq!(
        replace_with_count_and_nocase("abc ABC abc abc", "aBc", "1234", Some(0), true),
        "abc ABC abc abc"
    );
    assert_eq!(
        replace_with_count_and_nocase("abc ABC abc abc", "abc", "1234", Some(2), false),
        "1234 ABC 1234 abc"
    );
    assert_eq!(
        replace_with_count_and_nocase("abc ABC abc abc", "abc", "1234", Some(2), true),
        "1234 1234 abc abc"
    );
    assert_eq!(
        replace_with_count_and_nocase("abc ABC abc abc", "", "1234", Some(2), true),
        "1234a1234bc ABC abc abc"
    );
    assert_eq!(replace_with_count_and_nocase("abc", "", "_", None, true), "_a_b_c_");
}

#[test]
fn replace_test_replace_with_count_and_nocase() {
    let config = no_configs();
    assert_eq!(
        ReplaceArg::new("abc".to_owned(), "1234".to_owned(), None, false)
            .replace("abc ABC abc abc", &config),
        "1234 ABC 1234 1234"
    );
    assert_eq!(
        ReplaceArg::new("AbC".to_owned(), "1234".to_owned(), None, true)
            .replace("abc ABC abc abc", &config),
        "1234 1234 1234 1234"
    );
    assert_eq!(
        ReplaceArg::new("abc".to_owned(), "1234".to_owned(), Some(0), false)
            .replace("abc ABC abc abc", &config),
        "abc ABC abc abc"
    );
    assert_eq!(
        ReplaceArg::new("aBc".to_owned(), "1234".to_owned(), Some(0), true)
            .replace("abc ABC abc abc", &config),
        "abc ABC abc abc"
    );
    assert_eq!(
        ReplaceArg::new("abc".to_owned(), "1234".to_owned(), Some(2), false)
            .replace("abc ABC abc abc", &config),
        "1234 ABC 1234 abc"
    );
    assert_eq!(
        ReplaceArg::new("abc".to_owned(), "1234".to_owned(), Some(2), true)
            .replace("abc ABC abc abc", &config),
        "1234 1234 abc abc"
    );
    assert_eq!(
        ReplaceArg::new("".to_owned(), "1234".to_owned(), Some(2), true)
            .replace("abc ABC abc abc", &config),
        "1234a1234bc ABC abc abc"
    );
    assert_eq!(ReplaceArg::new("".to_owned(), "_".to_owned(), None, true).replace("abc", &config), "_a_b_c_");
    assert_eq!(
        ReplaceArg::new("你".to_owned(), "_".to_owned(), None, true)
            .replace("abc你好世界，你好！", &config),
        "abc_好世界，_好！"
    );
}

fn slice_nums(upper: i64, ranges: Vec<(Option<usize>, Option<usize>)>) -> Vec<String> {
    let items: Vec<Item> = (0..=upper).map(Item::Int).collect();
    texts(&slice_items(&items, &ranges))
}

fn num_strings(r: std::ops::RangeInclusive<i64>) -> Vec<String> {
    r.map(|v| v.to_string()).collect()
}

#[test]
fn test_slice() {
    assert_eq!(slice_nums(10, vec![]), Vec::<String>::new());
    assert_eq!(slice_nums(10, vec![(Some(5), Some(2))]), Vec::<String>::new());
    assert_eq!(slice_nums(10, vec![(Some(2), Some(5))]), num_strings(2..=5));
    assert_eq!(slice_nums(10, vec![(Some(2), None)]), num_strings(2..=10));
    assert_eq!(slice_nums(10, vec![(Some(2), None), (None, Some(7))]), num_strings(2..=10));
    assert_eq!(slice_nums(10, vec![(Some(2), None), (Some(5), Some(7))]), num_strings(2..=10));
    assert_eq!(slice_nums(10, vec![(None, Some(2))]), num_strings(0..=2));
    assert_eq!(slice_nums(10, vec![(None, Some(2)), (None, Some(7))]), num_strings(0..=7));
    assert_eq!(
        slice_nums(10, vec![(None, Some(2)), (Some(5), Some(7))]),
        [num_strings(0..=2), num_strings(5..=7)].concat()
    );
    assert_eq!(
        slice_nums(10, vec![(None, Some(2)), (Some(5), None)]),
        [num_strings(0..=2), num_strings(5..=10)].concat()
    );
    assert_eq!(
        slice_nums(10, vec![(Some(2), Some(5)), (Some(7), Some(9))]),
        [num_strings(2..=5), num_strings(7..=9)].concat()
    );
}

#[test]
fn slice_union_scenario() {
    // overlapping ranges merge: the full index set, once each, ascending
    assert_eq!(
        slice_nums(10, vec![(Some(0), Some(5)), (Some(7), Some(10)), (Some(3), Some(9))]),
        num_strings(0..=10)
    );
}

#[test]
fn test_trim_char_nocase() {
    let configs = no_configs();
    assert_eq!("abc", TrimArg::new(TrimMode::Left, None, true, true).trim("abc".to_owned(), &configs));
    assert_eq!(
        "abc123abc",
        TrimArg::new(TrimMode::Left, Some("_;+-=".to_owned()), true, true)
            .trim("abc123abc".to_owned(), &configs)
    );
    assert_eq!(
        "23ABC",
        TrimArg::new(TrimMode::Left, Some("cBAa1".to_owned()), true, true)
            .trim("abc123ABC".to_owned(), &configs)
    );
    assert_eq!(
        "啊你好",
        TrimArg::new(TrimMode::Left, Some("你好好".to_owned()), true, true)
            .trim("你好你好啊你好".to_owned(), &configs)
    );
    assert_eq!(
        "1c好啊你好",
        TrimArg::new(TrimMode::Left, Some("你好aBc".to_owned()), true, true)
            .trim("你a好b你c1c好啊你好".to_owned(), &configs)
    );
    assert_eq!(
        "",
        TrimArg::new(TrimMode::Left, Some("你好啊abc".to_owned()), true, true)
            .trim("a你".to_owned(), &configs)
    );
    assert_eq!("abc", TrimArg::new(TrimMode::Right, None, true, true).trim("abc".to_owned(), &configs));
    assert_eq!(
        "abc123abc",
        TrimArg::new(TrimMode::Right, Some("_;+-=".to_owned()), true, true)
            .trim("abc123abc".to_owned(), &configs)
    );
    assert_eq!(
        "abc123",
        TrimArg::new(TrimMode::Right, Some("cBAa1".to_owned()), true, true)
            .trim("abc123ABC".to_owned(), &configs)
    );
    assert_eq!(
        "你好你好啊",
        TrimArg::new(TrimMode::Right, Some("你好好".to_owned()), true, true)
            .trim("你好你好啊你好".to_owned(), &configs)
    );
    assert_eq!(
        "你a好b你c1c好啊",
        TrimArg::new(TrimMode::Right, Some("你好aBc".to_owned()), true, true)
            .trim("你a好b你c1c好啊你好".to_owned(), &configs)
    );
    assert_eq!(
        "",
        TrimArg::new(TrimMode::Right, Some("你好啊abc".to_owned()), true, true)
            .trim("a你".to_owned(), &configs)
    );
    assert_eq!("abc", TrimArg::new(TrimMode::All, None, true, true).trim("abc".to_owned(), &configs));
    assert_eq!(
        "abc123abc",
        TrimArg::new(TrimMode::All, Some("_;+-=".to_owned()), true, true)
            .trim("abc123abc".to_owned(), &configs)
    );
    assert_eq!(
        "23",
        TrimArg::new(TrimMode::All, Some("cBAa1".to_owned()), true, true)
            .trim("abc123ABC".to_owned(), &configs)
    );
    assert_eq!(
        "啊",
        TrimArg::new(TrimMode::All, Some("你好好".to_owned()), true, true)
            .trim("你好你好啊你好".to_owned(), &configs)
    );
    assert_eq!(
        "1c好啊",
        TrimArg::new(TrimMode::All, Some("你好aBc".to_owned()), true, true)
            .trim("你a好b你c1c好啊你好".to_owned(), &configs)
    );
    assert_eq!(
        "",
        TrimArg::new(TrimMode::All, Some("你好啊abc".to_owned()), true, true)
            .trim("a你".to_owned(), &configs)
    );
}

#[test]
fn test_trim_char() {
    let configs = no_configs();
    assert_eq!("abc", TrimArg::new(TrimMode::Left, None, true, false).trim("abc".to_owned(), &configs));
    assert_eq!(
        "abc123abc",
        TrimArg::new(TrimMode::Left, Some("_;+-=".to_owned()), true, false)
            .trim("abc123abc".to_owned(), &configs)
    );
    assert_eq!(
        "23aBc",
        TrimArg::new(TrimMode::Left, Some("aBc1".to_owned()), true, false)
            .trim("acB123aBc".to_owned(), &configs)
    );
    assert_eq!(
        "啊你好",
        TrimArg::new(TrimMode::Left, Some("你好好".to_owned()), true, false)
            .trim("你好你好啊你好".to_owned(), &configs)
    );
    assert_eq!(
        "b你c1c好啊你好",
        TrimArg::new(TrimMode::Left, Some("你好aBc".to_owned()), true, false)
            .trim("你a好b你c1c好啊你好".to_owned(), &configs)
    );
    assert_eq!(
        "",
        TrimArg::new(TrimMode::Left, Some("你好啊abc".to_owned()), true, false)
            .trim("a你".to_owned(), &configs)
    );
    assert_eq!("abc", TrimArg::new(TrimMode::Right, None, true, false).trim("abc".to_owned(), &configs));
    assert_eq!(
        "abc123abc",
        TrimArg::new(TrimMode::Right, Some("_;+-=".to_owned()), true, false)
            .trim("abc123abc".to_owned(), &configs)
    );
    assert_eq!(
        "abc123ab",
        TrimArg::new(TrimMode::Right, Some("aBc1".to_owned()), true, false)
            .trim("abc123abc".to_owned(), &configs)
    );
    assert_eq!(
        "你好你好啊",
        TrimArg::new(TrimMode::Right, Some("你好好".to_owned()), true, false)
            .trim("你好你好啊你好".to_owned(), &configs)
    );
    assert_eq!(
        "你a好b你c1c好啊",
        TrimArg::new(TrimMode::Right, Some("你好aBc".to_owned()), true, false)
            .trim("你a好b你c1c好啊你好".to_owned(), &configs)
    );
    assert_eq!(
        "",
        TrimArg::new(TrimMode::Right, Some("你好啊abc".to_owned()), true, false)
            .trim("a你".to_owned(), &configs)
    );
    assert_eq!("abc", TrimArg::new(TrimMode::All, None, true, false).trim("abc".to_owned(), &configs));
    assert_eq!(
        "abc123abc",
        TrimArg::new(TrimMode::All, Some("_;+-=".to_owned()), true, false)
            .trim("abc123abc".to_owned(), &configs)
    );
    assert_eq!(
        "bc123ab",
        TrimArg::new(TrimMode::All, Some("aBc1".to_owned()), true, false)
            .trim("abc123abc".to_owned(), &configs)
    );
    assert_eq!(
        "啊",
        TrimArg::new(TrimMode::All, Some("你好好".to_owned()), true, false)
            .trim("你好你好啊你好".to_owned(), &configs)
    );
    assert_eq!(
        "b你c1c好啊",
        TrimArg::new(TrimMode::All, Some("你好aBc".to_owned()), true, false)
            .trim("你a好b你c1c好啊你好".to_owned(), &configs)
    );
    assert_eq!(
        "",
        TrimArg::new(TrimMode::All, Some("你好啊abc".to_owned()), true, false)
            .trim("a你".to_owned(), &configs)
    );
}

#[test]
fn test_trim_str_nocase() {
    let configs = no_configs();
    assert_eq!("abc", TrimArg::new(TrimMode::Left, None, false, true).trim("abc".to_owned(), &configs));
    assert_eq!(
        "abc123abc",
        TrimArg::new(TrimMode::Left, Some("_;+-=".to_owned()), false, true)
            .trim("abc123abc".to_owned(), &configs)
    );
    assert_eq!(
        "abc123abCABC",
        TrimArg::new(TrimMode::Left, Some("abc".to_owned()), false, true)
            .trim("abcabc123abCABC".to_owned(), &configs)
    );
    assert_eq!(
        "123aBc",
        TrimArg::new(TrimMode::Left, Some("acB".to_owned()), false, true)
            .trim("acB123aBc".to_owned(), &configs)
    );
    assert_eq!(
        "好啊你好",
        TrimArg::new(TrimMode::Left, Some("你好你".to_owned()), false, true)
            .trim("你好你好啊你好".to_owned(), &configs)
    );
    assert_eq!(
        "你a好b你c1c好啊你好",
        TrimArg::new(TrimMode::Left, Some("你好aBc".to_owned()), false, true)
            .trim("你a好b你c1c好啊你好".to_owned(), &configs)
    );
    assert_eq!(
        "啊你好你好aBc",
        TrimArg::new(TrimMode::Left, Some("你好aBc".to_owned()), false, true)
            .trim("你好aBc啊你好你好aBc".to_owned(), &configs)
    );
    assert_eq!(
        "a你",
        TrimArg::new(TrimMode::Left, Some("你好啊abc".to_owned()), false, true)
            .trim("a你".to_owned(), &configs)
    );
    assert_eq!("abc", TrimArg::new(TrimMode::Right, None, false, true).trim("abc".to_owned(), &configs));
    assert_eq!(
        "abcabc123abC",
        TrimArg::new(TrimMode::Right, Some("abc".to_owned()), false, true)
            .trim("abcabc123abCABC".to_owned(), &configs)
    );
    assert_eq!(
        "abc123abc",
        TrimArg::new(TrimMode::Right, Some("aBc1".to_owned()), false, true)
            .trim("abc123abc".to_owned(), &configs)
    );
    assert_eq!(
        "你好aBc啊你好",
        TrimArg::new(TrimMode::Right, Some("你好aBc".to_owned()), false, true)
            .trim("你好aBc啊你好你好aBc".to_owned(), &configs)
    );
    assert_eq!("abc", TrimArg::new(TrimMode::All, None, false, true).trim("abc".to_owned(), &configs));
    assert_eq!(
        "abc123abC",
        TrimArg::new(TrimMode::All, Some("abc".to_owned()), false, true)
            .trim("abcabc123abCABC".to_owned(), &configs)
    );
    assert_eq!(
        "23abc",
        TrimArg::new(TrimMode::All, Some("aBc1".to_owned()), false, true)
            .trim("abc123abc".to_owned(), &configs)
    );
    assert_eq!(
        "啊你好",
        TrimArg::new(TrimMode::All, Some("你好aBc".to_owned()), false, true)
            .trim("你好aBc啊你好你好aBc".to_owned(), &configs)
    );
}

#[test]
fn test_trim_str() {
    let configs = no_configs();
    assert_eq!("abc", TrimArg::new(TrimMode::Left, None, false, false).trim("abc".to_owned(), &configs));
    assert_eq!(
        "abc123abc",
        TrimArg::new(TrimMode::Left, Some("_;+-=".to_owned()), false, false)
            .trim("abc123abc".to_owned(), &configs)
    );
    assert_eq!(
        "aBcabc123abcabc",
        TrimArg::new(TrimMode::Left, Some("abc".to_owned()), false, false)
            .trim("aBcabc123abcabc".to_owned(), &configs)
    );
    assert_eq!(
        "123acb",
        TrimArg::new(TrimMode::Left, Some("acB".to_owned()), false, false)
            .trim("acB123acb".to_owned(), &configs)
    );
    assert_eq!(
        "好啊你好",
        TrimArg::new(TrimMode::Left, Some("你好你".to_owned()), false, false)
            .trim("你好你好啊你好".to_owned(), &configs)
    );
    assert_eq!(
        "啊你好你好abc",
        TrimArg::new(TrimMode::Left, Some("你好aBc".to_owned()), false, false)
            .trim("你好aBc啊你好你好abc".to_owned(), &configs)
    );
    assert_eq!(
        "a你",
        TrimArg::new(TrimMode::Left, Some("你好啊abc".to_owned()), false, false)
            .trim("a你".to_owned(), &configs)
    );
    assert_eq!("abc", TrimArg::new(TrimMode::Right, None, false, false).trim("abc".to_owned(), &configs));
    assert_eq!(
        "aBcabc123abc",
        TrimArg::new(TrimMode::Right, Some("abc".to_owned()), false, false)
            .trim("aBcabc123abcabc".to_owned(), &configs)
    );
    assert_eq!(
        "abc123abc",
        TrimArg::new(TrimMode::Right, Some("aBc1".to_owned()), false, false)
            .trim("abc123abc".to_owned(), &configs)
    );
    assert_eq!(
        "你好aBc啊你好你好abc",
        TrimArg::new(TrimMode::Right, Some("你好aBc".to_owned()), false, false)
            .trim("你好aBc啊你好你好abc".to_owned(), &configs)
    );
    assert_eq!("abc", TrimArg::new(TrimMode::All, None, false, false).trim("abc".to_owned(), &configs));
    assert_eq!(
        "aBcabc123abc",
        TrimArg::new(TrimMode::All, Some("abc".to_owned()), false, false)
            .trim("aBcabc123abcabc".to_owned(), &configs)
    );
    assert_eq!(
        "abc123abc",
        TrimArg::new(TrimMode::All, Some("aBc1".to_owned()), false, false)
            .trim("abc123abc".to_owned(), &configs)
    );
    assert_eq!(
        "啊你好你好abc",
        TrimArg::new(TrimMode::All, Some("你好aBc".to_owned()), false, false)
            .trim("你好aBc啊你好你好abc".to_owned(), &configs)
    );
}

#[test]
fn blank_trim_respects_the_position() {
    let configs = no_configs();
    assert_eq!("x \t", TrimArg::new(TrimMode::Left, None, false, false).trim(" \tx \t".to_owned(), &configs));
    assert_eq!(" \tx", TrimArg::new(TrimMode::Right, None, false, false).trim(" \tx \t".to_owned(), &configs));
    assert_eq!("x", TrimArg::new(TrimMode::All, None, false, false).trim(" \tx \t".to_owned(), &configs));
    // an empty pattern falls back to blank trimming, with the same position
    assert_eq!("x ", TrimArg::new(TrimMode::Left, Some(String::new()), true, false).trim(" x ".to_owned(), &configs));
}

#[test]
fn trim_substring_and_charset_scenario() {
    let configs = no_configs();
    // character-set mode empties "abab" for the pattern "ab"
    assert_eq!("", TrimArg::new(TrimMode::All, Some("ab".to_owned()), true, false).trim("abab".to_owned(), &configs));
    // substring mode strips the literal "ab" from each end, also emptying it
    assert_eq!("", TrimArg::new(TrimMode::All, Some("ab".to_owned()), false, false).trim("abab".to_owned(), &configs));
    // "ba" as a substring matches neither boundary
    assert_eq!(
        "abab",
        TrimArg::new(TrimMode::All, Some("ba".to_owned()), false, false).trim("abab".to_owned(), &configs)
    );
    // "ba" as a character set is the same set as "ab"
    assert_eq!("", TrimArg::new(TrimMode::All, Some("ba".to_owned()), true, false).trim("abab".to_owned(), &configs));
}

#[test]
fn uniq_first_seen_casing() {
    let items = text_items(&["A", "a", "B"]);
    assert_eq!(texts(&uniq_items(&items, true)), vec!["A", "B"]);
    assert_eq!(texts(&uniq_items(&items, false)), vec!["A", "a", "B"]);
}

#[test]
fn join_batches_and_whole() {
    let items = text_items(&["1", "2", "3", "4", "5", "6", "7"]);
    let info = JoinInfo {
        delimiter: ",".to_string(),
        prefix: "[".to_string(),
        postfix: "]".to_string(),
    };
    let batched = join_batch_items(&items, &info, 3);
    assert_eq!(texts(&batched), vec!["[1,2,3]", "[4,5,6]", "[7]"]);
    assert_eq!(batched.len(), 3);
    let whole = join_all_items(&items, &info);
    assert_eq!(whole.to_text(), "[1,2,3,4,5,6,7]");
    let empty: Vec<Item> = Vec::new();
    assert_eq!(join_all_items(&empty, &info).to_text(), "[]");
    assert_eq!(texts(&join_batch_items(&empty, &info, 3)), Vec::<String>::new());
}

#[test]
fn sort_num_desc_with_default() {
    // unparsable items rank as the literal default
    let items = text_items(&["5", "x", "12", "3"]);
    let op = Op::Sort { sort_by: SortBy::Num(Some(rp::num::Num::from_int(10))), desc: true };
    let (out, _) = apply_op(&op, items, &no_configs());
    assert_eq!(texts(&out), vec!["12", "x", "5", "3"]);
}

#[test]
fn sort_text_plain_and_nocase() {
    let items = text_items(&["b", "A", "a", "B"]);
    let op = Op::Sort { sort_by: SortBy::Text(false), desc: false };
    let (out, _) = apply_op(&op, items, &no_configs());
    assert_eq!(texts(&out), vec!["A", "B", "a", "b"]);

    let items = text_items(&["b", "A", "C"]);
    let op = Op::Sort { sort_by: SortBy::Text(true), desc: false };
    let (out, _) = apply_op(&op, items, &no_configs());
    assert_eq!(texts(&out), vec!["A", "b", "C"]);
}

#[test]
fn sort_random_is_a_permutation() {
    let items = text_items(&["a", "b", "c", "d", "e"]);
    let op = Op::Sort { sort_by: SortBy::Random, desc: false };
    let (out, _) = apply_op(&op, items, &no_configs());
    let mut got = texts(&out);
    got.sort();
    assert_eq!(got, vec!["a", "b", "c", "d", "e"]);
}

#[test]
fn case_count_and_peek() {
    let items = text_items(&["aB1", "cd"]);
    let (out, _) = apply_op(&Op::Case(CaseArg::Upper), items, &no_configs());
    assert_eq!(texts(&out), vec!["AB1", "CD"]);
    let (out, _) = apply_op(&Op::Case(CaseArg::Lower), out, &no_configs());
    assert_eq!(texts(&out), vec!["ab1", "cd"]);
    let (out, _) = apply_op(&Op::Case(CaseArg::Switch), out, &no_configs());
    assert_eq!(texts(&out), vec!["AB1", "CD"]);

    let (out, peek) = apply_op(&Op::Peek(PeekArg::StdOut), out, &no_configs());
    let peek = peek.expect("peek should record");
    assert_eq!(peek.lines, vec!["AB1", "CD"]);
    assert_eq!(texts(&out), vec!["AB1", "CD"]);

    let (out, _) = apply_op(&Op::Count, out, &no_configs());
    assert_eq!(texts(&out), vec!["2"]);
}

#[test]
fn execute_folds_the_stages() {
    // P3's index union through the whole engine, after an upper-case pass
    let items: Vec<Item> = (0..=10).map(Item::Int).collect();
    let ops = vec![
        Op::Slice { ranges: vec![(Some(0), Some(5)), (Some(7), Some(10)), (Some(3), Some(9))] },
        Op::Count,
    ];
    let (out, peeks) = execute(&ops, items, &no_configs());
    assert_eq!(texts(&out), vec!["11"]);
    assert!(peeks.is_empty());
}

#[test]
fn take_drop_and_while_variants() {
    let items = text_items(&["1", "2", "x", "3"]);
    let cond = || Condition::new(Select::Num { integer: None }, false);
    let take = Op::TakeDrop { mode: TakeDropMode::Take, cond: cond() };
    let (out, _) = apply_op(&take, items.clone(), &no_configs());
    assert_eq!(texts(&out), vec!["1", "2", "3"]);
    let drop = Op::TakeDrop { mode: TakeDropMode::Drop, cond: cond() };
    let (out, _) = apply_op(&drop, items.clone(), &no_configs());
    assert_eq!(texts(&out), vec!["x"]);
    let take_while = Op::TakeDrop { mode: TakeDropMode::TakeWhile, cond: cond() };
    let (out, _) = apply_op(&take_while, items.clone(), &no_configs());
    assert_eq!(texts(&out), vec!["1", "2"]);
    let drop_while = Op::TakeDrop { mode: TakeDropMode::DropWhile, cond: cond() };
    let (out, _) = apply_op(&drop_while, items.clone(), &no_configs());
    assert_eq!(texts(&out), vec!["x", "3"]);
}
