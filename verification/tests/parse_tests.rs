//! The grammar layer: options, the input command, operator keywords, the
//! output command, and the token reader.

use rp::config::Config;
use rp::err::RpErr;
use rp::input::Input;
use rp::op::{CaseArg, Op, PeekArg, SortBy, TakeDropMode};
use rp::output::Output;
use rp::parse::{parse_config, parse_configs, parse_input, parse_output};
use rp::parse_ops::{parse_op, parse_ops};
use rp::parse::escape;
use rp::token::{escape_string, tokenize, whole_cmd_token};

fn words(s: &str) -> Vec<String> {
    tokenize(s).expect("the token string should split")
}

#[test]
fn test_parse_config() {
    assert_eq!(parse_config("-h"), Some(Config::Help));
    assert_eq!(parse_config("--help"), Some(Config::Help));
    assert_eq!(parse_config("-V"), Some(Config::Version));
    assert_eq!(parse_config("--version"), Some(Config::Version));
    assert_eq!(parse_config("-v"), Some(Config::Verbose));
    assert_eq!(parse_config("--verbose"), Some(Config::Verbose));
    assert_eq!(parse_config("-d"), Some(Config::DryRun));
    assert_eq!(parse_config("--dry-run"), Some(Config::DryRun));
    assert_eq!(parse_config("-n"), Some(Config::Nocase));
    assert_eq!(parse_config("--nocase"), Some(Config::Nocase));
    assert_eq!(parse_config("abc"), None);
}

#[test]
fn test_parse_configs() {
    let a = words("-h -V -v -d");
    let (configs, end) = parse_configs(&a, 0);
    assert_eq!(configs, vec![Config::Help, Config::Version, Config::Verbose, Config::DryRun]);
    assert_eq!(end, 4);
}

#[test]
fn test_escape_string() {
    assert_eq!(escape_string(""), "");
    assert_eq!(escape_string("''"), "''");
    assert_eq!(escape_string("abc"), "abc");
    assert_eq!(escape_string("\\n abc"), "\n abc");
    assert_eq!(escape_string("\\m abc"), "\\m abc");
}

#[test]
fn input_test_parse_std_in() {
    let a = words(":in");
    assert_eq!(parse_input(&a, 0), Ok((Input::new_std_in(), 1)));

    let a = words(":in 123");
    assert_eq!(parse_input(&a, 0), Ok((Input::new_std_in(), 1)));
    assert_eq!(a[1], "123");

    let a = words("");
    assert_eq!(parse_input(&a, 0), Ok((Input::new_std_in(), 0)));
}

#[test]
fn input_test_parse_file() {
    let a = words(":file name");
    assert_eq!(parse_input(&a, 0), Ok((Input::new_file(vec!["name".to_string()]), 2)));

    let a = words(":file name1 name2 \\] :123");
    assert_eq!(
        parse_input(&a, 0),
        Ok((
            Input::new_file(vec!["name1".to_string(), "name2".to_string(), "\\]".to_string()]),
            4
        ))
    );
    assert_eq!(a[4], ":123");

    let a = words(":file");
    assert_eq!(
        parse_input(&a, 0),
        Err(RpErr::MissingArg { cmd: ":file".to_string(), arg: "file_name".to_string() })
    );

    let a = words(":file [ ]");
    assert_eq!(
        parse_input(&a, 0),
        Ok((Input::new_file(vec!["[".to_string(), "]".to_string()]), 3))
    );

    let a = words(":file \"f .txt\"");
    assert_eq!(parse_input(&a, 0), Ok((Input::new_file(vec!["f .txt".to_string()]), 2)));
}

#[test]
fn input_test_parse_clip() {
    let a = words(":clip");
    assert_eq!(parse_input(&a, 0), Ok((Input::new_clip(), 1)));
}

#[test]
fn input_test_parse_of() {
    let a = words(":of text");
    assert_eq!(parse_input(&a, 0), Ok((Input::new_of(vec!["text".to_string()]), 2)));

    let a = words(":of text1 text2 \\] :123");
    assert_eq!(
        parse_input(&a, 0),
        Ok((
            Input::new_of(vec!["text1".to_string(), "text2".to_string(), "\\]".to_string()]),
            4
        ))
    );
    assert_eq!(a[4], ":123");

    let a = words(":of");
    assert_eq!(
        parse_input(&a, 0),
        Err(RpErr::MissingArg { cmd: ":of".to_string(), arg: "value".to_string() })
    );

    let a = words(":of [ ]");
    assert_eq!(parse_input(&a, 0), Ok((Input::new_of(vec!["[".to_string(), "]".to_string()]), 3)));
}

#[test]
fn input_test_parse_gen() {
    let a = words(":gen 0");
    assert_eq!(parse_input(&a, 0), Ok((Input::new_gen(0, i64::MAX, false, 1, None), 2)));

    let a = words(":gen 0,");
    assert_eq!(parse_input(&a, 0), Ok((Input::new_gen(0, i64::MAX, false, 1, None), 2)));

    let a = words(":gen 0,10");
    assert_eq!(parse_input(&a, 0), Ok((Input::new_gen(0, 10, false, 1, None), 2)));

    let a = words(":gen 0,10,2");
    assert_eq!(parse_input(&a, 0), Ok((Input::new_gen(0, 10, false, 2, None), 2)));

    let a = words(":gen 0,,2");
    assert_eq!(parse_input(&a, 0), Ok((Input::new_gen(0, i64::MAX, false, 2, None), 2)));

    let a = words(":gen 10,0");
    assert_eq!(parse_input(&a, 0), Ok((Input::new_gen(10, 0, false, 1, None), 2)));

    let a = words(":gen 0,10,-1");
    assert_eq!(parse_input(&a, 0), Ok((Input::new_gen(0, 10, false, -1, None), 2)));

    let a = words(":gen 0,=10,2");
    assert_eq!(parse_input(&a, 0), Ok((Input::new_gen(0, 10, true, 2, None), 2)));

    let a = words(":gen 0,=10");
    assert_eq!(parse_input(&a, 0), Ok((Input::new_gen(0, 10, true, 1, None), 2)));

    let a = words(":gen 0,10 n{v}");
    assert_eq!(
        parse_input(&a, 0),
        Ok((Input::new_gen(0, 10, false, 1, Some("n{v}".to_string())), 3))
    );

    let a = words(":gen 0,10,0");
    assert!(parse_input(&a, 0).is_err());

    let a = words(":gen");
    assert_eq!(
        parse_input(&a, 0),
        Err(RpErr::MissingArg { cmd: ":gen".to_string(), arg: "range".to_string() })
    );

    let a = words(":gen 0,10,2abc");
    match parse_input(&a, 0) {
        Err(RpErr::UnexpectedRemaining { remaining, .. }) => assert_eq!(remaining, "abc"),
        other => panic!("unexpected: {:?}", other),
    }

    let a = words(":gen abc");
    assert!(matches!(parse_input(&a, 0), Err(RpErr::ArgParseErr { .. })));
}

#[test]
fn input_test_parse_repeat() {
    let a = words(":repeat 123");
    assert_eq!(parse_input(&a, 0), Ok((Input::new_repeat("123".to_string(), None), 2)));

    let a = words(":repeat 123 10");
    assert_eq!(parse_input(&a, 0), Ok((Input::new_repeat("123".to_string(), Some(10)), 3)));

    let a = words(":repeat abc");
    assert_eq!(parse_input(&a, 0), Ok((Input::new_repeat("abc".to_string(), None), 2)));

    let a = words(":repeat");
    assert_eq!(
        parse_input(&a, 0),
        Err(RpErr::MissingArg { cmd: ":repeat".to_string(), arg: "value".to_string() })
    );
}

#[test]
fn test_non_match() {
    let a: Vec<String> = Vec::new();
    assert!(matches!(parse_op(&a, 0), Ok(None)));
}

#[test]
fn op_test_parse_case() {
    let a = words(":lower");
    assert!(matches!(parse_op(&a, 0), Ok(Some((Op::Case(CaseArg::Lower), 1)))));
    let a = words(":upper");
    assert!(matches!(parse_op(&a, 0), Ok(Some((Op::Case(CaseArg::Upper), 1)))));
    let a = words(":case");
    assert!(matches!(parse_op(&a, 0), Ok(Some((Op::Case(CaseArg::Switch), 1)))));
}

#[test]
fn op_test_parse_peek() {
    let a = words(":peek");
    assert!(matches!(parse_op(&a, 0), Ok(Some((Op::Peek(PeekArg::StdOut), 1)))));
    let a = words(":peek :abc");
    assert!(matches!(parse_op(&a, 0), Ok(Some((Op::Peek(PeekArg::StdOut), 1)))));
    let a = words(":peek out.txt");
    match parse_op(&a, 0) {
        Ok(Some((Op::Peek(PeekArg::File { file, append, crlf }), 2))) => {
            assert_eq!(file, "out.txt");
            assert!(!append);
            assert_eq!(crlf, None);
        }
        _ => panic!("unexpected"),
    }
    let a = words(":peek out.txt append crlf");
    match parse_op(&a, 0) {
        Ok(Some((Op::Peek(PeekArg::File { file, append, crlf }), 4))) => {
            assert_eq!(file, "out.txt");
            assert!(append);
            assert_eq!(crlf, Some(true));
        }
        _ => panic!("unexpected"),
    }
    let a = words(":peek \"out .txt\"");
    match parse_op(&a, 0) {
        Ok(Some((Op::Peek(PeekArg::File { file, .. }), 2))) => assert_eq!(file, "out .txt"),
        _ => panic!("unexpected"),
    }
}

#[test]
fn op_test_parse_uniq() {
    let a = words(":uniq");
    assert!(matches!(parse_op(&a, 0), Ok(Some((Op::Uniq(false), 1)))));
    let a = words(":uniq nocase");
    assert!(matches!(parse_op(&a, 0), Ok(Some((Op::Uniq(true), 2)))));
}

#[test]
fn op_test_parse_sort() {
    let a = words(":sort");
    assert!(matches!(
        parse_op(&a, 0),
        Ok(Some((Op::Sort { sort_by: SortBy::Text(false), desc: false }, 1)))
    ));
    let a = words(":sort desc");
    assert!(matches!(
        parse_op(&a, 0),
        Ok(Some((Op::Sort { sort_by: SortBy::Text(false), desc: true }, 2)))
    ));
    let a = words(":sort nocase desc");
    assert!(matches!(
        parse_op(&a, 0),
        Ok(Some((Op::Sort { sort_by: SortBy::Text(true), desc: true }, 3)))
    ));
    let a = words(":sort num 10 desc");
    match parse_op(&a, 0) {
        Ok(Some((Op::Sort { sort_by: SortBy::Num(Some(d)), desc: true }, 4))) => {
            assert_eq!(d, rp::num::Num::from_int(10));
        }
        other => panic!("unexpected: {:?}", other.is_ok()),
    }
    let a = words(":sort random");
    assert!(matches!(
        parse_op(&a, 0),
        Ok(Some((Op::Sort { sort_by: SortBy::Random, desc: false }, 2)))
    ));
    let a = words(":sort random desc");
    assert!(matches!(
        parse_op(&a, 0),
        Ok(Some((Op::Sort { sort_by: SortBy::Random, desc: false }, 2)))
    ));
}

#[test]
fn op_test_parse_take_drop() {
    let a = words(":take while num");
    assert!(matches!(
        parse_op(&a, 0),
        Ok(Some((Op::TakeDrop { mode: TakeDropMode::TakeWhile, .. }, 3)))
    ));
    let a = words(":drop while num");
    assert!(matches!(
        parse_op(&a, 0),
        Ok(Some((Op::TakeDrop { mode: TakeDropMode::DropWhile, .. }, 3)))
    ));
    let a = words(":take num");
    assert!(matches!(parse_op(&a, 0), Ok(Some((Op::TakeDrop { mode: TakeDropMode::Take, .. }, 2)))));
    let a = words(":drop num");
    assert!(matches!(parse_op(&a, 0), Ok(Some((Op::TakeDrop { mode: TakeDropMode::Drop, .. }, 2)))));
}

#[test]
fn op_test_parse_slice_limit_skip() {
    let a = words(":limit");
    assert!(parse_op(&a, 0).is_err());
    let a = words(":limit -1");
    assert!(parse_op(&a, 0).is_err());
    let a = words(":limit 0");
    match parse_op(&a, 0) {
        Ok(Some((Op::Slice { ranges }, 2))) => assert_eq!(ranges, vec![]),
        _ => panic!("unexpected"),
    }
    let a = words(":limit 5");
    match parse_op(&a, 0) {
        Ok(Some((Op::Slice { ranges }, 2))) => assert_eq!(ranges, vec![(None, Some(4))]),
        _ => panic!("unexpected"),
    }
    let a = words(":skip 5");
    match parse_op(&a, 0) {
        Ok(Some((Op::Slice { ranges }, 2))) => assert_eq!(ranges, vec![(Some(5), None)]),
        _ => panic!("unexpected"),
    }
    let a = words(":slice");
    assert!(parse_op(&a, 0).is_err());
    let a = words(":slice 0,5 7,10 3,9");
    match parse_op(&a, 0) {
        Ok(Some((Op::Slice { ranges }, 4))) => assert_eq!(
            ranges,
            vec![(Some(0), Some(5)), (Some(7), Some(10)), (Some(3), Some(9))]
        ),
        _ => panic!("unexpected"),
    }
    let a = words(":slice 0,5 7,3 7,10");
    match parse_op(&a, 0) {
        Ok(Some((Op::Slice { ranges }, 4))) => {
            assert_eq!(ranges, vec![(Some(0), Some(5)), (Some(7), Some(10))])
        }
        _ => panic!("unexpected"),
    }
}

#[test]
fn op_test_parse_replace() {
    let a = words(":replace 123 abc");
    match parse_op(&a, 0) {
        Ok(Some((Op::Replace(arg), 3))) => {
            assert_eq!(arg.count, None);
            assert!(!arg.nocase);
        }
        _ => panic!("unexpected"),
    }
    let a = words(":replace 123 abc 10 nocase");
    match parse_op(&a, 0) {
        Ok(Some((Op::Replace(arg), 5))) => {
            assert_eq!(arg.count, Some(10));
            assert!(arg.nocase);
        }
        _ => panic!("unexpected"),
    }
    let a = words(":replace 123");
    assert_eq!(
        parse_op(&a, 0).err(),
        Some(RpErr::MissingArg { cmd: ":replace".to_string(), arg: "to".to_string() })
    );
    let a = words(":replace");
    assert_eq!(
        parse_op(&a, 0).err(),
        Some(RpErr::MissingArg { cmd: ":replace".to_string(), arg: "from".to_string() })
    );
}

#[test]
fn op_test_parse_join() {
    let a = words(":join d l e 10");
    match parse_op(&a, 0) {
        Ok(Some((Op::Join { join_info, batch }, 5))) => {
            assert_eq!(join_info.delimiter, "d");
            assert_eq!(join_info.prefix, "l");
            assert_eq!(join_info.postfix, "e");
            assert_eq!(batch, Some(10));
        }
        _ => panic!("unexpected"),
    }
    let a = words(":join d '' \"\" -10");
    match parse_op(&a, 0) {
        Ok(Some((Op::Join { join_info, batch }, 4))) => {
            assert_eq!(join_info.delimiter, "d");
            assert_eq!(join_info.prefix, "");
            assert_eq!(join_info.postfix, "");
            assert_eq!(batch, None);
        }
        _ => panic!("unexpected"),
    }
    assert_eq!(a[4], "-10");
}

#[test]
fn output_test_parse_to_file() {
    let a = words(":to file out.txt");
    assert_eq!(
        parse_output(&a, 0),
        Ok((Output::new_file("out.txt".to_string(), false, None), 3))
    );
    let a = words(":to file out.txt append crlf");
    assert_eq!(
        parse_output(&a, 0),
        Ok((Output::new_file("out.txt".to_string(), true, Some(true)), 5))
    );
    let a = words(":to file \"out .txt\"");
    assert_eq!(
        parse_output(&a, 0),
        Ok((Output::new_file("out .txt".to_string(), false, None), 3))
    );
    let a = words(":to file");
    assert!(parse_output(&a, 0).is_err());
}

#[test]
fn output_test_parse_to_clip() {
    let a = words(":to clip");
    assert_eq!(parse_output(&a, 0), Ok((Output::new_clip(None), 2)));
    let a = words(":to clip lf");
    assert_eq!(parse_output(&a, 0), Ok((Output::new_clip(Some(false)), 3)));
    let a = words(":to clip crlf");
    assert_eq!(parse_output(&a, 0), Ok((Output::new_clip(Some(true)), 3)));
    let a = words(":to");
    assert_eq!(parse_output(&a, 0), Ok((Output::new_std_out(), 1)));
}

#[test]
fn ops_chain_reads_until_output() {
    let a = words(":upper :uniq nocase :count :to out");
    let (ops, j) = parse_ops(&a, 0).expect("the operators should parse");
    assert_eq!(ops.len(), 3);
    assert_eq!(j, 4);
}

#[test]
fn mod_test_arg() {
    // one shell-like word, unescaped the way the value parsers do it
    let w = words(r#"hello\ "world"\ and\ 'greet'"#);
    assert_eq!(w.len(), 1);
    assert_eq!(escape(&w[0]), "hello world and greet");
    let w = words(r#"he""llo\ "world"\ a''nd\ 'greet'"#);
    assert_eq!(escape(&w[0]), "hello world and greet");
    let w = words(r#"\\a\\b\\c"#);
    assert_eq!(escape(&w[0]), r#"\a\b\c"#);
    assert_eq!(escape("\\:abc"), ":abc");
    assert_eq!(escape("::abc"), ":abc");
    assert_eq!(escape(":::abc"), "::abc");
}

#[test]
fn tokenizer_words() {
    assert_eq!(words("a b  c"), vec!["a", "b", "c"]);
    assert_eq!(words("'a b' c"), vec!["a b", "c"]);
    assert_eq!(words("\"a b\" c"), vec!["a b", "c"]);
    assert_eq!(words("he\"\"llo"), vec!["hello"]);
    assert_eq!(words(""), Vec::<String>::new());
    assert!(tokenize("\"unclosed").is_none());
    assert!(whole_cmd_token(":abc"));
    assert!(!whole_cmd_token("abc"));
    assert!(!whole_cmd_token(":"));
}
