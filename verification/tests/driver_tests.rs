//! The driver: options, short-circuits, whole-pipeline parsing, and the
//! stable exit codes.

use rp::config::Config;
use rp::err::RpErr;
use rp::input::Input;
use rp::op::Op;
use rp::output::Output;
use rp::token::tokenize;
use rp::{run, RunAction};

fn words(s: &str) -> Vec<String> {
    tokenize(s).expect("the token string should split")
}

#[test]
fn run_short_circuits() {
    match run(&words("-h")) {
        Ok(RunAction::Help(None)) => {}
        _ => panic!("help expected"),
    }
    match run(&words("-h cond")) {
        Ok(RunAction::Help(Some(topic))) => assert_eq!(topic, "cond"),
        _ => panic!("help with topic expected"),
    }
    match run(&words("-V")) {
        Ok(RunAction::Version) => {}
        _ => panic!("version expected"),
    }
}

#[test]
fn run_parses_a_plan() {
    match run(&words("-n :of a b :uniq nocase :to out")) {
        Ok(RunAction::Plan(p)) => {
            assert_eq!(p.configs, vec![Config::Nocase]);
            assert_eq!(p.input, Input::new_of(vec!["a".to_string(), "b".to_string()]));
            assert_eq!(p.ops.len(), 1);
            assert!(matches!(p.ops[0], Op::Uniq(true)));
            assert_eq!(p.output, Output::new_std_out());
        }
        _ => panic!("a plan was expected"),
    }
}

#[test]
fn run_token_mode() {
    match run(&words("-t ':of x :count'")) {
        Ok(RunAction::Plan(p)) => {
            assert_eq!(p.input, Input::new_of(vec!["x".to_string()]));
            assert_eq!(p.ops.len(), 1);
            assert!(matches!(p.ops[0], Op::Count));
        }
        _ => panic!("a plan was expected"),
    }
    assert!(matches!(run(&words("-t")), Err(RpErr::MissingArg { .. })));
}

#[test]
fn run_rejects_leftover_words() {
    match run(&words(":of a b oops=nonsense,")) {
        Err(RpErr::UnknownArgs { .. }) => panic!("values are consumed by :of"),
        Err(_) => panic!("unexpected error"),
        Ok(_) => {}
    }
    // a word after the output command is left over
    match run(&words(":of a :to out extra")) {
        Err(RpErr::UnknownArgs { args }) => assert_eq!(args, vec!["extra"]),
        _ => panic!("unknown arguments expected"),
    }
}

#[test]
fn parse_errors_name_their_argument() {
    assert!(matches!(
        run(&words(":file")),
        Err(RpErr::MissingArg { .. })
    ));
    assert!(matches!(
        run(&words(":gen abc")),
        Err(RpErr::ArgParseErr { .. })
    ));
    assert!(matches!(
        run(&words(":gen 0,10,2abc")),
        Err(RpErr::UnexpectedRemaining { .. })
    ));
    assert!(matches!(
        run(&words(":of a :take reg '['")),
        Err(RpErr::ParseRegexErr { .. })
    ));
    assert!(matches!(
        run(&words(":of a :replace x")),
        Err(RpErr::MissingArg { .. })
    ));
}

#[test]
fn exit_codes_are_stable_and_positive() {
    let samples = vec![
        (RpErr::ParseConfigTokenErr("x".into()), 1),
        (RpErr::ParseInputTokenErr("x".into()), 2),
        (RpErr::ParseOpTokenErr("x".into()), 3),
        (RpErr::ParseOutputTokenErr("x".into()), 4),
        (
            RpErr::ArgParseErr {
                cmd: "c".into(),
                arg: "a".into(),
                arg_value: "v".into(),
                error: "e".into(),
            },
            5,
        ),
        (
            RpErr::UnexpectedRemaining { cmd: "c".into(), arg: "a".into(), remaining: "r".into() },
            6,
        ),
        (RpErr::MissingArg { cmd: "c".into(), arg: "a".into() }, 7),
        (RpErr::UnknownArgs { args: vec![] }, 8),
        (RpErr::ReadClipboardTextErr("x".into()), 9),
        (RpErr::ReadFromFileErr { file: "f".into(), line_no: 1, err: "e".into() }, 10),
        (RpErr::WriteToClipboardErr("x".into()), 11),
        (RpErr::OpenFileErr { file: "f".into(), err: "e".into() }, 12),
        (RpErr::WriteToFileErr { file: "f".into(), item: "i".into(), err: "e".into() }, 13),
        (RpErr::FormatStringErr { fmt: "f".into(), value: "v".into(), err_pos: 0 }, 14),
        (RpErr::ParseRegexErr { reg: "r".into(), err: "e".into() }, 15),
    ];
    for (err, code) in samples {
        assert_eq!(err.exit_code(), code);
    }
}

#[test]
fn global_nocase_reaches_the_stages() {
    let plan = match run(&words("-n :of A a b :uniq")) {
        Ok(RunAction::Plan(p)) => p,
        _ => panic!("a plan was expected"),
    };
    let items = match &plan.input {
        Input::Of { values } => rp::input::of_items(values),
        _ => panic!("a literal source was expected"),
    };
    let (out, _) = rp::op::execute(&plan.ops, items, &plan.configs);
    let lines: Vec<String> = out.iter().map(|it| it.to_text()).collect();
    assert_eq!(lines, vec!["A", "b"]);
}

#[test]
fn bounded_chains_demand_a_finite_prefix() {
    // an endless repeat behind `:limit` only needs the first items
    let plan = match run(&words(":repeat x :limit 3")) {
        Ok(RunAction::Plan(p)) => p,
        _ => panic!("a plan was expected"),
    };
    let demand = rp::demand::source_demand(&plan.ops);
    assert_eq!(demand, Some(3));
    let items = rp::input::repeat_items(&"x".to_string(), demand.unwrap());
    let (out, _) = rp::op::execute(&plan.ops, items, &plan.configs);
    let lines: Vec<String> = out.iter().map(|it| it.to_text()).collect();
    assert_eq!(lines, vec!["x", "x", "x"]);

    // per-item stages before the bounded slice keep the bound
    let plan = match run(&words(":gen 0 :upper :limit 5")) {
        Ok(RunAction::Plan(p)) => p,
        _ => panic!("a plan was expected"),
    };
    assert_eq!(rp::demand::source_demand(&plan.ops), Some(5));
    let mut iter = rp::input::range_to_iter(0, i64::MAX, false, 1);
    let mut items = Vec::new();
    while items.len() < 5 {
        match iter.next() {
            Some(v) => items.push(rp::item::Item::Int(v)),
            None => break,
        }
    }
    let (out, _) = rp::op::execute(&plan.ops, items, &plan.configs);
    let lines: Vec<String> = out.iter().map(|it| it.to_text()).collect();
    assert_eq!(lines, vec!["0", "1", "2", "3", "4"]);

    // a whole-stream stage demands everything
    let plan = match run(&words(":repeat x :count")) {
        Ok(RunAction::Plan(p)) => p,
        _ => panic!("a plan was expected"),
    };
    assert_eq!(rp::demand::source_demand(&plan.ops), None);
}

#[test]
fn full_pipeline_end_to_end() {
    // parse, then execute on a literal source
    let plan = match run(&words(":of b a B A :sort nocase :uniq nocase :join , [ ]")) {
        Ok(RunAction::Plan(p)) => p,
        _ => panic!("a plan was expected"),
    };
    let items = match &plan.input {
        Input::Of { values } => rp::input::of_items(values),
        _ => panic!("a literal source was expected"),
    };
    let (out, _) = rp::op::execute(&plan.ops, items, &plan.configs);
    let lines: Vec<String> = out.iter().map(|it| it.to_text()).collect();
    assert_eq!(lines, vec!["[a,b]"]);
}
