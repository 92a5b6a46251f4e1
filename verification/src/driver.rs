//! The driver: global options first, then the whole pipeline — input,
//! operators, output — parsed in full before anything runs. The caller
//! performs the I/O the plan calls for and hands the items to `execute`.

use vstd::prelude::*;

use crate::config::{contains_config, has_config, Config};
use crate::err::RpErr;
use crate::input::Input;
use crate::op::{ops_wf, Op};
use crate::output::Output;
use crate::parse::{
    config_of, configs_end, file_info_spec, input_parse_err, input_parse_ok, output_parse_ok,
    parse_configs, parse_input, parse_output, tag_at,
};
use crate::parse_ops::{ops_chain, ops_err_at, parse_ops};
use crate::op::lines_of;
use crate::token::{tokenize, tokenize_spec};

verus! {

/// A fully parsed pipeline, ready to run.
pub struct Pipeline {
    pub configs: Vec<Config>,
    pub input: Input,
    pub ops: Vec<Op>,
    pub output: Output,
}

/// What a run decides: print help, print the version, or execute a plan.
pub enum RunAction {
    Help(Option<String>),
    Version,
    Plan(Pipeline),
}

/// The words from `i` on parse as one whole pipeline: an input, a chain of
/// operators, an output, and nothing left over.
pub open spec fn pipeline_parse_ok(
    args: Seq<String>,
    i: int,
    inp: Input,
    ops: Seq<Op>,
    outp: Output,
) -> bool {
    exists|k1: int, k2: int|
        #![trigger input_parse_ok(args, i, inp, k1), ops_chain(args, k1, ops, k2)]
        {
            &&& input_parse_ok(args, i, inp, k1)
            &&& ops_chain(args, k1, ops, k2)
            &&& output_parse_ok(args, k2, outp, args.len() as int)
        }
}

/// The texts of the words `args[a..b]`.
pub open spec fn words_view(args: Seq<String>, a: int, b: int) -> Seq<Seq<char>> {
    Seq::new((b - a) as nat, |k: int| args[a + k]@)
}

/// The inputs on which a whole-pipeline parse may fail, and with which
/// error: the input command's argument fails; some reached operator's
/// argument fails; `:to file` misses its file; or the grammar succeeds
/// short of the end and the leftover words come back as `UnknownArgs`.
pub open spec fn pipeline_parse_err(args: Seq<String>, i: int, e: RpErr) -> bool {
    ||| input_parse_err(args, i, e)
    ||| exists|inp: Input, k1: int|
        #[trigger] input_parse_ok(args, i, inp, k1) && {
            ||| ops_err_at(args, k1, e)
            ||| exists|ops: Seq<Op>, k2: int|
                #[trigger] ops_chain(args, k1, ops, k2) && {
                    ||| (tag_at(args, k2, ":to"@) && tag_at(args, k2 + 1, "file"@)
                        && file_info_spec(args, k2 + 2, false) is None && e matches
                        RpErr::MissingArg { .. })
                    ||| exists|outp: Output, k3: int|
                        #[trigger] output_parse_ok(args, k2, outp, k3) && k3 < args.len() && (
                        e matches RpErr::UnknownArgs { args: rest } && lines_of(rest@)
                            == words_view(args, k3, args.len() as int))
                }
        }
}

/// Parses the pipeline that starts at `i` and must use every word; it
/// fails exactly where `pipeline_parse_err` allows.
pub fn parse(args: &Vec<String>, i: usize) -> (r: Result<(Input, Vec<Op>, Output), RpErr>)
    requires
        i <= args@.len(),
    ensures
        match r {
            Ok((inp, ops, outp)) => pipeline_parse_ok(args@, i as int, inp, ops@, outp) && ops_wf(
                ops@,
            ),
            Err(e) => pipeline_parse_err(args@, i as int, e),
        },
{
    let (input, k1) = match parse_input(args, i) {
        Ok(p) => p,
        Err(e) => {
            return Err(e);
        },
    };
    let ghost inp_g = input;
    let (ops, k2) = match parse_ops(args, k1) {
        Ok(p) => p,
        Err(e) => {
            proof {
                assert(input_parse_ok(args@, i as int, inp_g, k1 as int) && ops_err_at(
                    args@,
                    k1 as int,
                    e,
                ));
            }
            return Err(e);
        },
    };
    let ghost ops_g = ops@;
    let (output, k3) = match parse_output(args, k2) {
        Ok(p) => p,
        Err(e) => {
            proof {
                assert(input_parse_ok(args@, i as int, inp_g, k1 as int) && ops_chain(
                    args@,
                    k1 as int,
                    ops_g,
                    k2 as int,
                ));
            }
            return Err(e);
        },
    };
    if k3 != args.len() {
        let mut rest: Vec<String> = Vec::new();
        let mut t = k3;
        while t < args.len()
            invariant
                k3 <= t <= args@.len(),
                lines_of(rest@) == words_view(args@, k3 as int, t as int),
            decreases args@.len() - t,
        {
            let ghost prev = rest@;
            rest.push(args[t].clone());
            t += 1;
            proof {
                assert(rest@.drop_last() =~= prev);
                assert(lines_of(rest@) =~= lines_of(prev).push(rest@.last()@));
                assert(lines_of(rest@) =~= words_view(args@, k3 as int, t as int));
            }
        }
        let e = RpErr::UnknownArgs { args: rest };
        proof {
            assert(input_parse_ok(args@, i as int, inp_g, k1 as int) && ops_chain(
                args@,
                k1 as int,
                ops_g,
                k2 as int,
            ));
            assert(output_parse_ok(args@, k2 as int, output, k3 as int));
        }
        return Err(e);
    }
    Ok((input, ops, output))
}

/// One option occurs among the leading options of the words.
pub open spec fn has_leading_config(args: Seq<String>, e: int, c: Config) -> bool {
    exists|k: int| 0 <= k < e && config_of(#[trigger] args[k]@) == Some(c)
}

/// Decides the run: help or version short-circuit; otherwise the pipeline
/// is parsed in full — from the remaining words, or from one embedded token
/// string — before any item flows.
pub fn run(args: &Vec<String>) -> (r: Result<RunAction, RpErr>)
    ensures
        ({
            let ce = configs_end(args@, 0);
            &&& has_leading_config(args@, ce, Config::Help) ==> (match r {
                Ok(RunAction::Help(t)) => if ce < args@.len() {
                    t matches Some(s) && s@ == args@[ce]@
                } else {
                    t is None
                },
                _ => false,
            })
            &&& (!has_leading_config(args@, ce, Config::Help) && has_leading_config(
                args@,
                ce,
                Config::Version,
            )) ==> (match r {
                Ok(RunAction::Version) => true,
                _ => false,
            })
            &&& (!has_leading_config(args@, ce, Config::Help) && !has_leading_config(
                args@,
                ce,
                Config::Version,
            ) && !has_leading_config(args@, ce, Config::Token)) ==> (match r {
                Ok(RunAction::Plan(p)) => {
                    &&& pipeline_parse_ok(args@, ce, p.input, p.ops@, p.output)
                    &&& ops_wf(p.ops@)
                    &&& p.configs@.len() == ce
                    &&& forall|k: int|
                        0 <= k < ce ==> Some(#[trigger] p.configs@[k]) == config_of(args@[k]@)
                },
                Ok(_) => false,
                Err(e) => pipeline_parse_err(args@, ce, e),
            })
            &&& (!has_leading_config(args@, ce, Config::Help) && !has_leading_config(
                args@,
                ce,
                Config::Version,
            ) && has_leading_config(args@, ce, Config::Token)) ==> (match r {
                Ok(RunAction::Plan(p)) => ce < args@.len() && (tokenize_spec(args@[ce]@, 0)
                    matches Some(ws) && exists|inner: Seq<String>|
                    #[trigger] lines_of(inner) == ws && pipeline_parse_ok(
                        inner,
                        0,
                        p.input,
                        p.ops@,
                        p.output,
                    )) && p.configs@.len() == ce && (forall|k: int|
                    0 <= k < ce ==> Some(#[trigger] p.configs@[k]) == config_of(args@[k]@)),
                Ok(_) => false,
                Err(e) => {
                    if ce >= args@.len() {
                        e matches RpErr::MissingArg { .. }
                    } else {
                        match tokenize_spec(args@[ce]@, 0) {
                            None => e matches RpErr::ArgParseErr { .. },
                            Some(ws) => exists|inner: Seq<String>|
                                #[trigger] lines_of(inner) == ws && pipeline_parse_err(
                                    inner,
                                    0,
                                    e,
                                ),
                        }
                    }
                },
            })
            &&& match r {
                Ok(RunAction::Plan(p)) => ops_wf(p.ops@),
                _ => true,
            }
        }),
{
    let (configs, ce) = parse_configs(args, 0);
    proof {
        assert forall|c: Config|
            has_config(configs@, c) == has_leading_config(
                args@,
                ce as int,
                c,
            ) by {
            if has_config(configs@, c) {
                let k = choose|k: int| 0 <= k < configs@.len() && configs@[k] == c;
                assert(config_of(args@[k]@) == Some(c));
            }
            if has_leading_config(args@, ce as int, c) {
                let k = choose|k: int| 0 <= k < ce && config_of(#[trigger] args@[k]@) == Some(c);
                assert(Some(configs@[k]) == config_of(args@[k]@));
            }
        }
    }
    if contains_config(&configs, Config::Help) {
        let topic: Option<String> = if ce < args.len() {
            Some(args[ce].clone())
        } else {
            None
        };
        return Ok(RunAction::Help(topic));
    }
    if contains_config(&configs, Config::Version) {
        return Ok(RunAction::Version);
    }
    if contains_config(&configs, Config::Token) {
        if ce >= args.len() {
            return Err(RpErr::MissingArg { cmd: "--token".to_owned(), arg: "<token>".to_owned() });
        }
        match tokenize(args[ce].as_str()) {
            None => Err(RpErr::ArgParseErr {
                cmd: "--token".to_owned(),
                arg: "<token>".to_owned(),
                arg_value: args[ce].clone(),
                error: "a quote never closes".to_owned(),
            }),
            Some(words) => {
                match parse(&words, 0) {
                    Ok((input, ops, output)) => {
                        proof {
                            match tokenize_spec(args@[ce as int]@, 0) {
                                Some(ws) => {
                                    assert(lines_of(words@) =~= ws);
                                },
                                None => {
                                    assert(false);
                                },
                            }
                        }
                        Ok(RunAction::Plan(Pipeline { configs, input, ops, output }))
                    },
                    Err(e) => {
                        proof {
                            match tokenize_spec(args@[ce as int]@, 0) {
                                Some(ws) => {
                                    assert(lines_of(words@) =~= ws);
                                },
                                None => {
                                    assert(false);
                                },
                            }
                        }
                        Err(e)
                    },
                }
            },
        }
    } else {
        match parse(args, ce) {
            Ok((input, ops, output)) => Ok(RunAction::Plan(Pipeline { configs, input, ops, output })),
            Err(e) => Err(e),
        }
    }
}

} // verus!
