//! The grammar layer over words: global options first, then one input
//! command, operator commands while they last, and one output command.
//! Every family dispatches on its keyword; once a keyword matched, a
//! failure behind it is a hard error.

use vstd::prelude::*;

use crate::chars::{chars_vec, lower_seq, str_eq, str_eq_nocase, string_of, subvec};
use crate::config::Config;
use crate::err::RpErr;
use crate::input::Input;
use crate::num::{int_prefix_spec, parse_int_prefix, parse_usize_spec, parse_usize_vec};
use crate::token::{escape_spec, escape_string, is_cmd_token, whole_cmd_token};

verus! {

/// The option a single word names.
pub open spec fn config_of(w: Seq<char>) -> Option<Config> {
    if w == "-h"@ || w == "--help"@ {
        Some(Config::Help)
    } else if w == "-V"@ || w == "--version"@ {
        Some(Config::Version)
    } else if w == "-v"@ || w == "--verbose"@ {
        Some(Config::Verbose)
    } else if w == "-d"@ || w == "--dry-run"@ {
        Some(Config::DryRun)
    } else if w == "-n"@ || w == "--nocase"@ {
        Some(Config::Nocase)
    } else if w == "-t"@ || w == "--token"@ {
        Some(Config::Token)
    } else {
        None
    }
}

/// Reads one option word.
pub fn parse_config(w: &str) -> (r: Option<Config>)
    ensures
        r == config_of(w@),
{
    if str_eq(w, "-h") || str_eq(w, "--help") {
        Some(Config::Help)
    } else if str_eq(w, "-V") || str_eq(w, "--version") {
        Some(Config::Version)
    } else if str_eq(w, "-v") || str_eq(w, "--verbose") {
        Some(Config::Verbose)
    } else if str_eq(w, "-d") || str_eq(w, "--dry-run") {
        Some(Config::DryRun)
    } else if str_eq(w, "-n") || str_eq(w, "--nocase") {
        Some(Config::Nocase)
    } else if str_eq(w, "-t") || str_eq(w, "--token") {
        Some(Config::Token)
    } else {
        None
    }
}

/// Where the leading run of option words ends.
pub open spec fn configs_end(args: Seq<String>, i: int) -> int
    decreases args.len() - i,
{
    if i < 0 || i >= args.len() || config_of(args[i]@) is None {
        i
    } else {
        configs_end(args, i + 1)
    }
}

/// Collects the leading run of option words, starting at `start`; the
/// returned index is the first word that names no option.
pub fn parse_configs(args: &Vec<String>, start: usize) -> (r: (Vec<Config>, usize))
    requires
        start <= args@.len(),
    ensures
        start <= r.1 <= args@.len(),
        r.1 == configs_end(args@, start as int),
        r.0@.len() == r.1 - start,
        forall|k: int|
            0 <= k < r.0@.len() ==> Some(#[trigger] r.0@[k]) == config_of(
                args@[start + k]@,
            ),
{
    let n = args.len();
    let mut out: Vec<Config> = Vec::new();
    let mut i = start;
    loop
        invariant_except_break
            start <= i <= n,
            n == args@.len(),
            configs_end(args@, start as int) == configs_end(args@, i as int),
            out@.len() == i - start,
            forall|k: int|
                0 <= k < out@.len() ==> Some(#[trigger] out@[k]) == config_of(args@[start + k]@),
        ensures
            start <= i <= n,
            i as int == configs_end(args@, start as int),
            out@.len() == i - start,
            forall|k: int|
                0 <= k < out@.len() ==> Some(#[trigger] out@[k]) == config_of(args@[start + k]@),
        decreases n - i,
    {
        if i == n {
            break ;
        }
        match parse_config(args[i].as_str()) {
            Some(c) => {
                out.push(c);
                i += 1;
            },
            None => {
                break ;
            },
        }
    }
    (out, i)
}

/// A word unescaped for use as a value: backslash escapes resolved, then a
/// leading `\:` or a doubled `::` restored to one literal colon.
pub open spec fn escape_arg_spec(w: Seq<char>) -> Seq<char> {
    let u = escape_spec(w);
    if u.len() >= 2 && u[0] == '\\' && u[1] == ':' {
        seq![':'] + u.skip(2)
    } else if u.len() >= 2 && u[0] == ':' && u[1] == ':' {
        u.skip(1)
    } else {
        u
    }
}

/// Unescapes one value word.
pub fn escape(w: &str) -> (r: String)
    ensures
        r@ == escape_arg_spec(w@),
{
    let u = escape_string(w);
    let v = chars_vec(u.as_str());
    if v.len() >= 2 && v[0] == '\\' && v[1] == ':' {
        let mut out: Vec<char> = Vec::new();
        out.push(':');
        crate::replace::push_range(&mut out, &v, 2, v.len());
        proof {
            assert(out@ =~= seq![':'] + u@.skip(2));
        }
        string_of(&out)
    } else if v.len() >= 2 && v[0] == ':' && v[1] == ':' {
        let out = subvec(&v, 1, v.len());
        proof {
            assert(out@ =~= u@.skip(1));
        }
        string_of(&out)
    } else {
        u
    }
}

/// Where a free-form argument run ends: at the next command token, or at
/// the end of the words.
pub open spec fn arg_end(args: Seq<String>, b: int) -> int
    decreases args.len() - b,
{
    if b < 0 || b >= args.len() || is_cmd_token(args[b]@) {
        b
    } else {
        arg_end(args, b + 1)
    }
}

/// The unescaped values of the words `args[b..e]`.
pub open spec fn escaped_args(args: Seq<String>, b: int, e: int) -> Seq<Seq<char>> {
    Seq::new((e - b) as nat, |k: int| escape_arg_spec(args[b + k]@))
}

/// Zero or more value words, consumed until the next command token.
pub fn parse_arg0(args: &Vec<String>, i: usize) -> (r: (Vec<String>, usize))
    requires
        i <= args@.len(),
    ensures
        i <= r.1 <= args@.len(),
        r.1 == arg_end(args@, i as int),
        r.0@.map_values(|w: String| w@) == escaped_args(args@, i as int, r.1 as int),
{
    let n = args.len();
    let mut out: Vec<String> = Vec::new();
    let mut j = i;
    loop
        invariant_except_break
            i <= j <= n,
            n == args@.len(),
            arg_end(args@, i as int) == arg_end(args@, j as int),
            out@.map_values(|w: String| w@) =~= escaped_args(args@, i as int, j as int),
        ensures
            i <= j <= n,
            j as int == arg_end(args@, i as int),
            out@.map_values(|w: String| w@) == escaped_args(args@, i as int, j as int),
        decreases n - j,
    {
        if j == n {
            break ;
        }
        if whole_cmd_token(args[j].as_str()) {
            break ;
        }
        let ghost prev = out@;
        out.push(escape(args[j].as_str()));
        j += 1;
        proof {
            let f = |w: String| w@;
            assert(out@.drop_last() =~= prev);
            assert(out@.map_values(f) =~= prev.map_values(f).push(out@.last()@));
            assert(out@.map_values(f) =~= escaped_args(args@, i as int, j as int));
        }
    }
    (out, j)
}

/// One or more value words; an empty run is the given command's missing
/// argument.
pub fn parse_arg1(args: &Vec<String>, i: usize, cmd: &str, arg_name: &str) -> (r: Result<
    (Vec<String>, usize),
    RpErr,
>)
    requires
        i <= args@.len(),
    ensures
        match r {
            Ok((vals, j)) => arg_end(args@, i as int) == j && i < j <= args@.len()
                && vals@.map_values(|w: String| w@) == escaped_args(args@, i as int, j as int),
            Err(e) => arg_end(args@, i as int) == i && (e matches RpErr::MissingArg {
                cmd: c,
                arg: a,
            } && c@ == cmd@ && a@ == arg_name@),
        },
{
    let (vals, j) = parse_arg0(args, i);
    if j == i {
        Err(RpErr::MissingArg { cmd: cmd.to_owned(), arg: arg_name.to_owned() })
    } else {
        Ok((vals, j))
    }
}

/// One optional value word: present when the next word is not a command
/// token.
pub fn parse_opt_arg(args: &Vec<String>, i: usize) -> (r: Option<(String, usize)>)
    requires
        i <= args@.len(),
    ensures
        match r {
            Some((w, j)) => i < args@.len() && !is_cmd_token(args@[i as int]@) && w@
                == escape_arg_spec(args@[i as int]@) && j == i + 1,
            None => i >= args@.len() || is_cmd_token(args@[i as int]@),
        },
{
    if i < args.len() && !whole_cmd_token(args[i].as_str()) {
        Some((escape(args[i].as_str()), i + 1))
    } else {
        None
    }
}

/// One required value word, whatever its shape.
pub fn parse_arg(args: &Vec<String>, i: usize) -> (r: Option<(String, usize)>)
    requires
        i <= args@.len(),
    ensures
        match r {
            Some((w, j)) => i < args@.len() && w@ == escape_arg_spec(args@[i as int]@) && j == i
                + 1,
            None => i >= args@.len(),
        },
{
    if i < args.len() {
        Some((escape(args[i].as_str()), i + 1))
    } else {
        None
    }
}

/// Whether the next word equals the tag, ignoring ASCII case.
pub open spec fn tag_at(args: Seq<String>, i: int, tag: Seq<char>) -> bool {
    0 <= i < args.len() && lower_seq(args[i]@) == lower_seq(tag)
}

/// Consumes the tag word when it is next.
pub fn parse_tag_nocase(args: &Vec<String>, i: usize, tag: &str) -> (r: (bool, usize))
    requires
        i <= args@.len(),
    ensures
        r.0 == tag_at(args@, i as int, tag@),
        r.1 == if r.0 {
            i + 1
        } else {
            i as int
        },
{
    if i < args.len() && str_eq_nocase(args[i].as_str(), tag) {
        (true, i + 1)
    } else {
        (false, i)
    }
}

/// Consumes the next word when it is a positive count.
pub fn parse_positive_usize(args: &Vec<String>, i: usize) -> (r: Option<(usize, usize)>)
    requires
        i <= args@.len(),
    ensures
        match r {
            Some((u, j)) => i < args@.len() && parse_usize_spec(args@[i as int]@) == Some(u) && u
                > 0 && j == i + 1,
            None => i >= args@.len() || (match parse_usize_spec(args@[i as int]@) {
                Some(u) => u == 0,
                None => true,
            }),
        },
{
    if i < args.len() {
        let v = chars_vec(args[i].as_str());
        match parse_usize_vec(&v) {
            Some(u) => {
                if u > 0 {
                    Some((u, i + 1))
                } else {
                    None
                }
            },
            None => None,
        }
    } else {
        None
    }
}

/// The `<file>[ append][ lf|crlf]` tail shared by peek and file output.
pub open spec fn file_info_spec(args: Seq<String>, i: int, optional: bool) -> Option<
    ((Seq<char>, bool, Option<bool>), int),
> {
    let has_file = if optional {
        0 <= i < args.len() && !is_cmd_token(args[i]@)
    } else {
        0 <= i < args.len()
    };
    if !has_file {
        None
    } else {
        let f = escape_arg_spec(args[i]@);
        if tag_at(args, i + 1, "append"@) {
            if tag_at(args, i + 2, "crlf"@) {
                Some(((f, true, Some(true)), i + 3))
            } else if tag_at(args, i + 2, "lf"@) {
                Some(((f, true, Some(false)), i + 3))
            } else {
                Some(((f, true, None), i + 2))
            }
        } else if tag_at(args, i + 1, "crlf"@) {
            Some(((f, false, Some(true)), i + 2))
        } else if tag_at(args, i + 1, "lf"@) {
            Some(((f, false, Some(false)), i + 2))
        } else {
            Some(((f, false, None), i + 1))
        }
    }
}

/// Reads the `<file>[ append][ lf|crlf]` tail.
pub fn parse_general_file_info(args: &Vec<String>, i: usize, optional: bool) -> (r: Option<
    ((String, bool, Option<bool>), usize),
>)
    requires
        i <= args@.len(),
    ensures
        match (r, file_info_spec(args@, i as int, optional)) {
            (Some(((f, a, c), j)), Some(((sf, sa, sc), sj))) => f@ == sf && a == sa && c == sc && j
                == sj && j <= args@.len(),
            (None, None) => true,
            _ => false,
        },
{
    let file_opt = if optional {
        parse_opt_arg(args, i)
    } else {
        parse_arg(args, i)
    };
    match file_opt {
        None => None,
        Some((file, j0)) => {
            let (has_append, j1) = parse_tag_nocase(args, j0, "append");
            if has_append {
                let (has_crlf, j2) = parse_tag_nocase(args, j1, "crlf");
                if has_crlf {
                    Some(((file, true, Some(true)), j2))
                } else {
                    let (has_lf, j3) = parse_tag_nocase(args, j1, "lf");
                    if has_lf {
                        Some(((file, true, Some(false)), j3))
                    } else {
                        Some(((file, true, None), j1))
                    }
                }
            } else {
                let (has_crlf, j2) = parse_tag_nocase(args, j0, "crlf");
                if has_crlf {
                    Some(((file, false, Some(true)), j2))
                } else {
                    let (has_lf, j3) = parse_tag_nocase(args, j0, "lf");
                    if has_lf {
                        Some(((file, false, Some(false)), j3))
                    } else {
                        Some(((file, false, None), j0))
                    }
                }
            }
        },
    }
}

// ------------------------------------------------------------------
// The range word of `:gen`: `start[,[=][end][,step]]`.
// ------------------------------------------------------------------
/// The parsed range and the index where leftover text begins (the word's
/// length when it was consumed whole). `None` with a full consumption means
/// the word starts with no integer, or the step is zero.
pub open spec fn gen_range_spec(w: Seq<char>) -> (Option<(i64, i64, bool, i64)>, int) {
    match int_prefix_spec(w, 0) {
        None => (None, w.len() as int),
        Some((start, p1)) => {
            if p1 == w.len() {
                (Some((start, i64::MAX, false, 1)), w.len() as int)
            } else if w[p1] != ',' {
                (None, p1)
            } else {
                let has_eq = p1 + 1 < w.len() && w[p1 + 1] == '=';
                let pe = if has_eq {
                    p1 + 2
                } else {
                    p1 + 1
                };
                match int_prefix_spec(w, pe) {
                    Some((end, p3)) => gen_range_tail(w, start, end, has_eq, p3),
                    None => {
                        if has_eq {
                            (None, p1)
                        } else {
                            gen_range_tail(w, start, i64::MAX, false, pe)
                        }
                    },
                }
            }
        },
    }
}

/// The optional `,step` tail after the bounds.
pub open spec fn gen_range_tail(w: Seq<char>, start: i64, end: i64, included: bool, p: int) -> (
    Option<(i64, i64, bool, i64)>,
    int,
) {
    if p == w.len() {
        (Some((start, end, included, 1)), w.len() as int)
    } else if w[p] != ',' {
        (None, p)
    } else {
        match int_prefix_spec(w, p + 1) {
            Some((step, p5)) => {
                if step == 0 {
                    (None, w.len() as int)
                } else if p5 == w.len() {
                    (Some((start, end, included, step)), w.len() as int)
                } else {
                    (None, p5)
                }
            },
            None => (None, p),
        }
    }
}

/// Reads the range word of `:gen`.
pub fn parse_range_in_gen(w: &str) -> (r: Result<(i64, i64, bool, i64), usize>)
    ensures
        match (r, gen_range_spec(w@)) {
            (Ok(vals), (Some(svals), _)) => vals == svals,
            (Err(rest), (None, srest)) => rest == srest && rest <= w@.len(),
            _ => false,
        },
{
    let v = chars_vec(w);
    let n = v.len();
    match parse_int_prefix(&v, 0) {
        None => Err(n),
        Some((start, p1)) => {
            if p1 == n {
                Ok((start, i64::MAX, false, 1))
            } else if v[p1] != ',' {
                Err(p1)
            } else {
                let has_eq = p1 + 1 < n && v[p1 + 1] == '=';
                let pe = if has_eq {
                    p1 + 2
                } else {
                    p1 + 1
                };
                match parse_int_prefix(&v, pe) {
                    Some((end, p3)) => gen_range_tail_exec(&v, start, end, has_eq, p3),
                    None => {
                        if has_eq {
                            Err(p1)
                        } else {
                            gen_range_tail_exec(&v, start, i64::MAX, false, pe)
                        }
                    },
                }
            }
        },
    }
}

/// What a successful input parse means: which source, and how many words
/// it consumed. An unknown leading word falls back to standard input
/// without consuming anything.
pub open spec fn input_parse_ok(args: Seq<String>, i: int, inp: Input, j: int) -> bool {
    if !(0 <= i < args.len()) {
        inp == Input::StdIn && j == i
    } else if tag_at(args, i, ":in"@) {
        inp == Input::StdIn && j == i + 1
    } else if tag_at(args, i, ":file"@) {
        &&& j == arg_end(args, i + 1)
        &&& j > i + 1
        &&& inp matches Input::File { files } && files@.map_values(|w: String| w@)
            == escaped_args(args, i + 1, j)
    } else if tag_at(args, i, ":clip"@) {
        inp == Input::Clip && j == i + 1
    } else if tag_at(args, i, ":of"@) {
        &&& j == arg_end(args, i + 1)
        &&& j > i + 1
        &&& inp matches Input::Of { values } && values@.map_values(|w: String| w@)
            == escaped_args(args, i + 1, j)
    } else if tag_at(args, i, ":gen"@) {
        &&& i + 1 < args.len()
        &&& (gen_range_spec(args[i + 1]@) matches (Some((st, en, inc, sp)), _) && (inp matches
            Input::Gen { start, end, included, step, fmt } && start == st && end == en && included
            == inc && step == sp && (if i + 2 < args.len() && !is_cmd_token(args[i + 2]@) {
            fmt matches Some(f) && f@ == escape_arg_spec(args[i + 2]@) && j == i + 3
        } else {
            fmt is None && j == i + 2
        })))
    } else if tag_at(args, i, ":repeat"@) {
        &&& i + 1 < args.len()
        &&& inp matches Input::Repeat { value, count } && value@ == escape_arg_spec(args[i + 1]@)
            && (if i + 2 < args.len() && (parse_usize_spec(args[i + 2]@) matches Some(u) && u > 0) {
            count == parse_usize_spec(args[i + 2]@) && j == i + 3
        } else {
            count is None && j == i + 2
        })
    } else {
        inp == Input::StdIn && j == i
    }
}

/// What a failed input parse means: a keyword matched and its argument was
/// missing or malformed.
pub open spec fn input_parse_err(args: Seq<String>, i: int, e: RpErr) -> bool {
    &&& 0 <= i < args.len()
    &&& {
        ||| (tag_at(args, i, ":file"@) && arg_end(args, i + 1) == i + 1 && e matches
            RpErr::MissingArg { .. })
        ||| (tag_at(args, i, ":of"@) && arg_end(args, i + 1) == i + 1 && e matches
            RpErr::MissingArg { .. })
        ||| (tag_at(args, i, ":gen"@) && i + 1 >= args.len() && e matches RpErr::MissingArg {
            .. })
        ||| (tag_at(args, i, ":gen"@) && i + 1 < args.len() && (gen_range_spec(args[i + 1]@)
            matches (None, rest) && (if rest < args[i + 1]@.len() {
            e matches RpErr::UnexpectedRemaining { remaining, .. } && remaining@ == args[i
                + 1]@.skip(rest)
        } else {
            e matches RpErr::ArgParseErr { .. }
        })))
        ||| (tag_at(args, i, ":repeat"@) && i + 1 >= args.len() && e matches RpErr::MissingArg {
            .. })
    }
}

/// Reads the input command, or yields the default source.
pub fn parse_input(args: &Vec<String>, i: usize) -> (r: Result<(Input, usize), RpErr>)
    requires
        i <= args@.len(),
    ensures
        match r {
            Ok((inp, j)) => input_parse_ok(args@, i as int, inp, j as int) && i <= j <= args@.len(),
            Err(e) => input_parse_err(args@, i as int, e),
        },
{
    let n = args.len();
    if i >= n {
        return Ok((Input::new_std_in(), i));
    }
    let w = args[i].as_str();
    if str_eq_nocase(w, ":in") {
        Ok((Input::new_std_in(), i + 1))
    } else if str_eq_nocase(w, ":file") {
        match parse_arg1(args, i + 1, ":file", "file_name") {
            Ok((files, j)) => Ok((Input::new_file(files), j)),
            Err(e) => Err(e),
        }
    } else if str_eq_nocase(w, ":clip") {
        Ok((Input::new_clip(), i + 1))
    } else if str_eq_nocase(w, ":of") {
        match parse_arg1(args, i + 1, ":of", "value") {
            Ok((values, j)) => Ok((Input::new_of(values), j)),
            Err(e) => Err(e),
        }
    } else if str_eq_nocase(w, ":gen") {
        if i + 1 >= n {
            return Err(RpErr::MissingArg { cmd: ":gen".to_owned(), arg: "range".to_owned() });
        }
        let range_word = args[i + 1].as_str();
        match parse_range_in_gen(range_word) {
            Ok((start, end, included, step)) => {
                match parse_opt_arg(args, i + 2) {
                    Some((fmt, j)) => Ok((Input::new_gen(start, end, included, step, Some(fmt)), j)),
                    None => Ok((Input::new_gen(start, end, included, step, None), i + 2)),
                }
            },
            Err(rest) => {
                let v = chars_vec(range_word);
                if rest < v.len() {
                    let suffix = string_of(&subvec(&v, rest, v.len()));
                    proof {
                        assert(suffix@ =~= args@[i + 1]@.skip(rest as int));
                    }
                    Err(RpErr::UnexpectedRemaining {
                        cmd: ":gen".to_owned(),
                        arg: "range".to_owned(),
                        remaining: suffix,
                    })
                } else {
                    Err(RpErr::ArgParseErr {
                        cmd: ":gen".to_owned(),
                        arg: "range".to_owned(),
                        arg_value: range_word.to_owned(),
                        error: "can not parse as a range".to_owned(),
                    })
                }
            },
        }
    } else if str_eq_nocase(w, ":repeat") {
        match parse_arg(args, i + 1) {
            None => Err(RpErr::MissingArg { cmd: ":repeat".to_owned(), arg: "value".to_owned() }),
            Some((value, j0)) => {
                match parse_positive_usize(args, j0) {
                    Some((count, j)) => Ok((Input::new_repeat(value, Some(count)), j)),
                    None => Ok((Input::new_repeat(value, None), j0)),
                }
            },
        }
    } else {
        Ok((Input::new_std_in(), i))
    }
}

/// What an output parse means: nothing but `:to` consumes anything, and an
/// unknown destination falls back to standard output.
pub open spec fn output_parse_ok(args: Seq<String>, i: int, out: crate::output::Output, j: int) -> bool {
    if !tag_at(args, i, ":to"@) {
        out == crate::output::Output::StdOut && j == i
    } else if tag_at(args, i + 1, "file"@) {
        file_info_spec(args, i + 2, false) matches Some(((f, a, c), sj)) && (out matches
            crate::output::Output::File { file, append, crlf } && file@ == f && append == a && crlf
            == c && j == sj)
    } else if tag_at(args, i + 1, "clip"@) {
        if tag_at(args, i + 2, "crlf"@) {
            out == (crate::output::Output::Clip { crlf: Some(true) }) && j == i + 3
        } else if tag_at(args, i + 2, "lf"@) {
            out == (crate::output::Output::Clip { crlf: Some(false) }) && j == i + 3
        } else {
            out == (crate::output::Output::Clip { crlf: None }) && j == i + 2
        }
    } else if tag_at(args, i + 1, "out"@) {
        out == crate::output::Output::StdOut && j == i + 2
    } else {
        out == crate::output::Output::StdOut && j == i + 1
    }
}

/// Reads the output command, or yields the default sink.
pub fn parse_output(args: &Vec<String>, i: usize) -> (r: Result<(crate::output::Output, usize), RpErr>)
    requires
        i <= args@.len(),
    ensures
        match r {
            Ok((out, j)) => output_parse_ok(args@, i as int, out, j as int) && i <= j
                <= args@.len(),
            Err(e) => tag_at(args@, i as int, ":to"@) && tag_at(args@, i + 1, "file"@)
                && file_info_spec(args@, i + 2, false) is None && e matches RpErr::MissingArg {
                ..
            },
        },
{
    let n = args.len();
    let (has_to, i1) = parse_tag_nocase(args, i, ":to");
    if !has_to {
        return Ok((crate::output::Output::new_std_out(), i));
    }
    let (has_file, i2) = parse_tag_nocase(args, i1, "file");
    if has_file {
        match parse_general_file_info(args, i2, false) {
            Some(((file, append, crlf), j)) => Ok((crate::output::Output::new_file(file, append, crlf), j)),
            None => Err(RpErr::MissingArg { cmd: "to file".to_owned(), arg: "file".to_owned() }),
        }
    } else {
        let (has_clip, i3) = parse_tag_nocase(args, i1, "clip");
        if has_clip {
            let (has_crlf, i4) = parse_tag_nocase(args, i3, "crlf");
            if has_crlf {
                Ok((crate::output::Output::new_clip(Some(true)), i4))
            } else {
                let (has_lf, i5) = parse_tag_nocase(args, i3, "lf");
                if has_lf {
                    Ok((crate::output::Output::new_clip(Some(false)), i5))
                } else {
                    Ok((crate::output::Output::new_clip(None), i3))
                }
            }
        } else {
            let (has_out, i6) = parse_tag_nocase(args, i1, "out");
            if has_out {
                Ok((crate::output::Output::new_std_out(), i6))
            } else {
                Ok((crate::output::Output::new_std_out(), i1))
            }
        }
    }
}

fn gen_range_tail_exec(v: &Vec<char>, start: i64, end: i64, included: bool, p: usize) -> (r: Result<
    (i64, i64, bool, i64),
    usize,
>)
    requires
        p <= v@.len(),
    ensures
        match (r, gen_range_tail(v@, start, end, included, p as int)) {
            (Ok(vals), (Some(svals), _)) => vals == svals,
            (Err(rest), (None, srest)) => rest == srest && rest <= v@.len(),
            _ => false,
        },
{
    let n = v.len();
    if p == n {
        Ok((start, end, included, 1))
    } else if v[p] != ',' {
        Err(p)
    } else {
        match parse_int_prefix(v, p + 1) {
            Some((step, p5)) => {
                if step == 0 {
                    Err(n)
                } else if p5 == n {
                    Ok((start, end, included, step))
                } else {
                    Err(p5)
                }
            },
            None => Err(p),
        }
    }
}

} // verus!
