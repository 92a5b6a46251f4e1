//! The grammar of conditions and of operator commands, and the loop that
//! reads operators while their keywords last.

use vstd::prelude::*;

use crate::chars::{chars_vec, lower_seq, str_eq_nocase, subvec};
use crate::condition::{anchored_pattern, condition_wf, Condition, Select, TextSelectMode};
use crate::err::RpErr;
use crate::joinop::JoinInfo;
use crate::num::{
    num_wf, parse_num_spec, parse_num_vec, parse_usize_spec, parse_usize_vec, Num,
};
use crate::op::{CaseArg, Op, PeekArg, SortBy, TakeDropMode};
use crate::parse::{
    escape_arg_spec, file_info_spec, parse_arg, parse_general_file_info, parse_opt_arg,
    parse_positive_usize, parse_tag_nocase, tag_at,
};
use crate::regex_ext::regex_compiles;
use crate::sliceop::SliceRange;
use crate::token::is_cmd_token;
use crate::trim::{TrimArg, TrimMode};

verus! {

/// The index of the first comma, or the length.
pub open spec fn first_comma(w: Seq<char>, i: int) -> int
    decreases w.len() - i,
{
    if i < 0 || i >= w.len() {
        w.len() as int
    } else if w[i] == ',' {
        i
    } else {
        first_comma(w, i + 1)
    }
}

fn find_comma(v: &Vec<char>) -> (r: usize)
    ensures
        r as int == first_comma(v@, 0),
        r <= v@.len(),
        r < v@.len() ==> v@[r as int] == ',',
{
    let n = v.len();
    let mut i: usize = 0;
    while i < n && v[i] != ','
        invariant
            i <= n,
            n == v@.len(),
            first_comma(v@, 0) == first_comma(v@, i as int),
        decreases n - i,
    {
        i += 1;
    }
    i
}

/// A range word `[min],[max]`: both sides optional counts; `None` when
/// there is no comma or a side does not parse.
pub open spec fn len_range_of(w: Seq<char>) -> Option<(Option<usize>, Option<usize>)> {
    let k = first_comma(w, 0);
    if k >= w.len() {
        None
    } else {
        let lo = w.take(k);
        let hi = w.skip(k + 1);
        let mn = if lo.len() == 0 {
            Some(None)
        } else {
            match parse_usize_spec(lo) {
                Some(u) => Some(Some(u)),
                None => None,
            }
        };
        let mx = if hi.len() == 0 {
            Some(None)
        } else {
            match parse_usize_spec(hi) {
                Some(u) => Some(Some(u)),
                None => None,
            }
        };
        match (mn, mx) {
            (Some(a), Some(b)) => Some((a, b)),
            _ => None,
        }
    }
}

/// A range word `[min],[max]` with numeric sides.
pub open spec fn num_range_of(w: Seq<char>) -> Option<(Option<Num>, Option<Num>)> {
    let k = first_comma(w, 0);
    if k >= w.len() {
        None
    } else {
        let lo = w.take(k);
        let hi = w.skip(k + 1);
        let mn = if lo.len() == 0 {
            Some(None)
        } else {
            match parse_num_spec(lo) {
                Some(u) => Some(Some(u)),
                None => None,
            }
        };
        let mx = if hi.len() == 0 {
            Some(None)
        } else {
            match parse_num_spec(hi) {
                Some(u) => Some(Some(u)),
                None => None,
            }
        };
        match (mn, mx) {
            (Some(a), Some(b)) => Some((a, b)),
            _ => None,
        }
    }
}

fn parse_len_range(v: &Vec<char>) -> (r: Option<(Option<usize>, Option<usize>)>)
    ensures
        r == len_range_of(v@),
{
    let n = v.len();
    let k = find_comma(v);
    if k >= n {
        return None;
    }
    let lo = subvec(v, 0, k);
    let hi = subvec(v, k + 1, n);
    proof {
        assert(lo@ =~= v@.take(k as int));
        assert(hi@ =~= v@.skip(k + 1));
    }
    let mn: Option<usize> = if lo.len() == 0 {
        None
    } else {
        match parse_usize_vec(&lo) {
            Some(u) => Some(u),
            None => {
                return None;
            },
        }
    };
    let mx: Option<usize> = if hi.len() == 0 {
        None
    } else {
        match parse_usize_vec(&hi) {
            Some(u) => Some(u),
            None => {
                return None;
            },
        }
    };
    Some((mn, mx))
}

fn parse_num_range(v: &Vec<char>) -> (r: Option<(Option<Num>, Option<Num>)>)
    ensures
        r == num_range_of(v@),
        r matches Some((mn, mx)) ==> (mn matches Some(x) ==> num_wf(x)) && (mx matches Some(x)
            ==> num_wf(x)),
{
    let n = v.len();
    let k = find_comma(v);
    if k >= n {
        return None;
    }
    let lo = subvec(v, 0, k);
    let hi = subvec(v, k + 1, n);
    proof {
        assert(lo@ =~= v@.take(k as int));
        assert(hi@ =~= v@.skip(k + 1));
    }
    let mn: Option<Num> = if lo.len() == 0 {
        None
    } else {
        match parse_num_vec(&lo) {
            Some(u) => Some(u),
            None => {
                return None;
            },
        }
    };
    let mx: Option<Num> = if hi.len() == 0 {
        None
    } else {
        match parse_num_vec(&hi) {
            Some(u) => Some(u),
            None => {
                return None;
            },
        }
    };
    Some((mn, mx))
}

/// The selector a condition's words describe, position by position.
pub open spec fn cond_parse_ok(args: Seq<String>, i: int, c: Condition, j: int) -> bool {
    let not = tag_at(args, i, "not"@);
    let i1 = if not {
        i + 1
    } else {
        i
    };
    &&& (c matches Condition::Not(_)) == not
    &&& 0 <= i1 < args.len()
    &&& {
        let sel = match c {
            Condition::Yes(s) => s,
            Condition::Not(s) => s,
        };
        if tag_at(args, i1, "len"@) {
            &&& i1 + 1 < args.len()
            &&& j == i1 + 2
            &&& match len_range_of(args[i1 + 1]@) {
                Some((mn, mx)) => sel == (Select::TextLenRange { min: mn, max: mx }),
                None => match parse_usize_spec(args[i1 + 1]@) {
                    Some(u) => sel == (Select::TextLenSpec { len: u }),
                    None => false,
                },
            }
        } else if tag_at(args, i1, "num"@) {
            if i1 + 1 >= args.len() {
                sel == (Select::Num { integer: None }) && j == i1 + 1
            } else {
                match num_range_of(args[i1 + 1]@) {
                    Some((mn, mx)) => sel == (Select::NumRange { min: mn, max: mx }) && j == i1
                        + 2,
                    None => match parse_num_spec(args[i1 + 1]@) {
                        Some(u) => sel == (Select::NumSpec { value: u }) && j == i1 + 2,
                        None => {
                            if tag_at(args, i1 + 1, "integer"@) {
                                sel == (Select::Num { integer: Some(true) }) && j == i1 + 2
                            } else if tag_at(args, i1 + 1, "float"@) {
                                sel == (Select::Num { integer: Some(false) }) && j == i1 + 2
                            } else {
                                sel == (Select::Num { integer: None }) && j == i1 + 1
                            }
                        },
                    },
                }
            }
        } else if tag_at(args, i1, "reg"@) {
            &&& i1 + 1 < args.len()
            &&& j == i1 + 2
            &&& sel matches Select::RegMatch { regex } && regex.pattern_view() == anchored_pattern(
                args[i1 + 1]@,
            )
        } else if tag_at(args, i1, "upper"@) {
            sel == (Select::Text { mode: TextSelectMode::Upper }) && j == i1 + 1
        } else if tag_at(args, i1, "lower"@) {
            sel == (Select::Text { mode: TextSelectMode::Lower }) && j == i1 + 1
        } else if tag_at(args, i1, "ascii"@) {
            sel == (Select::Text { mode: TextSelectMode::Ascii }) && j == i1 + 1
        } else if tag_at(args, i1, "nonascii"@) {
            sel == (Select::Text { mode: TextSelectMode::NonAscii }) && j == i1 + 1
        } else if tag_at(args, i1, "empty"@) {
            sel == (Select::Text { mode: TextSelectMode::Empty }) && j == i1 + 1
        } else if tag_at(args, i1, "blank"@) {
            sel == (Select::Text { mode: TextSelectMode::Blank }) && j == i1 + 1
        } else {
            false
        }
    }
}

/// The inputs on which a condition parse may fail, and with which error:
/// no selector keyword, a missing or malformed length argument, or a
/// pattern the regex crate refuses. Everywhere else success is owed.
pub open spec fn cond_parse_err(args: Seq<String>, i: int, cmd: Seq<char>, e: RpErr) -> bool {
    let not = tag_at(args, i, "not"@);
    let i1 = if not {
        i + 1
    } else {
        i
    };
    if i1 >= args.len() {
        e matches RpErr::MissingArg { cmd: c, .. } && c@ == cmd
    } else if tag_at(args, i1, "len"@) {
        if i1 + 1 >= args.len() {
            e matches RpErr::MissingArg { cmd: c, .. } && c@ == cmd
        } else {
            &&& len_range_of(args[i1 + 1]@) is None
            &&& parse_usize_spec(args[i1 + 1]@) is None
            &&& e matches RpErr::ArgParseErr { cmd: c, .. } && c@ == cmd
        }
    } else if tag_at(args, i1, "num"@) {
        false
    } else if tag_at(args, i1, "reg"@) {
        if i1 + 1 >= args.len() {
            e matches RpErr::MissingArg { cmd: c, .. } && c@ == cmd
        } else {
            &&& !regex_compiles(anchored_pattern(args[i1 + 1]@))
            &&& e matches RpErr::ParseRegexErr { .. }
        }
    } else if tag_at(args, i1, "upper"@) || tag_at(args, i1, "lower"@) || tag_at(
        args,
        i1,
        "ascii"@,
    ) || tag_at(args, i1, "nonascii"@) || tag_at(args, i1, "empty"@) || tag_at(
        args,
        i1,
        "blank"@,
    ) {
        false
    } else {
        e matches RpErr::MissingArg { cmd: c, .. } && c@ == cmd
    }
}

/// Reads one condition. A numeric range in bounds keeps its exact values;
/// it fails exactly where `cond_parse_err` allows.
pub fn parse_cond(args: &Vec<String>, i: usize, cmd: &str) -> (r: Result<(Condition, usize), RpErr>)
    requires
        i <= args@.len(),
    ensures
        match r {
            Ok((c, j)) => cond_parse_ok(args@, i as int, c, j as int) && i <= j <= args@.len()
                && condition_wf(c),
            Err(e) => cond_parse_err(args@, i as int, cmd@, e),
        },
{
    let (not, i1) = parse_tag_nocase(args, i, "not");
    if i1 >= args.len() {
        return Err(RpErr::MissingArg { cmd: cmd.to_owned(), arg: "condition".to_owned() });
    }
    let w = args[i1].as_str();
    if str_eq_nocase(w, "len") {
        if i1 + 1 >= args.len() {
            return Err(RpErr::MissingArg {
                cmd: cmd.to_owned(),
                arg: "len range or spec".to_owned(),
            });
        }
        let word = chars_vec(args[i1 + 1].as_str());
        match parse_len_range(&word) {
            Some((mn, mx)) => Ok((Condition::new(Select::new_text_len_range(mn, mx), not), i1 + 2)),
            None => match parse_usize_vec(&word) {
                Some(u) => Ok((Condition::new(Select::TextLenSpec { len: u }, not), i1 + 2)),
                None => Err(RpErr::ArgParseErr {
                    cmd: cmd.to_owned(),
                    arg: "len range or spec".to_owned(),
                    arg_value: args[i1 + 1].clone(),
                    error: "can not parse as range or spec arg".to_owned(),
                }),
            },
        }
    } else if str_eq_nocase(w, "num") {
        if i1 + 1 >= args.len() {
            return Ok((Condition::new(Select::Num { integer: None }, not), i1 + 1));
        }
        let word = chars_vec(args[i1 + 1].as_str());
        match parse_num_range(&word) {
            Some((mn, mx)) => Ok((Condition::new(Select::new_num_range(mn, mx), not), i1 + 2)),
            None => match parse_num_vec(&word) {
                Some(u) => Ok((Condition::new(Select::NumSpec { value: u }, not), i1 + 2)),
                None => {
                    let (is_int, j1) = parse_tag_nocase(args, i1 + 1, "integer");
                    if is_int {
                        Ok((Condition::new(Select::Num { integer: Some(true) }, not), j1))
                    } else {
                        let (is_float, j2) = parse_tag_nocase(args, i1 + 1, "float");
                        if is_float {
                            Ok((Condition::new(Select::Num { integer: Some(false) }, not), j2))
                        } else {
                            Ok((Condition::new(Select::Num { integer: None }, not), i1 + 1))
                        }
                    }
                },
            },
        }
    } else if str_eq_nocase(w, "reg") {
        if i1 + 1 >= args.len() {
            return Err(RpErr::MissingArg { cmd: cmd.to_owned(), arg: "reg regex".to_owned() });
        }
        match Select::new_reg_match(args[i1 + 1].as_str()) {
            Ok(sel) => Ok((Condition::new(sel, not), i1 + 2)),
            Err(e) => Err(e),
        }
    } else if str_eq_nocase(w, "upper") {
        Ok((Condition::new(Select::Text { mode: TextSelectMode::Upper }, not), i1 + 1))
    } else if str_eq_nocase(w, "lower") {
        Ok((Condition::new(Select::Text { mode: TextSelectMode::Lower }, not), i1 + 1))
    } else if str_eq_nocase(w, "ascii") {
        Ok((Condition::new(Select::Text { mode: TextSelectMode::Ascii }, not), i1 + 1))
    } else if str_eq_nocase(w, "nonascii") {
        Ok((Condition::new(Select::Text { mode: TextSelectMode::NonAscii }, not), i1 + 1))
    } else if str_eq_nocase(w, "empty") {
        Ok((Condition::new(Select::Text { mode: TextSelectMode::Empty }, not), i1 + 1))
    } else if str_eq_nocase(w, "blank") {
        Ok((Condition::new(Select::Text { mode: TextSelectMode::Blank }, not), i1 + 1))
    } else {
        Err(RpErr::MissingArg { cmd: cmd.to_owned(), arg: "condition".to_owned() })
    }
}

// ------------------------------------------------------------------
// Operator commands.
// ------------------------------------------------------------------
/// The trim keywords, each with its position and its pattern kind.
pub open spec fn trim_kw_of(args: Seq<String>, i: int) -> Option<(TrimMode, bool)> {
    if tag_at(args, i, ":trim"@) {
        Some((TrimMode::All, false))
    } else if tag_at(args, i, ":ltrim"@) {
        Some((TrimMode::Left, false))
    } else if tag_at(args, i, ":rtrim"@) {
        Some((TrimMode::Right, false))
    } else if tag_at(args, i, ":trimc"@) {
        Some((TrimMode::All, true))
    } else if tag_at(args, i, ":ltrimc"@) {
        Some((TrimMode::Left, true))
    } else if tag_at(args, i, ":rtrimc"@) {
        Some((TrimMode::Right, true))
    } else {
        None
    }
}

/// Where the run of range words after `:slice` ends.
pub open spec fn slice_end(args: Seq<String>, b: int) -> int
    decreases args.len() - b,
{
    if b < 0 || b >= args.len() || len_range_of(args[b]@) is None {
        b
    } else {
        slice_end(args, b + 1)
    }
}

pub proof fn lemma_slice_end_bounds(args: Seq<String>, b: int)
    requires
        0 <= b <= args.len(),
    ensures
        b <= slice_end(args, b) <= args.len(),
    decreases args.len() - b,
{
    if b < args.len() && len_range_of(args[b]@) is Some {
        lemma_slice_end_bounds(args, b + 1);
    }
}

/// The ranges those words carry, with inverted ranges discarded.
pub open spec fn slice_ranges(args: Seq<String>, b: int, e: int) -> Seq<SliceRange>
    decreases e - b,
{
    if b >= e {
        Seq::empty()
    } else {
        let tail = slice_ranges(args, b + 1, e);
        match len_range_of(args[b]@) {
            Some((mn, mx)) => {
                if mn matches Some(s) && mx matches Some(t) && s > t {
                    tail
                } else {
                    seq![(mn, mx)] + tail
                }
            },
            None => tail,
        }
    }
}

/// No operator keyword stands at `i`.
pub open spec fn op_none_at(args: Seq<String>, i: int) -> bool {
    !(0 <= i < args.len()) || {
        &&& !tag_at(args, i, ":peek"@)
        &&& !tag_at(args, i, ":lower"@)
        &&& !tag_at(args, i, ":upper"@)
        &&& !tag_at(args, i, ":case"@)
        &&& !tag_at(args, i, ":replace"@)
        &&& trim_kw_of(args, i) is None
        &&& !tag_at(args, i, ":limit"@)
        &&& !tag_at(args, i, ":skip"@)
        &&& !tag_at(args, i, ":slice"@)
        &&& !tag_at(args, i, ":uniq"@)
        &&& !tag_at(args, i, ":join"@)
        &&& !tag_at(args, i, ":drop"@)
        &&& !tag_at(args, i, ":take"@)
        &&& !tag_at(args, i, ":count"@)
        &&& !tag_at(args, i, ":sort"@)
    }
}

/// What a successful operator parse means, keyword by keyword.
pub open spec fn op_parse_ok(args: Seq<String>, i: int, op: Op, j: int) -> bool {
    &&& 0 <= i < args.len()
    &&& if tag_at(args, i, ":peek"@) {
        match file_info_spec(args, i + 1, true) {
            Some(((f, a, c), sj)) => op matches Op::Peek(PeekArg::File { file, append, crlf })
                && file@ == f && append == a && crlf == c && j == sj,
            None => op == Op::Peek(PeekArg::StdOut) && j == i + 1,
        }
    } else if tag_at(args, i, ":lower"@) {
        op == Op::Case(CaseArg::Lower) && j == i + 1
    } else if tag_at(args, i, ":upper"@) {
        op == Op::Case(CaseArg::Upper) && j == i + 1
    } else if tag_at(args, i, ":case"@) {
        op == Op::Case(CaseArg::Switch) && j == i + 1
    } else if tag_at(args, i, ":replace"@) {
        &&& i + 2 < args.len()
        &&& {
            let from = escape_arg_spec(args[i + 1]@);
            let to = escape_arg_spec(args[i + 2]@);
            let has_count = i + 3 < args.len() && (parse_usize_spec(args[i + 3]@) matches Some(u)
                && u > 0);
            let i4: int = if has_count {
                i + 4
            } else {
                i + 3
            };
            let nc = tag_at(args, i4, "nocase"@);
            let j5: int = if nc {
                i4 + 1
            } else {
                i4
            };
            &&& j == j5
            &&& op matches Op::Replace(a) && a.from@ == (if nc {
                lower_seq(from)
            } else {
                from
            }) && a.to@ == to && a.nocase == nc && (if has_count {
                a.count == parse_usize_spec(args[i + 3]@)
            } else {
                a.count is None
            })
        }
    } else if tag_at(args, i, ":limit"@) {
        &&& i + 1 < args.len()
        &&& parse_usize_spec(args[i + 1]@) matches Some(c) && (op matches Op::Slice { ranges }
            && ranges@ == (if c == 0 {
            Seq::<SliceRange>::empty()
        } else {
            seq![(None::<usize>, Some((c - 1) as usize))]
        })) && j == i + 2
    } else if tag_at(args, i, ":skip"@) {
        &&& i + 1 < args.len()
        &&& parse_usize_spec(args[i + 1]@) matches Some(c) && (op matches Op::Slice { ranges }
            && ranges@ == seq![(Some(c), None::<usize>)]) && j == i + 2
    } else if tag_at(args, i, ":slice"@) {
        &&& j == slice_end(args, i + 1)
        &&& j > i + 1
        &&& op matches Op::Slice { ranges } && ranges@ == slice_ranges(args, i + 1, j)
        &&& slice_ranges(args, i + 1, j).len() > 0
    } else if tag_at(args, i, ":uniq"@) {
        let nc = tag_at(args, i + 1, "nocase"@);
        op == Op::Uniq(nc) && j == (if nc {
            i + 2
        } else {
            i + 1
        })
    } else if tag_at(args, i, ":join"@) {
        join_parse_ok(args, i, op, j)
    } else if tag_at(args, i, ":drop"@) {
        let has_while = tag_at(args, i + 1, "while"@);
        let b: int = if has_while {
            i + 2
        } else {
            i + 1
        };
        op matches Op::TakeDrop { mode, cond } && mode == (if has_while {
            TakeDropMode::DropWhile
        } else {
            TakeDropMode::Drop
        }) && cond_parse_ok(args, b, cond, j)
    } else if tag_at(args, i, ":take"@) {
        let has_while = tag_at(args, i + 1, "while"@);
        let b: int = if has_while {
            i + 2
        } else {
            i + 1
        };
        op matches Op::TakeDrop { mode, cond } && mode == (if has_while {
            TakeDropMode::TakeWhile
        } else {
            TakeDropMode::Take
        }) && cond_parse_ok(args, b, cond, j)
    } else if tag_at(args, i, ":count"@) {
        op == Op::Count && j == i + 1
    } else if tag_at(args, i, ":sort"@) {
        sort_parse_ok(args, i, op, j)
    } else if trim_kw_of(args, i) is Some {
        match trim_kw_of(args, i) {
            Some(kw) => {
                if 0 <= i + 1 < args.len() && !is_cmd_token(args[i + 1]@) {
                    let pat = escape_arg_spec(args[i + 1]@);
                    let nc = tag_at(args, i + 2, "nocase"@);
                    let j3: int = if nc {
                        i + 3
                    } else {
                        i + 2
                    };
                    let folded = if nc {
                        lower_seq(pat)
                    } else {
                        pat
                    };
                    &&& j == j3
                    &&& op matches Op::Trim(a) && a.trim_mode == kw.0 && a.char_mode == kw.1
                        && a.nocase == nc && (a.pattern matches Some(p) && p@ == (if kw.1 {
                        crate::trim::dedup_seq(folded)
                    } else {
                        folded
                    }))
                } else {
                    op matches Op::Trim(a) && a.trim_mode == kw.0 && a.char_mode == kw.1
                        && a.nocase == false && a.pattern is None && j == i + 1
                }
            },
            None => false,
        }
    } else {
        false
    }
}

/// The `:join` argument ladder: delimiter, prefix, postfix, batch, each
/// only after the one before it.
pub open spec fn join_parse_ok(args: Seq<String>, i: int, op: Op, j: int) -> bool {
    op matches Op::Join { join_info, batch } && {
        if 0 <= i + 1 < args.len() && !is_cmd_token(args[i + 1]@) {
            let d = escape_arg_spec(args[i + 1]@);
            if 0 <= i + 2 < args.len() && !is_cmd_token(args[i + 2]@) {
                let pre = escape_arg_spec(args[i + 2]@);
                if 0 <= i + 3 < args.len() && !is_cmd_token(args[i + 3]@) {
                    let post = escape_arg_spec(args[i + 3]@);
                    let has_batch = i + 4 < args.len() && (parse_usize_spec(args[i + 4]@)
                        matches Some(u) && u > 0);
                    &&& join_info.delimiter@ == d && join_info.prefix@ == pre
                        && join_info.postfix@ == post
                    &&& if has_batch {
                        batch == parse_usize_spec(args[i + 4]@) && j == i + 5
                    } else {
                        batch is None && j == i + 4
                    }
                } else {
                    join_info.delimiter@ == d && join_info.prefix@ == pre
                        && join_info.postfix@ =~= Seq::<char>::empty() && batch is None && j == i
                        + 3
                }
            } else {
                join_info.delimiter@ == d && join_info.prefix@ =~= Seq::<char>::empty()
                    && join_info.postfix@ =~= Seq::<char>::empty() && batch is None && j == i + 2
            }
        } else {
            join_info.delimiter@ =~= Seq::<char>::empty() && join_info.prefix@ =~= Seq::<
                char,
            >::empty() && join_info.postfix@ =~= Seq::<char>::empty() && batch is None && j == i
                + 1
        }
    }
}

/// The `:sort` argument ladder: a numeric key with an optional default, a
/// folded or plain text key, or the random order; `desc` last, except for
/// the random order.
pub open spec fn sort_parse_ok(args: Seq<String>, i: int, op: Op, j: int) -> bool {
    op matches Op::Sort { sort_by, desc } && {
        if tag_at(args, i + 1, "num"@) {
            let has_default = i + 2 < args.len() && parse_num_spec(args[i + 2]@) is Some;
            let b: int = if has_default {
                i + 3
            } else {
                i + 2
            };
            let d = tag_at(args, b, "desc"@);
            &&& sort_by matches SortBy::Num(defv) && (if has_default {
                defv == parse_num_spec(args[i + 2]@)
            } else {
                defv is None
            })
            &&& desc == d && j == (if d {
                b + 1
            } else {
                b
            })
        } else if tag_at(args, i + 1, "nocase"@) {
            let d = tag_at(args, i + 2, "desc"@);
            sort_by == SortBy::Text(true) && desc == d && j == (if d {
                i + 3
            } else {
                i + 2
            })
        } else if tag_at(args, i + 1, "random"@) {
            sort_by == SortBy::Random && desc == false && j == i + 2
        } else {
            let d = tag_at(args, i + 1, "desc"@);
            sort_by == SortBy::Text(false) && desc == d && j == (if d {
                i + 2
            } else {
                i + 1
            })
        }
    }
}

/// The inputs on which an operator parse may fail, and with which error:
/// a keyword whose required argument is missing or malformed. Everywhere
/// else either an operator or `None` is owed.
pub open spec fn op_parse_err(args: Seq<String>, i: int, e: RpErr) -> bool {
    &&& 0 <= i < args.len()
    &&& if tag_at(args, i, ":peek"@) || tag_at(args, i, ":lower"@) || tag_at(args, i, ":upper"@)
        || tag_at(args, i, ":case"@) {
        false
    } else if tag_at(args, i, ":replace"@) {
        (i + 1 >= args.len() || i + 2 >= args.len()) && e matches RpErr::MissingArg { .. }
    } else if tag_at(args, i, ":limit"@) {
        if i + 1 >= args.len() {
            e matches RpErr::MissingArg { .. }
        } else {
            parse_usize_spec(args[i + 1]@) is None && e matches RpErr::ArgParseErr { .. }
        }
    } else if tag_at(args, i, ":skip"@) {
        if i + 1 >= args.len() {
            e matches RpErr::MissingArg { .. }
        } else {
            parse_usize_spec(args[i + 1]@) is None && e matches RpErr::ArgParseErr { .. }
        }
    } else if tag_at(args, i, ":slice"@) {
        slice_ranges(args, i + 1, slice_end(args, i + 1)).len() == 0 && e matches
            RpErr::MissingArg { .. }
    } else if tag_at(args, i, ":uniq"@) || tag_at(args, i, ":join"@) {
        false
    } else if tag_at(args, i, ":drop"@) {
        let has_while = tag_at(args, i + 1, "while"@);
        let b: int = if has_while {
            i + 2
        } else {
            i + 1
        };
        cond_parse_err(args, b, if has_while {
            ":drop while"@
        } else {
            ":drop"@
        }, e)
    } else if tag_at(args, i, ":take"@) {
        let has_while = tag_at(args, i + 1, "while"@);
        let b: int = if has_while {
            i + 2
        } else {
            i + 1
        };
        cond_parse_err(args, b, if has_while {
            ":take while"@
        } else {
            ":take"@
        }, e)
    } else {
        false
    }
}

/// Reads one operator command; `Ok(None)` when no keyword matches, and an
/// error exactly where `op_parse_err` allows.
pub fn parse_op(args: &Vec<String>, i: usize) -> (r: Result<Option<(Op, usize)>, RpErr>)
    requires
        i <= args@.len(),
    ensures
        match r {
            Ok(Some((op, j))) => op_parse_ok(args@, i as int, op, j as int) && i < j
                <= args@.len() && crate::op::op_wf(op),
            Ok(None) => op_none_at(args@, i as int),
            Err(e) => op_parse_err(args@, i as int, e),
        },
{
    let n = args.len();
    if i >= n {
        return Ok(None);
    }
    let w = args[i].as_str();
    if str_eq_nocase(w, ":peek") {
        match parse_general_file_info(args, i + 1, true) {
            Some(((file, append, crlf), j)) => Ok(
                Some((Op::Peek(PeekArg::File { file, append, crlf }), j)),
            ),
            None => Ok(Some((Op::Peek(PeekArg::StdOut), i + 1))),
        }
    } else if str_eq_nocase(w, ":lower") {
        Ok(Some((Op::Case(CaseArg::Lower), i + 1)))
    } else if str_eq_nocase(w, ":upper") {
        Ok(Some((Op::Case(CaseArg::Upper), i + 1)))
    } else if str_eq_nocase(w, ":case") {
        Ok(Some((Op::Case(CaseArg::Switch), i + 1)))
    } else if str_eq_nocase(w, ":replace") {
        match parse_arg(args, i + 1) {
            None => Err(RpErr::MissingArg { cmd: ":replace".to_owned(), arg: "from".to_owned() }),
            Some((from, j1)) => {
                match parse_arg(args, j1) {
                    None => Err(
                        RpErr::MissingArg { cmd: ":replace".to_owned(), arg: "to".to_owned() },
                    ),
                    Some((to, j2)) => {
                        let (count, j3) = match parse_positive_usize(args, j2) {
                            Some((c, j)) => (Some(c), j),
                            None => (None, j2),
                        };
                        let (nc, j4) = parse_tag_nocase(args, j3, "nocase");
                        Ok(
                            Some(
                                (
                                    Op::Replace(
                                        crate::replace::ReplaceArg::new(from, to, count, nc),
                                    ),
                                    j4,
                                ),
                            ),
                        )
                    },
                }
            },
        }
    } else if str_eq_nocase(w, ":limit") {
        if i + 1 >= n {
            return Err(RpErr::MissingArg { cmd: ":limit".to_owned(), arg: "count".to_owned() });
        }
        let v = chars_vec(args[i + 1].as_str());
        match parse_usize_vec(&v) {
            Some(c) => {
                let mut ranges: Vec<SliceRange> = Vec::new();
                if c > 0 {
                    ranges.push((None, Some(c - 1)));
                    proof {
                        assert(ranges@ =~= seq![(None::<usize>, Some((c - 1) as usize))]);
                    }
                } else {
                    proof {
                        assert(ranges@ =~= Seq::<SliceRange>::empty());
                    }
                }
                Ok(Some((Op::Slice { ranges }, i + 2)))
            },
            None => Err(RpErr::ArgParseErr {
                cmd: ":limit".to_owned(),
                arg: "count".to_owned(),
                arg_value: args[i + 1].clone(),
                error: "can not parse as a count".to_owned(),
            }),
        }
    } else if str_eq_nocase(w, ":skip") {
        if i + 1 >= n {
            return Err(RpErr::MissingArg { cmd: ":skip".to_owned(), arg: "count".to_owned() });
        }
        let v = chars_vec(args[i + 1].as_str());
        match parse_usize_vec(&v) {
            Some(c) => {
                let mut ranges: Vec<SliceRange> = Vec::new();
                ranges.push((Some(c), None));
                proof {
                    assert(ranges@ =~= seq![(Some(c), None::<usize>)]);
                }
                Ok(Some((Op::Slice { ranges }, i + 2)))
            },
            None => Err(RpErr::ArgParseErr {
                cmd: ":skip".to_owned(),
                arg: "count".to_owned(),
                arg_value: args[i + 1].clone(),
                error: "can not parse as a count".to_owned(),
            }),
        }
    } else if str_eq_nocase(w, ":slice") {
        let mut ranges: Vec<SliceRange> = Vec::new();
        let mut j = i + 1;
        proof {
            assert(ranges@ + slice_ranges(args@, j as int, slice_end(args@, j as int))
                =~= slice_ranges(args@, i + 1, slice_end(args@, i + 1)));
        }
        loop
            invariant_except_break
                i + 1 <= j <= n,
                n == args@.len(),
                slice_end(args@, i + 1) == slice_end(args@, j as int),
                ranges@ + slice_ranges(args@, j as int, slice_end(args@, j as int))
                    == slice_ranges(args@, i + 1, slice_end(args@, i + 1)),
            ensures
                i + 1 <= j <= n,
                j as int == slice_end(args@, i + 1),
                ranges@ == slice_ranges(args@, i + 1, j as int),
            decreases n - j,
        {
            if j == n {
                break ;
            }
            let v = chars_vec(args[j].as_str());
            match parse_len_range(&v) {
                None => {
                    break ;
                },
                Some((mn, mx)) => {
                    let inverted = match (mn, mx) {
                        (Some(s), Some(t)) => s > t,
                        _ => false,
                    };
                    let ghost prev = ranges@;
                    let ghost jprev = j as int;
                    if !inverted {
                        ranges.push((mn, mx));
                        proof {
                            assert(ranges@ =~= prev + seq![(mn, mx)]);
                        }
                    }
                    j += 1;
                    proof {
                        let e = slice_end(args@, i + 1);
                        lemma_slice_end_bounds(args@, jprev + 1);
                        assert(slice_end(args@, jprev) == slice_end(args@, jprev + 1));
                        assert(jprev < e);
                        assert(slice_ranges(args@, jprev, e) == (if inverted {
                            Seq::<SliceRange>::empty()
                        } else {
                            seq![(mn, mx)]
                        }) + slice_ranges(args@, jprev + 1, e));
                        assert(prev + ((if inverted {
                            Seq::<SliceRange>::empty()
                        } else {
                            seq![(mn, mx)]
                        }) + slice_ranges(args@, j as int, e)) =~= ranges@ + slice_ranges(
                            args@,
                            j as int,
                            e,
                        ));
                    }
                },
            }
        }
        if ranges.len() == 0 {
            Err(RpErr::MissingArg { cmd: ":slice".to_owned(), arg: "range".to_owned() })
        } else {
            Ok(Some((Op::Slice { ranges }, j)))
        }
    } else if str_eq_nocase(w, ":uniq") {
        let (nc, j) = parse_tag_nocase(args, i + 1, "nocase");
        Ok(Some((Op::Uniq(nc), j)))
    } else if str_eq_nocase(w, ":join") {
        let (delimiter, j1) = match parse_opt_arg(args, i + 1) {
            None => {
                return Ok(
                    Some(
                        (
                            Op::Join {
                                join_info: JoinInfo {
                                    delimiter: String::new(),
                                    prefix: String::new(),
                                    postfix: String::new(),
                                },
                                batch: None,
                            },
                            i + 1,
                        ),
                    ),
                );
            },
            Some(p) => p,
        };
        let (prefix, j2) = match parse_opt_arg(args, j1) {
            None => {
                return Ok(
                    Some(
                        (
                            Op::Join {
                                join_info: JoinInfo {
                                    delimiter,
                                    prefix: String::new(),
                                    postfix: String::new(),
                                },
                                batch: None,
                            },
                            j1,
                        ),
                    ),
                );
            },
            Some(p) => p,
        };
        let (postfix, j3) = match parse_opt_arg(args, j2) {
            None => {
                return Ok(
                    Some(
                        (
                            Op::Join {
                                join_info: JoinInfo { delimiter, prefix, postfix: String::new() },
                                batch: None,
                            },
                            j2,
                        ),
                    ),
                );
            },
            Some(p) => p,
        };
        match parse_positive_usize(args, j3) {
            Some((b, j4)) => Ok(
                Some(
                    (
                        Op::Join {
                            join_info: JoinInfo { delimiter, prefix, postfix },
                            batch: Some(b),
                        },
                        j4,
                    ),
                ),
            ),
            None => Ok(
                Some(
                    (Op::Join { join_info: JoinInfo { delimiter, prefix, postfix }, batch: None }, j3),
                ),
            ),
        }
    } else if str_eq_nocase(w, ":drop") {
        let (has_while, b) = parse_tag_nocase(args, i + 1, "while");
        let cmd_name = if has_while {
            ":drop while"
        } else {
            ":drop"
        };
        match parse_cond(args, b, cmd_name) {
            Ok((cond, j)) => {
                let mode = if has_while {
                    TakeDropMode::DropWhile
                } else {
                    TakeDropMode::Drop
                };
                Ok(Some((Op::TakeDrop { mode, cond }, j)))
            },
            Err(e) => Err(e),
        }
    } else if str_eq_nocase(w, ":take") {
        let (has_while, b) = parse_tag_nocase(args, i + 1, "while");
        let cmd_name = if has_while {
            ":take while"
        } else {
            ":take"
        };
        match parse_cond(args, b, cmd_name) {
            Ok((cond, j)) => {
                let mode = if has_while {
                    TakeDropMode::TakeWhile
                } else {
                    TakeDropMode::Take
                };
                Ok(Some((Op::TakeDrop { mode, cond }, j)))
            },
            Err(e) => Err(e),
        }
    } else if str_eq_nocase(w, ":count") {
        Ok(Some((Op::Count, i + 1)))
    } else if str_eq_nocase(w, ":sort") {
        let (is_num, _) = parse_tag_nocase(args, i + 1, "num");
        if is_num {
            let (default, b): (Option<Num>, usize) = if i + 2 < n {
                let v = chars_vec(args[i + 2].as_str());
                match parse_num_vec(&v) {
                    Some(d) => (Some(d), i + 3),
                    None => (None, i + 2),
                }
            } else {
                (None, i + 2)
            };
            let (d, j) = parse_tag_nocase(args, b, "desc");
            Ok(Some((Op::Sort { sort_by: SortBy::Num(default), desc: d }, j)))
        } else {
            let (is_nc, _) = parse_tag_nocase(args, i + 1, "nocase");
            if is_nc {
                let (d, j) = parse_tag_nocase(args, i + 2, "desc");
                Ok(Some((Op::Sort { sort_by: SortBy::Text(true), desc: d }, j)))
            } else {
                let (is_rand, j1) = parse_tag_nocase(args, i + 1, "random");
                if is_rand {
                    Ok(Some((Op::Sort { sort_by: SortBy::Random, desc: false }, j1)))
                } else {
                    let (d, j) = parse_tag_nocase(args, i + 1, "desc");
                    Ok(Some((Op::Sort { sort_by: SortBy::Text(false), desc: d }, j)))
                }
            }
        }
    } else {
        match parse_trim_kw(args, i) {
            Some((mode, char_mode)) => {
                match parse_opt_arg(args, i + 1) {
                    Some((pat, j1)) => {
                        let (nc, j2) = parse_tag_nocase(args, j1, "nocase");
                        Ok(Some((Op::Trim(TrimArg::new(mode, Some(pat), char_mode, nc)), j2)))
                    },
                    None => Ok(Some((Op::Trim(TrimArg::new(mode, None, char_mode, false)), i + 1))),
                }
            },
            None => Ok(None),
        }
    }
}

/// Reads the trim-family keyword at `i`, when one stands there.
fn parse_trim_kw(args: &Vec<String>, i: usize) -> (r: Option<(TrimMode, bool)>)
    requires
        i < args@.len(),
    ensures
        r == trim_kw_of(args@, i as int),
{
    let w = args[i].as_str();
    if str_eq_nocase(w, ":trim") {
        Some((TrimMode::All, false))
    } else if str_eq_nocase(w, ":ltrim") {
        Some((TrimMode::Left, false))
    } else if str_eq_nocase(w, ":rtrim") {
        Some((TrimMode::Right, false))
    } else if str_eq_nocase(w, ":trimc") {
        Some((TrimMode::All, true))
    } else if str_eq_nocase(w, ":ltrimc") {
        Some((TrimMode::Left, true))
    } else if str_eq_nocase(w, ":rtrimc") {
        Some((TrimMode::Right, true))
    } else {
        None
    }
}

/// Some chain of operator parses connects `i` to `j` and yields `ops`,
/// ending where no operator keyword stands.
pub open spec fn ops_chain(args: Seq<String>, i: int, ops: Seq<Op>, j: int) -> bool
    decreases ops.len(),
{
    if ops.len() == 0 {
        j == i && op_none_at(args, i)
    } else {
        exists|k: int|
            #[trigger] op_parse_ok(args, i, ops[0], k) && i < k <= args.len() && ops_chain(
                args,
                k,
                ops.skip(1),
                j,
            )
    }
}

proof fn lemma_ops_chain_snoc(args: Seq<String>, i: int, ops: Seq<Op>, k: int, op: Op, j: int)
    requires
        ops_chain(args, i, ops, k),
        op_parse_ok(args, k, op, j),
        k < j <= args.len(),
    ensures
        ops_chain(args, i, ops.push(op), j),
    decreases ops.len(),
{
    if ops.len() == 0 {
        let p = ops.push(op);
        assert(p[0] == op);
        assert(p.skip(1) =~= Seq::<Op>::empty());
        assert(op_parse_ok(args, i, p[0], j) && i < j && ops_chain(args, j, p.skip(1), j));
    } else {
        let k0 = choose|k0: int|
            #[trigger] op_parse_ok(args, i, ops[0], k0) && i < k0 <= args.len() && ops_chain(
                args,
                k0,
                ops.skip(1),
                k,
            );
        lemma_ops_chain_snoc(args, k0, ops.skip(1), k, op, j);
        let p = ops.push(op);
        assert(p[0] == ops[0]);
        assert(p.skip(1) =~= ops.skip(1).push(op));
        assert(op_parse_ok(args, i, p[0], k0) && i < k0 && ops_chain(args, k0, p.skip(1), j));
    }
}

/// A chain of operator parses from `i` reaches a position whose operator
/// fails with this error.
pub open spec fn ops_err_at(args: Seq<String>, i: int, e: RpErr) -> bool
    decreases args.len() - i,
{
    0 <= i <= args.len() && (op_parse_err(args, i, e) || (exists|op: Op, k: int|
        #[trigger] op_parse_ok(args, i, op, k) && i < k <= args.len() && ops_err_at(args, k, e)))
}

proof fn lemma_chain_inv_err(args: Seq<String>, i: int, ops: Seq<Op>, j: int, e: RpErr)
    requires
        chain_inv(args, i, ops, j),
        0 <= i <= args.len(),
        op_parse_err(args, j, e),
    ensures
        ops_err_at(args, i, e),
    decreases ops.len(),
{
    if ops.len() == 0 {
    } else {
        let k0 = choose|k0: int|
            #[trigger] op_parse_ok(args, i, ops[0], k0) && i < k0 <= args.len() && chain_inv(
                args,
                k0,
                ops.skip(1),
                j,
            );
        lemma_chain_inv_err(args, k0, ops.skip(1), j, e);
    }
}

/// Reads operator commands while their keywords last; an error comes only
/// when some reached operator's arguments fail.
pub fn parse_ops(args: &Vec<String>, i: usize) -> (r: Result<(Vec<Op>, usize), RpErr>)
    requires
        i <= args@.len(),
    ensures
        match r {
            Ok((ops, j)) => ops_chain(args@, i as int, ops@, j as int) && i <= j <= args@.len()
                && crate::op::ops_wf(ops@),
            Err(e) => ops_err_at(args@, i as int, e),
        },
{
    let n = args.len();
    let mut ops: Vec<Op> = Vec::new();
    let mut j = i;
    loop
        invariant_except_break
            i <= j <= n,
            n == args@.len(),
            forall|t: int| 0 <= t < ops@.len() ==> crate::op::op_wf(#[trigger] ops@[t]),
            chain_inv(args@, i as int, ops@, j as int),
        ensures
            i <= j <= n,
            chain_inv(args@, i as int, ops@, j as int),
            op_none_at(args@, j as int),
            forall|t: int| 0 <= t < ops@.len() ==> crate::op::op_wf(#[trigger] ops@[t]),
        decreases n - j,
    {
        match parse_op(args, j) {
            Ok(Some((op, k))) => {
                let ghost prev = ops@;
                let ghost jprev = j as int;
                ops.push(op);
                proof {
                    lemma_chain_inv_snoc(args@, i as int, prev, jprev, op, k as int);
                }
                j = k;
            },
            Ok(None) => {
                break ;
            },
            Err(e) => {
                proof {
                    lemma_chain_inv_err(args@, i as int, ops@, j as int, e);
                }
                return Err(e);
            },
        }
    }
    proof {
        lemma_chain_inv_closes(args@, i as int, ops@, j as int);
    }
    Ok((ops, j))
}

/// The loop's middle state: a chain parsed so far, not yet closed by a
/// non-keyword.
pub open spec fn chain_inv(args: Seq<String>, i: int, ops: Seq<Op>, j: int) -> bool
    decreases ops.len(),
{
    if ops.len() == 0 {
        j == i
    } else {
        exists|k: int|
            #[trigger] op_parse_ok(args, i, ops[0], k) && i < k <= args.len() && chain_inv(
                args,
                k,
                ops.skip(1),
                j,
            )
    }
}

proof fn lemma_chain_inv_snoc(args: Seq<String>, i: int, ops: Seq<Op>, k: int, op: Op, j: int)
    requires
        chain_inv(args, i, ops, k),
        op_parse_ok(args, k, op, j),
        k < j <= args.len(),
    ensures
        chain_inv(args, i, ops.push(op), j),
    decreases ops.len(),
{
    if ops.len() == 0 {
        let p = ops.push(op);
        assert(p[0] == op);
        assert(p.skip(1) =~= Seq::<Op>::empty());
        assert(op_parse_ok(args, i, p[0], j) && i < j && chain_inv(args, j, p.skip(1), j));
    } else {
        let k0 = choose|k0: int|
            #[trigger] op_parse_ok(args, i, ops[0], k0) && i < k0 <= args.len() && chain_inv(
                args,
                k0,
                ops.skip(1),
                k,
            );
        lemma_chain_inv_snoc(args, k0, ops.skip(1), k, op, j);
        let p = ops.push(op);
        assert(p[0] == ops[0]);
        assert(p.skip(1) =~= ops.skip(1).push(op));
        assert(op_parse_ok(args, i, p[0], k0) && i < k0 && chain_inv(args, k0, p.skip(1), j));
    }
}

proof fn lemma_chain_inv_closes(args: Seq<String>, i: int, ops: Seq<Op>, j: int)
    requires
        chain_inv(args, i, ops, j),
        op_none_at(args, j),
    ensures
        ops_chain(args, i, ops, j),
    decreases ops.len(),
{
    if ops.len() == 0 {
    } else {
        let k0 = choose|k0: int|
            #[trigger] op_parse_ok(args, i, ops[0], k0) && i < k0 <= args.len() && chain_inv(
                args,
                k0,
                ops.skip(1),
                j,
            );
        lemma_chain_inv_closes(args, k0, ops.skip(1), j);
    }
}

} // verus!
