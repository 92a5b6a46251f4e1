//! The condition predicate engine: a selector plus a polarity bit, evaluated
//! against one text item. Evaluation never fails; a numeric test on text
//! that does not parse is simply false, and `not` inverts whatever the
//! selector decided.

use vstd::prelude::*;

use crate::chars::{
    ascii_char, chars_vec, is_lowercase_char, is_uppercase_char, is_whitespace_char,
    unicode_lowercase, unicode_uppercase, unicode_whitespace,
};
use crate::num::{
    num_eq_spec, num_le_spec, num_wf, parse_dec_spec, parse_int_spec, parse_num_spec,
    parse_int_vec, parse_dec_vec, parse_num_vec, Num,
};
use crate::err::RpErr;
use crate::regex_ext::{compile_regex, regex_accepts, regex_compiles, regex_is_match, CompiledRegex};

verus! {

/// The selectors that look only at the characters of the item.
#[derive(Debug, Clone, Copy, PartialEq, Eq, Structural)]
pub enum TextSelectMode {
    Upper,
    Lower,
    Ascii,
    NonAscii,
    Empty,
    Blank,
}

/// A named predicate over one text item.
pub enum Select {
    /// Character count within the given bounds; an absent bound is no bound,
    /// and with both absent every item is selected.
    TextLenRange { min: Option<usize>, max: Option<usize> },
    /// Character count equal to `len`.
    TextLenSpec { len: usize },
    /// Parses as a number within the given bounds; unparsable is false.
    NumRange { min: Option<Num>, max: Option<Num> },
    /// Parses as a number equal to `value`; unparsable is false.
    NumSpec { value: Num },
    /// Parses under the integer grammar, the decimal grammar, or either.
    Num { integer: Option<bool> },
    /// A character-class test; see `TextSelectMode`.
    Text { mode: TextSelectMode },
    /// The anchored pattern matches the whole item.
    RegMatch { regex: CompiledRegex },
}

/// A selector with its polarity.
pub enum Condition {
    Yes(Select),
    Not(Select),
}

/// Bounds kept in a selector stay within the exact numeric range.
pub open spec fn select_wf(s: Select) -> bool {
    match s {
        Select::NumRange { min, max } => (min matches Some(n) ==> num_wf(n)) && (max matches Some(
            n,
        ) ==> num_wf(n)),
        Select::NumSpec { value } => num_wf(value),
        _ => true,
    }
}

pub open spec fn condition_wf(c: Condition) -> bool {
    match c {
        Condition::Yes(s) => select_wf(s),
        Condition::Not(s) => select_wf(s),
    }
}

/// The pattern a `reg` condition compiles: the given expression anchored to
/// the whole item.
pub open spec fn anchored_pattern(p: Seq<char>) -> Seq<char> {
    "\\A(?:"@ + p + ")\\z"@
}

/// What a selector says of one item, over the item's characters.
pub open spec fn select_spec(s: Select, input: Seq<char>) -> bool {
    match s {
        Select::TextLenRange { min, max } => (match min {
            Some(m) => input.len() >= m,
            None => true,
        }) && (match max {
            Some(m) => input.len() <= m,
            None => true,
        }),
        Select::TextLenSpec { len } => input.len() == len,
        Select::NumRange { min, max } => match parse_num_spec(input) {
            Some(n) => (match min {
                Some(m) => num_le_spec(m, n),
                None => true,
            }) && (match max {
                Some(m) => num_le_spec(n, m),
                None => true,
            }),
            None => false,
        },
        Select::NumSpec { value } => match parse_num_spec(input) {
            Some(n) => num_eq_spec(n, value),
            None => false,
        },
        Select::Num { integer } => match integer {
            Some(true) => parse_int_spec(input) is Some,
            Some(false) => parse_int_spec(input) is None && parse_dec_spec(input) is Some,
            None => parse_num_spec(input) is Some,
        },
        Select::Text { mode } => match mode {
            TextSelectMode::Upper => forall|i: int|
                0 <= i < input.len() ==> !unicode_lowercase(#[trigger] input[i]),
            TextSelectMode::Lower => forall|i: int|
                0 <= i < input.len() ==> !unicode_uppercase(#[trigger] input[i]),
            TextSelectMode::Ascii => forall|i: int|
                0 <= i < input.len() ==> ascii_char(#[trigger] input[i]),
            TextSelectMode::NonAscii => forall|i: int|
                0 <= i < input.len() ==> !ascii_char(#[trigger] input[i]),
            TextSelectMode::Empty => input.len() == 0,
            TextSelectMode::Blank => forall|i: int|
                0 <= i < input.len() ==> unicode_whitespace(#[trigger] input[i]),
        },
        Select::RegMatch { regex } => regex_accepts(regex.pattern_view(), input),
    }
}

/// What a condition says of one item: the selector's verdict, inverted by
/// `not`.
pub open spec fn condition_spec(c: Condition, input: Seq<char>) -> bool {
    match c {
        Condition::Yes(s) => select_spec(s, input),
        Condition::Not(s) => !select_spec(s, input),
    }
}

/// `not` inverts the selector's verdict exactly, on every input; inverting
/// twice restores it.
pub proof fn lemma_not_inverts(s: Select, input: Seq<char>)
    ensures
        condition_spec(Condition::Not(s), input) == !condition_spec(Condition::Yes(s), input),
        !(!condition_spec(Condition::Yes(s), input)) == condition_spec(Condition::Yes(s), input),
{
}

/// A length-range condition holds exactly when every present bound is
/// satisfied by the character count.
pub proof fn lemma_len_range_iff(min: Option<usize>, max: Option<usize>, input: Seq<char>)
    ensures
        select_spec(Select::TextLenRange { min, max }, input) <==> ((min matches Some(m) ==>
            input.len() >= m) && (max matches Some(m) ==> input.len() <= m)),
{
}

/// A numeric-range condition holds exactly when the item parses and every
/// present bound is satisfied by the parsed value.
pub proof fn lemma_num_range_iff(min: Option<Num>, max: Option<Num>, input: Seq<char>)
    ensures
        select_spec(Select::NumRange { min, max }, input) <==> (parse_num_spec(input) matches Some(
            n,
        ) && (min matches Some(m) ==> num_le_spec(m, n)) && (max matches Some(m) ==> num_le_spec(
            n,
            m,
        ))),
{
}

/// When two selectors are the same: field by field, with compiled patterns
/// compared by their source text.
pub open spec fn select_eq_spec(a: Select, b: Select) -> bool {
    match (a, b) {
        (
            Select::TextLenRange { min: lmin, max: lmax },
            Select::TextLenRange { min: rmin, max: rmax },
        ) => lmin == rmin && lmax == rmax,
        (Select::TextLenSpec { len: l }, Select::TextLenSpec { len: r }) => l == r,
        (
            Select::NumRange { min: lmin, max: lmax },
            Select::NumRange { min: rmin, max: rmax },
        ) => lmin == rmin && lmax == rmax,
        (Select::NumSpec { value: l }, Select::NumSpec { value: r }) => l == r,
        (Select::Num { integer: l }, Select::Num { integer: r }) => l == r,
        (Select::Text { mode: l }, Select::Text { mode: r }) => l == r,
        (Select::RegMatch { regex: l }, Select::RegMatch { regex: r }) => l.pattern_view()
            == r.pattern_view(),
        _ => false,
    }
}

fn opt_usize_eq(a: &Option<usize>, b: &Option<usize>) -> (r: bool)
    ensures
        r == (a == b),
{
    match (a, b) {
        (Some(x), Some(y)) => x == y,
        (None, None) => true,
        _ => false,
    }
}

fn opt_num_eq(a: &Option<Num>, b: &Option<Num>) -> (r: bool)
    ensures
        r == (a == b),
{
    match (a, b) {
        (Some(x), Some(y)) => x == y,
        (None, None) => true,
        _ => false,
    }
}

impl PartialEq for Select {
    /// Structural comparison; compiled patterns compare by source text.
    fn eq(&self, other: &Self) -> (r: bool) {
        match (self, other) {
            (
                Select::TextLenRange { min: lmin, max: lmax },
                Select::TextLenRange { min: rmin, max: rmax },
            ) => opt_usize_eq(lmin, rmin) && opt_usize_eq(lmax, rmax),
            (Select::TextLenSpec { len: l }, Select::TextLenSpec { len: r }) => l == r,
            (
                Select::NumRange { min: lmin, max: lmax },
                Select::NumRange { min: rmin, max: rmax },
            ) => opt_num_eq(lmin, rmin) && opt_num_eq(lmax, rmax),
            (Select::NumSpec { value: l }, Select::NumSpec { value: r }) => l == r,
            (Select::Num { integer: l }, Select::Num { integer: r }) => match (l, r) {
                (Some(x), Some(y)) => x == y,
                (None, None) => true,
                _ => false,
            },
            (Select::Text { mode: l }, Select::Text { mode: r }) => l == r,
            (Select::RegMatch { regex: l }, Select::RegMatch { regex: r }) => crate::chars::str_eq(
                l.pattern_str(),
                r.pattern_str(),
            ),
            _ => false,
        }
    }
}

impl vstd::std_specs::cmp::PartialEqSpecImpl for Select {
    open spec fn obeys_eq_spec() -> bool {
        true
    }

    open spec fn eq_spec(&self, other: &Self) -> bool {
        select_eq_spec(*self, *other)
    }
}

impl PartialEq for Condition {
    /// Two conditions agree when their polarity and their selectors do.
    fn eq(&self, other: &Self) -> (r: bool) {
        match (self, other) {
            (Condition::Yes(a), Condition::Yes(b)) => a == b,
            (Condition::Not(a), Condition::Not(b)) => a == b,
            _ => false,
        }
    }
}

impl vstd::std_specs::cmp::PartialEqSpecImpl for Condition {
    open spec fn obeys_eq_spec() -> bool {
        true
    }

    open spec fn eq_spec(&self, other: &Self) -> bool {
        match (self, other) {
            (Condition::Yes(a), Condition::Yes(b)) => select_eq_spec(*a, *b),
            (Condition::Not(a), Condition::Not(b)) => select_eq_spec(*a, *b),
            _ => false,
        }
    }
}

fn check_text_mode(mode: TextSelectMode, v: &Vec<char>) -> (r: bool)
    ensures
        r == select_spec(Select::Text { mode }, v@),
{
    let n = v.len();
    match mode {
        TextSelectMode::Empty => n == 0,
        TextSelectMode::Upper => {
            let mut i: usize = 0;
            while i < n
                invariant
                    mode == TextSelectMode::Upper,
                    i <= n,
                    n == v@.len(),
                    forall|j: int| 0 <= j < i ==> !unicode_lowercase(#[trigger] v@[j]),
                decreases n - i,
            {
                if is_lowercase_char(v[i]) {
                    proof {
                        assert(unicode_lowercase(v@[i as int]));
                    }
                    return false;
                }
                i += 1;
            }
            true
        },
        TextSelectMode::Lower => {
            let mut i: usize = 0;
            while i < n
                invariant
                    mode == TextSelectMode::Lower,
                    i <= n,
                    n == v@.len(),
                    forall|j: int| 0 <= j < i ==> !unicode_uppercase(#[trigger] v@[j]),
                decreases n - i,
            {
                if is_uppercase_char(v[i]) {
                    proof {
                        assert(unicode_uppercase(v@[i as int]));
                    }
                    return false;
                }
                i += 1;
            }
            true
        },
        TextSelectMode::Ascii => {
            let mut i: usize = 0;
            while i < n
                invariant
                    mode == TextSelectMode::Ascii,
                    i <= n,
                    n == v@.len(),
                    forall|j: int| 0 <= j < i ==> ascii_char(#[trigger] v@[j]),
                decreases n - i,
            {
                let u = v[i] as u32;
                if u > 127 {
                    proof {
                        assert(!ascii_char(v@[i as int]));
                    }
                    return false;
                }
                i += 1;
            }
            true
        },
        TextSelectMode::NonAscii => {
            let mut i: usize = 0;
            while i < n
                invariant
                    mode == TextSelectMode::NonAscii,
                    i <= n,
                    n == v@.len(),
                    forall|j: int| 0 <= j < i ==> !ascii_char(#[trigger] v@[j]),
                decreases n - i,
            {
                let u = v[i] as u32;
                if u <= 127 {
                    proof {
                        assert(ascii_char(v@[i as int]));
                    }
                    return false;
                }
                i += 1;
            }
            true
        },
        TextSelectMode::Blank => {
            let mut i: usize = 0;
            while i < n
                invariant
                    mode == TextSelectMode::Blank,
                    i <= n,
                    n == v@.len(),
                    forall|j: int| 0 <= j < i ==> unicode_whitespace(#[trigger] v@[j]),
                decreases n - i,
            {
                if !is_whitespace_char(v[i]) {
                    proof {
                        assert(!unicode_whitespace(v@[i as int]));
                    }
                    return false;
                }
                i += 1;
            }
            true
        },
    }
}

impl Select {
    /// A length-range selector.
    pub fn new_text_len_range(min: Option<usize>, max: Option<usize>) -> (r: Select)
        ensures
            r == (Select::TextLenRange { min, max }),
    {
        Select::TextLenRange { min, max }
    }

    /// A numeric-range selector.
    pub fn new_num_range(min: Option<Num>, max: Option<Num>) -> (r: Select)
        requires
            min matches Some(n) ==> num_wf(n),
            max matches Some(n) ==> num_wf(n),
        ensures
            r == (Select::NumRange { min, max }),
            select_wf(r),
    {
        Select::NumRange { min, max }
    }

    /// Compiles `regex` anchored to the whole item; the selector comes back
    /// exactly when the anchored pattern compiles, else `ParseRegexErr`.
    pub fn new_reg_match(regex: &str) -> (r: Result<Select, RpErr>)
        ensures
            (r is Ok) == regex_compiles(anchored_pattern(regex@)),
            r matches Ok(s) ==> s matches Select::RegMatch { regex: c } && c.pattern_view()
                == anchored_pattern(regex@),
            r matches Err(e) ==> e matches RpErr::ParseRegexErr { .. },
    {
        let mut wrapped = String::new();
        wrapped.append("\\A(?:");
        wrapped.append(regex);
        wrapped.append(")\\z");
        match compile_regex(wrapped.as_str()) {
            Ok(c) => Ok(Select::RegMatch { regex: c }),
            Err(err) => Err(RpErr::ParseRegexErr { reg: wrapped, err }),
        }
    }

    /// Wraps the selector with positive polarity.
    pub fn yes(self) -> (r: Condition)
        ensures
            r == Condition::Yes(self),
    {
        Condition::Yes(self)
    }

    /// Wraps the selector with negative polarity.
    pub fn negated(self) -> (r: Condition)
        ensures
            r == Condition::Not(self),
    {
        Condition::Not(self)
    }

    /// Evaluates the selector against one item.
    fn select(&self, input: &str) -> (r: bool)
        requires
            select_wf(*self),
        ensures
            r == select_spec(*self, input@),
    {
        match self {
            Select::TextLenRange { min, max } => {
                let n = input.unicode_len();
                let min_ok = match min {
                    Some(m) => n >= *m,
                    None => true,
                };
                let max_ok = match max {
                    Some(m) => n <= *m,
                    None => true,
                };
                min_ok && max_ok
            },
            Select::TextLenSpec { len } => input.unicode_len() == *len,
            Select::NumRange { min, max } => {
                let v = chars_vec(input);
                match parse_num_vec(&v) {
                    Some(n) => {
                        let min_ok = match min {
                            Some(m) => m.le(&n),
                            None => true,
                        };
                        let max_ok = match max {
                            Some(m) => n.le(m),
                            None => true,
                        };
                        min_ok && max_ok
                    },
                    None => false,
                }
            },
            Select::NumSpec { value } => {
                let v = chars_vec(input);
                match parse_num_vec(&v) {
                    Some(n) => n.eq_value(value),
                    None => false,
                }
            },
            Select::Num { integer } => {
                let v = chars_vec(input);
                match integer {
                    Some(true) => parse_int_vec(&v).is_some(),
                    Some(false) => parse_int_vec(&v).is_none() && parse_dec_vec(&v).is_some(),
                    None => parse_num_vec(&v).is_some(),
                }
            },
            Select::Text { mode } => {
                let v = chars_vec(input);
                check_text_mode(*mode, &v)
            },
            Select::RegMatch { regex } => regex_is_match(regex, input),
        }
    }
}

impl Condition {
    /// Builds a condition from a selector and the parsed `not` flag.
    pub fn new(select: Select, not_flag: bool) -> (r: Condition)
        ensures
            r == if not_flag {
                Condition::Not(select)
            } else {
                Condition::Yes(select)
            },
    {
        if not_flag {
            select.negated()
        } else {
            select.yes()
        }
    }

    /// Evaluates the condition against one item.
    pub fn test(&self, input: &str) -> (r: bool)
        requires
            condition_wf(*self),
        ensures
            r == condition_spec(*self, input@),
    {
        match self {
            Condition::Yes(select) => select.select(input),
            Condition::Not(select) => !select.select(input),
        }
    }
}

} // verus!
