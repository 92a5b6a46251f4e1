//! The trim operator family: strip Unicode white space, one literal
//! substring per end, or every boundary character drawn from a set, at the
//! head, the tail, or both.

use vstd::prelude::*;

use crate::chars::{
    chars_vec, is_whitespace_char, lower_char, lower_seq, string_of, subvec, to_lower_char,
    to_lower_vec, unicode_whitespace,
};
use crate::config::{is_nocase, Config};

verus! {

/// Which end of the item is trimmed.
#[derive(Debug, Clone, Copy, PartialEq, Eq, Structural)]
pub enum TrimMode {
    All,
    Left,
    Right,
}

/// The character a comparison sees: folded to ASCII lower case under
/// `nocase`, itself otherwise.
pub open spec fn fold_char(c: char, nocase: bool) -> char {
    if nocase {
        lower_char(c)
    } else {
        c
    }
}

/// Leading characters whose folded form lies in the set are removed.
pub open spec fn trim_start_chars_spec(s: Seq<char>, pat: Seq<char>, nocase: bool) -> Seq<char>
    decreases s.len(),
{
    if s.len() > 0 && pat.contains(fold_char(s[0], nocase)) {
        trim_start_chars_spec(s.drop_first(), pat, nocase)
    } else {
        s
    }
}

/// Trailing characters whose folded form lies in the set are removed.
pub open spec fn trim_end_chars_spec(s: Seq<char>, pat: Seq<char>, nocase: bool) -> Seq<char>
    decreases s.len(),
{
    if s.len() > 0 && pat.contains(fold_char(s.last(), nocase)) {
        trim_end_chars_spec(s.drop_last(), pat, nocase)
    } else {
        s
    }
}

/// The folded text starts with the pattern.
pub open spec fn prefix_matches(s: Seq<char>, pat: Seq<char>, nocase: bool) -> bool {
    pat.len() <= s.len() && forall|i: int|
        0 <= i < pat.len() ==> fold_char(#[trigger] s[i], nocase) == pat[i]
}

/// The folded text ends with the pattern.
pub open spec fn suffix_matches(s: Seq<char>, pat: Seq<char>, nocase: bool) -> bool {
    pat.len() <= s.len() && forall|i: int|
        0 <= i < pat.len() ==> fold_char(#[trigger] s[s.len() - pat.len() + i], nocase) == pat[i]
}

/// One occurrence of the pattern is stripped from the head, when it is there.
pub open spec fn strip_prefix_spec(s: Seq<char>, pat: Seq<char>, nocase: bool) -> Seq<char> {
    if pat.len() > 0 && prefix_matches(s, pat, nocase) {
        s.skip(pat.len() as int)
    } else {
        s
    }
}

/// One occurrence of the pattern is stripped from the tail, when it is there.
pub open spec fn strip_suffix_spec(s: Seq<char>, pat: Seq<char>, nocase: bool) -> Seq<char> {
    if pat.len() > 0 && suffix_matches(s, pat, nocase) {
        s.take(s.len() - pat.len())
    } else {
        s
    }
}

/// Leading Unicode white space removed.
pub open spec fn trim_blank_start_spec(s: Seq<char>) -> Seq<char>
    decreases s.len(),
{
    if s.len() > 0 && unicode_whitespace(s[0]) {
        trim_blank_start_spec(s.drop_first())
    } else {
        s
    }
}

/// Trailing Unicode white space removed.
pub open spec fn trim_blank_end_spec(s: Seq<char>) -> Seq<char>
    decreases s.len(),
{
    if s.len() > 0 && unicode_whitespace(s.last()) {
        trim_blank_end_spec(s.drop_last())
    } else {
        s
    }
}

/// The first occurrence of each character kept, later repeats dropped.
pub open spec fn dedup_seq(s: Seq<char>) -> Seq<char>
    decreases s.len(),
{
    if s.len() == 0 {
        Seq::empty()
    } else {
        let pre = dedup_seq(s.drop_last());
        if s.drop_last().contains(s.last()) {
            pre
        } else {
            pre.push(s.last())
        }
    }
}

fn dedup_chars(v: &Vec<char>) -> (r: Vec<char>)
    ensures
        r@ == dedup_seq(v@),
{
    let n = v.len();
    let mut out: Vec<char> = Vec::new();
    let mut i: usize = 0;
    proof {
        assert(v@.take(0) =~= Seq::<char>::empty());
        assert(out@ =~= dedup_seq(v@.take(0)));
    }
    while i < n
        invariant
            i <= n,
            n == v@.len(),
            out@ == dedup_seq(v@.take(i as int)),
        decreases n - i,
    {
        let mut seen = false;
        let mut j: usize = 0;
        while j < i
            invariant
                j <= i < n,
                n == v@.len(),
                seen == exists|k: int| 0 <= k < j && #[trigger] v@[k] == v@[i as int],
            decreases i - j,
        {
            if v[j] == v[i] {
                seen = true;
            }
            j += 1;
        }
        proof {
            let pre = v@.take(i as int);
            let cur = v@.take(i + 1);
            assert(cur.drop_last() =~= pre);
            assert(cur.last() == v@[i as int]);
            if seen {
                let w = choose|k: int| 0 <= k < i && #[trigger] v@[k] == v@[i as int];
                assert(pre[w] == v@[i as int]);
                assert(pre.contains(v@[i as int]));
            } else {
                if pre.contains(v@[i as int]) {
                    let w = choose|k: int| 0 <= k < pre.len() && pre[k] == v@[i as int];
                    assert(v@[w] == v@[i as int]);
                }
            }
        }
        if !seen {
            out.push(v[i]);
        }
        i += 1;
    }
    proof {
        assert(v@.take(n as int) =~= v@);
    }
    out
}

/// A configured trim stage. The stored pattern is already folded to lower
/// case when the stage itself asked for `nocase`, and a character-set
/// pattern is deduplicated, keeping each character's first occurrence; a
/// stage that did not ask for `nocase` keeps its pattern as given, even
/// when the global case flag later folds the subject.
pub struct TrimArg {
    pub trim_mode: TrimMode,
    pub pattern: Option<Vec<char>>,
    pub char_mode: bool,
    pub nocase: bool,
}

/// What one trim application yields, over the stored pattern and the
/// effective case flag.
pub open spec fn trim_spec(
    mode: TrimMode,
    pattern: Option<Seq<char>>,
    char_mode: bool,
    nocase: bool,
    s: Seq<char>,
) -> Seq<char> {
    match pattern {
        Some(p) => {
            if p.len() == 0 {
                trim_blank_spec(mode, s)
            } else if char_mode {
                match mode {
                    TrimMode::All => trim_end_chars_spec(
                        trim_start_chars_spec(s, p, nocase),
                        p,
                        nocase,
                    ),
                    TrimMode::Left => trim_start_chars_spec(s, p, nocase),
                    TrimMode::Right => trim_end_chars_spec(s, p, nocase),
                }
            } else {
                match mode {
                    TrimMode::All => strip_suffix_spec(strip_prefix_spec(s, p, nocase), p, nocase),
                    TrimMode::Left => strip_prefix_spec(s, p, nocase),
                    TrimMode::Right => strip_suffix_spec(s, p, nocase),
                }
            }
        },
        None => trim_blank_spec(mode, s),
    }
}

/// Blank trimming honours the position like every other target: the head,
/// the tail, or both ends lose their Unicode white space.
pub open spec fn trim_blank_spec(mode: TrimMode, s: Seq<char>) -> Seq<char> {
    match mode {
        TrimMode::All => trim_blank_end_spec(trim_blank_start_spec(s)),
        TrimMode::Left => trim_blank_start_spec(s),
        TrimMode::Right => trim_blank_end_spec(s),
    }
}

/// The stored pattern of a stage, as a sequence.
pub open spec fn trim_arg_pattern(a: TrimArg) -> Option<Seq<char>> {
    match a.pattern {
        Some(p) => Some(p@),
        None => None,
    }
}

/// Membership of the folded character in the pattern set.
fn char_in_set(pat: &Vec<char>, c: char, nocase: bool) -> (r: bool)
    ensures
        r == pat@.contains(fold_char(c, nocase)),
{
    let f = if nocase {
        to_lower_char(c)
    } else {
        c
    };
    let n = pat.len();
    let mut i: usize = 0;
    while i < n
        invariant
            i <= n,
            n == pat@.len(),
            f == fold_char(c, nocase),
            forall|j: int| 0 <= j < i ==> pat@[j] != f,
        decreases n - i,
    {
        if pat[i] == f {
            return true;
        }
        i += 1;
    }
    false
}

fn trim_start_chars(v: &Vec<char>, pat: &Vec<char>, nocase: bool) -> (r: Vec<char>)
    ensures
        r@ == trim_start_chars_spec(v@, pat@, nocase),
{
    let n = v.len();
    let mut i: usize = 0;
    proof {
        assert(v@.skip(0) =~= v@);
    }
    while i < n && char_in_set(pat, v[i], nocase)
        invariant
            i <= n,
            n == v@.len(),
            trim_start_chars_spec(v@, pat@, nocase) == trim_start_chars_spec(
                v@.skip(i as int),
                pat@,
                nocase,
            ),
        decreases n - i,
    {
        proof {
            let cur = v@.skip(i as int);
            assert(cur[0] == v@[i as int]);
            assert(cur.drop_first() =~= v@.skip(i + 1));
        }
        i += 1;
    }
    proof {
        let cur = v@.skip(i as int);
        if cur.len() > 0 {
            assert(cur[0] == v@[i as int]);
        }
        assert(trim_start_chars_spec(cur, pat@, nocase) == cur);
        assert(v@.subrange(i as int, n as int) =~= cur);
    }
    subvec(v, i, n)
}

fn trim_end_chars(v: &Vec<char>, pat: &Vec<char>, nocase: bool) -> (r: Vec<char>)
    ensures
        r@ == trim_end_chars_spec(v@, pat@, nocase),
{
    let mut j: usize = v.len();
    proof {
        assert(v@.take(j as int) =~= v@);
    }
    while j > 0 && char_in_set(pat, v[j - 1], nocase)
        invariant
            j <= v@.len(),
            trim_end_chars_spec(v@, pat@, nocase) == trim_end_chars_spec(
                v@.take(j as int),
                pat@,
                nocase,
            ),
        decreases j,
    {
        proof {
            let cur = v@.take(j as int);
            assert(cur.last() == v@[j - 1]);
            assert(cur.drop_last() =~= v@.take(j - 1));
        }
        j -= 1;
    }
    proof {
        let cur = v@.take(j as int);
        if cur.len() > 0 {
            assert(cur.last() == v@[j - 1]);
        }
        assert(trim_end_chars_spec(cur, pat@, nocase) == cur);
        assert(v@.subrange(0, j as int) =~= cur);
    }
    subvec(v, 0, j)
}

fn matches_at(v: &Vec<char>, at: usize, pat: &Vec<char>, nocase: bool) -> (r: bool)
    requires
        at + pat@.len() <= v@.len(),
    ensures
        r == forall|i: int|
            0 <= i < pat@.len() ==> fold_char(#[trigger] v@[at + i], nocase) == pat@[i],
{
    let n = pat.len();
    let vn = v.len();
    let mut i: usize = 0;
    while i < n
        invariant
            i <= n,
            n == pat@.len(),
            vn == v@.len(),
            at + n <= vn,
            forall|j: int| 0 <= j < i ==> fold_char(#[trigger] v@[at + j], nocase) == pat@[j],
        decreases n - i,
    {
        let f = if nocase {
            to_lower_char(v[at + i])
        } else {
            v[at + i]
        };
        if f != pat[i] {
            proof {
                assert(fold_char(v@[at + i], nocase) != pat@[i as int]);
            }
            return false;
        }
        i += 1;
    }
    true
}

fn strip_prefix_vec(v: Vec<char>, pat: &Vec<char>, nocase: bool) -> (r: Vec<char>)
    ensures
        r@ == strip_prefix_spec(v@, pat@, nocase),
{
    let pl = pat.len();
    if pl == 0 || pl > v.len() {
        return v;
    }
    if matches_at(&v, 0, pat, nocase) {
        proof {
            assert forall|i: int| 0 <= i < pat@.len() implies fold_char(
                #[trigger] v@[i],
                nocase,
            ) == pat@[i] by {
                assert(fold_char(v@[0 + i], nocase) == pat@[i]);
            }
        }
        subvec(&v, pl, v.len())
    } else {
        proof {
            if prefix_matches(v@, pat@, nocase) {
                assert(exists|i: int|
                    0 <= i < pat@.len() && fold_char(#[trigger] v@[0 + i], nocase) != pat@[i]);
            }
        }
        v
    }
}

fn strip_suffix_vec(v: Vec<char>, pat: &Vec<char>, nocase: bool) -> (r: Vec<char>)
    ensures
        r@ == strip_suffix_spec(v@, pat@, nocase),
{
    let pl = pat.len();
    if pl == 0 || pl > v.len() {
        return v;
    }
    let at = v.len() - pl;
    if matches_at(&v, at, pat, nocase) {
        proof {
            assert forall|i: int| 0 <= i < pat@.len() implies fold_char(
                #[trigger] v@[v@.len() - pat@.len() + i],
                nocase,
            ) == pat@[i] by {
                assert(fold_char(v@[at + i], nocase) == pat@[i]);
            }
        }
        subvec(&v, 0, at)
    } else {
        proof {
            if suffix_matches(v@, pat@, nocase) {
                assert forall|i: int| 0 <= i < pat@.len() implies fold_char(
                    #[trigger] v@[at + i],
                    nocase,
                ) == pat@[i] by {
                    assert(fold_char(v@[v@.len() - pat@.len() + i], nocase) == pat@[i]);
                }
            }
        }
        v
    }
}

fn trim_blank_vec(v: &Vec<char>, mode: TrimMode) -> (r: Vec<char>)
    ensures
        r@ == trim_blank_spec(mode, v@),
{
    let n = v.len();
    let mut i: usize = 0;
    match mode {
        TrimMode::Right => {
        },
        _ => {
            proof {
                assert(v@.skip(0) =~= v@);
            }
            while i < n && is_whitespace_char(v[i])
                invariant
                    i <= n,
                    n == v@.len(),
                    trim_blank_start_spec(v@) == trim_blank_start_spec(v@.skip(i as int)),
                decreases n - i,
            {
                proof {
                    let cur = v@.skip(i as int);
                    assert(cur[0] == v@[i as int]);
                    assert(cur.drop_first() =~= v@.skip(i + 1));
                }
                i += 1;
            }
            proof {
                let cur = v@.skip(i as int);
                if cur.len() > 0 {
                    assert(cur[0] == v@[i as int]);
                }
                assert(trim_blank_start_spec(v@) == cur);
            }
        },
    }
    let mut j: usize = n;
    match mode {
        TrimMode::Left => {
        },
        _ => {
            proof {
                assert(v@.subrange(i as int, n as int) =~= v@.skip(i as int));
            }
            while j > i && is_whitespace_char(v[j - 1])
                invariant
                    i <= j <= n,
                    n == v@.len(),
                    trim_blank_end_spec(v@.subrange(i as int, n as int)) == trim_blank_end_spec(
                        v@.subrange(i as int, j as int),
                    ),
                decreases j,
            {
                proof {
                    let cur = v@.subrange(i as int, j as int);
                    assert(cur.last() == v@[j - 1]);
                    assert(cur.drop_last() =~= v@.subrange(i as int, j - 1));
                }
                j -= 1;
            }
            proof {
                let cur = v@.subrange(i as int, j as int);
                if cur.len() > 0 {
                    assert(cur.last() == v@[j - 1]);
                }
                assert(trim_blank_end_spec(v@.subrange(i as int, n as int)) == cur);
            }
        },
    }
    let out = subvec(v, i, j);
    proof {
        match mode {
            TrimMode::All => {
                assert(trim_blank_start_spec(v@) == v@.skip(i as int));
                assert(v@.skip(i as int) =~= v@.subrange(i as int, n as int));
            },
            TrimMode::Left => {
                assert(out@ =~= v@.skip(i as int));
            },
            TrimMode::Right => {
                assert(v@.subrange(0, n as int) =~= v@);
            },
        }
    }
    out
}

impl TrimArg {
    /// Builds a trim stage: a `nocase` pattern is folded to lower case
    /// once, here, and a character-set pattern is deduplicated keeping
    /// first occurrences.
    pub fn new(trim_mode: TrimMode, pattern: Option<String>, char_mode: bool, nocase: bool) -> (r:
        TrimArg)
        ensures
            r.trim_mode == trim_mode,
            r.char_mode == char_mode,
            r.nocase == nocase,
            match (pattern, r.pattern) {
                (Some(p), Some(q)) => q@ == ({
                    let folded = if nocase {
                        lower_seq(p@)
                    } else {
                        p@
                    };
                    if char_mode {
                        dedup_seq(folded)
                    } else {
                        folded
                    }
                }),
                (None, None) => true,
                _ => false,
            },
    {
        let stored: Option<Vec<char>> = match pattern {
            Some(p) => {
                let v = chars_vec(p.as_str());
                let folded = if nocase {
                    to_lower_vec(&v)
                } else {
                    v
                };
                if char_mode {
                    Some(dedup_chars(&folded))
                } else {
                    Some(folded)
                }
            },
            None => None,
        };
        TrimArg { trim_mode, pattern: stored, char_mode, nocase }
    }

    /// Applies the stage to one item's text.
    pub fn trim(&self, to_trim: String, configs: &Vec<Config>) -> (r: String)
        ensures
            r@ == trim_spec(
                self.trim_mode,
                trim_arg_pattern(*self),
                self.char_mode,
                self.nocase || crate::config::has_config(configs@, Config::Nocase),
                to_trim@,
            ),
    {
        let nocase = is_nocase(self.nocase, configs);
        let v = chars_vec(to_trim.as_str());
        let out: Vec<char> = match &self.pattern {
            Some(pat) => {
                if pat.len() == 0 {
                    trim_blank_vec(&v, self.trim_mode)
                } else if self.char_mode {
                    match self.trim_mode {
                        TrimMode::All => trim_end_chars(&trim_start_chars(&v, pat, nocase), pat, nocase),
                        TrimMode::Left => trim_start_chars(&v, pat, nocase),
                        TrimMode::Right => trim_end_chars(&v, pat, nocase),
                    }
                } else {
                    match self.trim_mode {
                        TrimMode::All => strip_suffix_vec(
                            strip_prefix_vec(v, pat, nocase),
                            pat,
                            nocase,
                        ),
                        TrimMode::Left => strip_prefix_vec(v, pat, nocase),
                        TrimMode::Right => strip_suffix_vec(v, pat, nocase),
                    }
                }
            },
            None => trim_blank_vec(&v, self.trim_mode),
        };
        string_of(&out)
    }
}

} // verus!
