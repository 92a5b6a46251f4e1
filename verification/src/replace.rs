//! The replace operator: substitute a literal substring, left to right,
//! up to a count, optionally ignoring ASCII case.

use vstd::prelude::*;

use crate::chars::{chars_vec, lower_seq, string_of, to_lower_vec};
use crate::config::{is_nocase, Config};

verus! {

/// One replacement pass. `t` is the original text and `f` the text the
/// matcher sees (folded when case is ignored); they always stay aligned.
/// An empty pattern matches before every character and once more at the
/// end, exactly as substring search on an empty needle finds it.
pub open spec fn replace_rec(
    t: Seq<char>,
    f: Seq<char>,
    from: Seq<char>,
    to: Seq<char>,
    remaining: int,
) -> Seq<char>
    decreases t.len(),
{
    if remaining <= 0 {
        t
    } else if from.len() == 0 {
        if t.len() == 0 {
            to
        } else {
            to + seq![t[0]] + replace_rec(t.drop_first(), f.drop_first(), from, to, remaining - 1)
        }
    } else if from.len() <= t.len() && from.len() <= f.len() && f.take(from.len() as int)
        == from {
        to + replace_rec(
            t.skip(from.len() as int),
            f.skip(from.len() as int),
            from,
            to,
            remaining - 1,
        )
    } else if t.len() == 0 {
        t
    } else {
        seq![t[0]] + replace_rec(t.drop_first(), f.drop_first(), from, to, remaining)
    }
}

/// What a replace stage does to one text: matching runs over the folded
/// form under `nocase` (the stored pattern is already folded), and the
/// replacement copies from the original.
pub open spec fn replace_spec(
    t: Seq<char>,
    from: Seq<char>,
    to: Seq<char>,
    remaining: int,
    nocase: bool,
) -> Seq<char> {
    replace_rec(
        t,
        if nocase {
            lower_seq(t)
        } else {
            t
        },
        from,
        to,
        remaining,
    )
}

/// A configured replace stage. The pattern is already folded to lower case
/// when the stage itself asked for `nocase`.
pub struct ReplaceArg {
    pub from: Vec<char>,
    pub to: Vec<char>,
    pub count: Option<usize>,
    pub nocase: bool,
}

/// The replacement budget a stage carries: its count, or no limit.
pub open spec fn budget_of(count: Option<usize>) -> int {
    match count {
        Some(c) => c as int,
        None => usize::MAX as int,
    }
}

/// `v[at .. at+pat.len()] == pat`.
fn range_eq(v: &Vec<char>, at: usize, pat: &Vec<char>) -> (r: bool)
    requires
        at + pat@.len() <= v@.len(),
    ensures
        r == (v@.subrange(at as int, at + pat@.len()) == pat@),
{
    let n = pat.len();
    let vn = v.len();
    let mut i: usize = 0;
    while i < n
        invariant
            i <= n,
            n == pat@.len(),
            vn == v@.len(),
            at + n <= vn,
            forall|j: int| 0 <= j < i ==> v@[at + j] == pat@[j],
        decreases n - i,
    {
        if v[at + i] != pat[i] {
            proof {
                assert(v@.subrange(at as int, at + pat@.len())[i as int] == v@[at + i]);
            }
            return false;
        }
        i += 1;
    }
    proof {
        assert(v@.subrange(at as int, at + pat@.len()) =~= pat@);
    }
    true
}

impl ReplaceArg {
    /// Builds a replace stage; a `nocase` pattern is folded once, here.
    pub fn new(from: String, to: String, count: Option<usize>, nocase: bool) -> (r: ReplaceArg)
        ensures
            r.from@ == if nocase {
                lower_seq(from@)
            } else {
                from@
            },
            r.to@ == to@,
            r.count == count,
            r.nocase == nocase,
    {
        let fv = chars_vec(from.as_str());
        let stored = if nocase {
            to_lower_vec(&fv)
        } else {
            fv
        };
        ReplaceArg { from: stored, to: chars_vec(to.as_str()), count, nocase }
    }

    /// Applies the stage to one item's text.
    pub fn replace(&self, text: &str, configs: &Vec<Config>) -> (r: String)
        ensures
            r@ == replace_spec(
                text@,
                self.from@,
                self.to@,
                budget_of(self.count),
                self.nocase || crate::config::has_config(configs@, Config::Nocase),
            ),
    {
        let nocase = is_nocase(self.nocase, configs);
        let t = chars_vec(text);
        let f = if nocase {
            to_lower_vec(&t)
        } else {
            chars_vec(text)
        };
        let rem: usize = match self.count {
            Some(c) => c,
            None => usize::MAX,
        };
        let n = t.len();
        let fl = self.from.len();
        let mut out: Vec<char> = Vec::new();
        let mut i: usize = 0;
        let mut used: usize = 0;
        let ghost target = replace_rec(t@, f@, self.from@, self.to@, rem as int);
        proof {
            assert(t@.skip(0) =~= t@);
            assert(f@.skip(0) =~= f@);
        }
        loop
            invariant_except_break
                i <= n,
                used <= rem,
                n == t@.len(),
                t@.len() == f@.len(),
                fl == self.from@.len(),
                target == replace_rec(t@, f@, self.from@, self.to@, rem as int),
                target == out@ + replace_rec(
                    t@.skip(i as int),
                    f@.skip(i as int),
                    self.from@,
                    self.to@,
                    rem - used,
                ),
            ensures
                out@ == target,
            decreases n - i + 1,
        {
            let ghost ts = t@.skip(i as int);
            let ghost fs = f@.skip(i as int);
            if used >= rem {
                push_range(&mut out, &t, i, n);
                proof {
                    assert(t@.subrange(i as int, n as int) =~= ts);
                }
                break ;
            }
            if fl == 0 {
                push_range(&mut out, &self.to, 0, self.to.len());
                proof {
                    assert(self.to@.subrange(0, self.to@.len() as int) =~= self.to@);
                }
                if i == n {
                    break ;
                }
                out.push(t[i]);
                proof {
                    assert(ts[0] == t@[i as int]);
                    assert(ts.drop_first() =~= t@.skip(i + 1));
                    assert(fs.drop_first() =~= f@.skip(i + 1));
                }
                i += 1;
                used += 1;
            } else if fl <= n - i && range_eq(&f, i, &self.from) {
                push_range(&mut out, &self.to, 0, self.to.len());
                proof {
                    assert(self.to@.subrange(0, self.to@.len() as int) =~= self.to@);
                    assert(fs.take(fl as int) =~= f@.subrange(i as int, i + fl));
                    assert(ts.skip(fl as int) =~= t@.skip(i + fl));
                    assert(fs.skip(fl as int) =~= f@.skip(i + fl));
                }
                i += fl;
                used += 1;
            } else {
                proof {
                    if fs.len() >= fl && fs.take(fl as int) == self.from@ {
                        assert(fs.take(fl as int) =~= f@.subrange(i as int, i + fl));
                    }
                }
                if i == n {
                    break ;
                }
                out.push(t[i]);
                proof {
                    assert(ts[0] == t@[i as int]);
                    assert(ts.drop_first() =~= t@.skip(i + 1));
                    assert(fs.drop_first() =~= f@.skip(i + 1));
                }
                i += 1;
            }
        }
        string_of(&out)
    }
}

/// One free-standing replacement pass, without a configured stage.
pub fn replace_with_count_and_nocase(
    text: &str,
    from: &str,
    to: &str,
    count: Option<usize>,
    nocase: bool,
) -> (r: String)
    ensures
        r@ == replace_spec(
            text@,
            if nocase {
                lower_seq(from@)
            } else {
                from@
            },
            to@,
            budget_of(count),
            nocase,
        ),
{
    let arg = ReplaceArg::new(from.to_owned(), to.to_owned(), count, nocase);
    let configs: Vec<crate::config::Config> = Vec::new();
    arg.replace(text, &configs)
}

/// Appends `src[i..j]` to `out`.
pub fn push_range(out: &mut Vec<char>, src: &Vec<char>, i: usize, j: usize)
    requires
        i <= j <= src@.len(),
    ensures
        final(out)@ == old(out)@ + src@.subrange(i as int, j as int),
{
    let mut k: usize = i;
    while k < j
        invariant
            i <= k <= j <= src@.len(),
            out@ == old(out)@ + src@.subrange(i as int, k as int),
        decreases j - k,
    {
        out.push(src[k]);
        k += 1;
        proof {
            assert(old(out)@ + src@.subrange(i as int, k as int) =~= (old(out)@ + src@.subrange(
                i as int,
                k - 1,
            )).push(src@[k - 1]));
        }
    }
}

} // verus!
