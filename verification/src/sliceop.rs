//! The slice operator: an ordered list of index ranges over the upstream
//! sequence. An item is yielded at most once, when its index falls in one
//! of the ranges still in play — so overlapping ranges merge and nothing is
//! yielded twice. The ranges are walked in the order given: one whose upper
//! end has been passed is left behind, and a range without an upper end
//! keeps every later range out of play.

use vstd::prelude::*;

use crate::item::{texts_of, Item};

verus! {

/// One index range: an optional lower and an optional upper bound, both
/// inclusive.
pub type SliceRange = (Option<usize>, Option<usize>);

/// Whether index `idx` lies in one of the ranges from `k` on, scanning in
/// order and not looking past a range with no upper end.
pub open spec fn range_hit(ranges: Seq<SliceRange>, k: int, idx: int) -> bool
    decreases ranges.len() - k,
{
    if k < 0 || k >= ranges.len() {
        false
    } else {
        let (mn, mx) = ranges[k];
        let lo_ok = match mn {
            Some(s) => s <= idx,
            None => true,
        };
        let hi_ok = match mx {
            Some(e) => idx <= e,
            None => true,
        };
        if lo_ok && hi_ok {
            true
        } else if mx is None {
            false
        } else {
            range_hit(ranges, k + 1, idx)
        }
    }
}

/// The front ranges whose upper end is at or below `idx` are left behind.
pub open spec fn drop_passed(ranges: Seq<SliceRange>, r: int, idx: int) -> int
    decreases ranges.len() - r,
{
    if r < 0 || r >= ranges.len() {
        r
    } else {
        match ranges[r].1 {
            Some(e) => {
                if e <= idx {
                    drop_passed(ranges, r + 1, idx)
                } else {
                    r
                }
            },
            None => r,
        }
    }
}

pub proof fn lemma_drop_passed_bounds(ranges: Seq<SliceRange>, r: int, idx: int)
    requires
        0 <= r <= ranges.len(),
    ensures
        r <= drop_passed(ranges, r, idx) <= ranges.len(),
    decreases ranges.len() - r,
{
    if r < ranges.len() {
        match ranges[r].1 {
            Some(e) => {
                if e <= idx {
                    lemma_drop_passed_bounds(ranges, r + 1, idx);
                }
            },
            None => {
            },
        }
    }
}

/// What the slice walk yields from position `idx` on, with `r` the first
/// range still in play. Once the ranges run out, nothing more is yielded.
pub open spec fn slice_rec(
    texts: Seq<Seq<char>>,
    ranges: Seq<SliceRange>,
    idx: int,
    r: int,
) -> Seq<Seq<char>>
    decreases texts.len() - idx,
{
    if idx < 0 || idx >= texts.len() || r < 0 || r >= ranges.len() {
        Seq::empty()
    } else {
        let hit = range_hit(ranges, r, idx);
        let rest = slice_rec(texts, ranges, idx + 1, drop_passed(ranges, r, idx));
        if hit {
            seq![texts[idx]] + rest
        } else {
            rest
        }
    }
}

fn hit_exec(ranges: &Vec<SliceRange>, r: usize, idx: usize) -> (hit: bool)
    requires
        r <= ranges@.len(),
    ensures
        hit == range_hit(ranges@, r as int, idx as int),
{
    let n = ranges.len();
    let mut k = r;
    loop
        invariant_except_break
            r <= k <= n,
            n == ranges@.len(),
            range_hit(ranges@, r as int, idx as int) == range_hit(ranges@, k as int, idx as int),
        ensures
            range_hit(ranges@, r as int, idx as int) == (k < n && {
                let (mn, mx) = ranges@[k as int];
                (match mn {
                    Some(s) => s <= idx,
                    None => true,
                }) && (match mx {
                    Some(e) => idx <= e,
                    None => true,
                })
            }),
        decreases n - k,
    {
        if k == n {
            break ;
        }
        let (mn, mx) = ranges[k];
        let lo_ok = match mn {
            Some(s) => s <= idx,
            None => true,
        };
        let hi_ok = match mx {
            Some(e) => idx <= e,
            None => true,
        };
        if lo_ok && hi_ok {
            break ;
        }
        match mx {
            None => {
                break ;
            },
            Some(_) => {
                k += 1;
            },
        }
    }
    if k < ranges.len() {
        let (mn, mx) = ranges[k];
        let lo_ok = match mn {
            Some(s) => s <= idx,
            None => true,
        };
        let hi_ok = match mx {
            Some(e) => idx <= e,
            None => true,
        };
        lo_ok && hi_ok
    } else {
        false
    }
}

/// Walks the items once, yielding those whose index the ranges select.
pub fn slice_items(items: &Vec<Item>, ranges: &Vec<SliceRange>) -> (res: Vec<Item>)
    ensures
        texts_of(res@) == slice_rec(texts_of(items@), ranges@, 0, 0),
{
    let n = items.len();
    let rn = ranges.len();
    let mut out: Vec<Item> = Vec::new();
    let mut idx: usize = 0;
    let mut r: usize = 0;
    let ghost target = slice_rec(texts_of(items@), ranges@, 0, 0);
    proof {
        assert(texts_of(out@) =~= Seq::<Seq<char>>::empty());
    }
    while idx < n && r < rn
        invariant
            idx <= n,
            r <= rn,
            n == items@.len(),
            rn == ranges@.len(),
            texts_of(items@).len() == n,
            target == slice_rec(texts_of(items@), ranges@, 0, 0),
            target == texts_of(out@) + slice_rec(texts_of(items@), ranges@, idx as int, r as int),
        decreases n - idx,
    {
        let ghost ts = texts_of(items@);
        proof {
            assert(ts[idx as int] == items@[idx as int].text_view());
        }
        let keep = hit_exec(ranges, r, idx);
        if keep {
            out.push(items[idx].duplicate());
            proof {
                assert(texts_of(out@) =~= texts_of(out@.drop_last()) + seq![
                    out@.last().text_view(),
                ]);
            }
        }
        // leave behind the front ranges this index has passed
        let mut r2 = r;
        loop
            invariant_except_break
                r <= r2 <= rn,
                rn == ranges@.len(),
                drop_passed(ranges@, r as int, idx as int) == drop_passed(
                    ranges@,
                    r2 as int,
                    idx as int,
                ),
            ensures
                r <= r2 <= rn,
                r2 as int == drop_passed(ranges@, r as int, idx as int),
            decreases rn - r2,
        {
            if r2 == rn {
                break ;
            }
            match ranges[r2].1 {
                Some(e) => {
                    if e <= idx {
                        r2 += 1;
                    } else {
                        break ;
                    }
                },
                None => {
                    break ;
                },
            }
        }
        r = r2;
        idx += 1;
    }
    proof {
        assert(slice_rec(texts_of(items@), ranges@, idx as int, r as int) =~= Seq::<
            Seq<char>,
        >::empty());
    }
    out
}

} // verus!
