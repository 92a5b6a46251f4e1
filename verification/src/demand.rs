//! How much of an unbounded source a pipeline can possibly need. When the
//! operator chain opens with per-item stages and then a slice whose ranges
//! are all bounded above, only a known prefix of the source can reach the
//! output; the caller may materialize just that prefix and run the engine
//! on it. `lemma_pipeline_truncate` is the soundness theorem: the truncated
//! run admits exactly the outputs of the full run.

use vstd::prelude::*;

use crate::op::{op_apply_spec, op_rel, pipeline_rel, Op};
use crate::sliceop::{drop_passed, lemma_drop_passed_bounds, range_hit, slice_rec, SliceRange};

verus! {

/// Per-item stages: one output for each input, index for index.
pub open spec fn op_is_map(op: Op) -> bool {
    match op {
        Op::Peek(_) => true,
        Op::Case(_) => true,
        Op::Replace(_) => true,
        Op::Trim(_) => true,
        _ => false,
    }
}

/// One more than the largest index a slice can select, when every range is
/// bounded above; `None` with an open-ended range.
pub open spec fn ranges_bound(ranges: Seq<SliceRange>) -> Option<int>
    decreases ranges.len(),
{
    if ranges.len() == 0 {
        Some(0)
    } else {
        match (ranges[0].1, ranges_bound(ranges.drop_first())) {
            (Some(e), Some(b)) => {
                if e + 1 > usize::MAX {
                    None
                } else if e + 1 > b {
                    Some(e + 1)
                } else {
                    Some(b)
                }
            },
            _ => None,
        }
    }
}

/// The source prefix the chain can need: walk the leading per-item stages
/// to the first slice whose ranges are all bounded. `None` when no such
/// stage bounds the stream.
pub open spec fn demand_spec(ops: Seq<Op>) -> Option<int>
    decreases ops.len(),
{
    if ops.len() == 0 {
        None
    } else if op_is_map(ops[0]) {
        demand_spec(ops.drop_first())
    } else {
        match ops[0] {
            Op::Slice { ranges } => ranges_bound(ranges@),
            _ => None,
        }
    }
}

/// Computes the demanded source prefix.
pub fn source_demand(ops: &Vec<Op>) -> (r: Option<usize>)
    ensures
        match (r, demand_spec(ops@)) {
            (Some(d), Some(sd)) => d as int == sd,
            (None, None) => true,
            _ => false,
        },
{
    let n = ops.len();
    let mut i: usize = 0;
    proof {
        assert(ops@.skip(0) =~= ops@);
    }
    loop
        invariant_except_break
            i <= n,
            n == ops@.len(),
            demand_spec(ops@) == demand_spec(ops@.skip(i as int)),
            forall|k: int| 0 <= k < i ==> op_is_map(#[trigger] ops@[k]),
        ensures
            i <= n,
            demand_spec(ops@) == demand_spec(ops@.skip(i as int)),
            i == n || !op_is_map(ops@[i as int]),
        decreases n - i,
    {
        if i == n {
            break ;
        }
        let ghost rest = ops@.skip(i as int);
        proof {
            assert(rest[0] == ops@[i as int]);
            assert(rest.drop_first() =~= ops@.skip(i + 1));
        }
        match &ops[i] {
            Op::Peek(_) => {
                i += 1;
            },
            Op::Case(_) => {
                i += 1;
            },
            Op::Replace(_) => {
                i += 1;
            },
            Op::Trim(_) => {
                i += 1;
            },
            _ => {
                break ;
            },
        }
    }
    if i == n {
        proof {
            assert(ops@.skip(i as int).len() == 0);
        }
        return None;
    }
    let ghost rest = ops@.skip(i as int);
    proof {
        assert(rest[0] == ops@[i as int]);
    }
    match &ops[i] {
        Op::Slice { ranges } => bounded_ranges(ranges),
        _ => None,
    }
}

fn bounded_ranges(ranges: &Vec<SliceRange>) -> (r: Option<usize>)
    ensures
        match (r, ranges_bound(ranges@)) {
            (Some(d), Some(sd)) => d as int == sd,
            (None, None) => true,
            _ => false,
        },
{
    let n = ranges.len();
    let mut bound: usize = 0;
    let mut i: usize = 0;
    proof {
        assert(ranges@.skip(0) =~= ranges@);
    }
    loop
        invariant_except_break
            i <= n,
            n == ranges@.len(),
            ({
                let tail = ranges_bound(ranges@.skip(i as int));
                match (ranges_bound(ranges@), tail) {
                    (Some(b), Some(t)) => b == if bound as int > t {
                        bound as int
                    } else {
                        t
                    },
                    (None, None) => true,
                    _ => false,
                }
            }),
        ensures
            ranges_bound(ranges@) matches Some(b) && b == bound as int,
        decreases n - i,
    {
        if i == n {
            proof {
                assert(ranges_bound(ranges@.skip(i as int)) == Some(0int));
            }
            break ;
        }
        let ghost rest = ranges@.skip(i as int);
        proof {
            assert(rest[0] == ranges@[i as int]);
            assert(rest.drop_first() =~= ranges@.skip(i + 1));
        }
        match ranges[i].1 {
            None => {
                return None;
            },
            Some(e) => {
                if e == usize::MAX {
                    return None;
                }
                if e + 1 > bound {
                    bound = e + 1;
                }
                i += 1;
            },
        }
    }
    Some(bound)
}

proof fn lemma_ranges_bound_all(ranges: Seq<SliceRange>, b: int)
    requires
        ranges_bound(ranges) == Some(b),
    ensures
        forall|k: int|
            0 <= k < ranges.len() ==> ((#[trigger] ranges[k]).1 matches Some(e) && e < b),
    decreases ranges.len(),
{
    if ranges.len() > 0 {
        match (ranges[0].1, ranges_bound(ranges.drop_first())) {
            (Some(e), Some(t)) => {
                lemma_ranges_bound_all(ranges.drop_first(), t);
                assert forall|k: int|
                    0 <= k < ranges.len() implies ((#[trigger] ranges[k]).1 matches Some(e2) && e2
                    < b) by {
                    if k > 0 {
                        assert(ranges.drop_first()[k - 1] == ranges[k]);
                    }
                }
            },
            _ => {
                assert(false);
            },
        }
    }
}

proof fn lemma_range_hit_beyond(ranges: Seq<SliceRange>, k: int, idx: int, b: int)
    requires
        ranges_bound(ranges) == Some(b),
        idx >= b,
    ensures
        !range_hit(ranges, k, idx),
    decreases ranges.len() - k,
{
    if 0 <= k < ranges.len() {
        lemma_ranges_bound_all(ranges, b);
        lemma_range_hit_beyond(ranges, k + 1, idx, b);
    }
}

proof fn lemma_slice_rec_empty_beyond(
    texts: Seq<Seq<char>>,
    ranges: Seq<SliceRange>,
    idx: int,
    r: int,
    b: int,
)
    requires
        ranges_bound(ranges) == Some(b),
        idx >= b,
    ensures
        slice_rec(texts, ranges, idx, r) == Seq::<Seq<char>>::empty(),
    decreases texts.len() - idx,
{
    if 0 <= idx < texts.len() && 0 <= r < ranges.len() {
        lemma_range_hit_beyond(ranges, r, idx, b);
        lemma_slice_rec_empty_beyond(texts, ranges, idx + 1, drop_passed(ranges, r, idx), b);
    } else {
        assert(slice_rec(texts, ranges, idx, r) =~= Seq::<Seq<char>>::empty());
    }
}

/// A slice whose ranges all end below `d` reads nothing past the first `d`
/// items.
proof fn lemma_slice_truncate(
    texts: Seq<Seq<char>>,
    ranges: Seq<SliceRange>,
    idx: int,
    r: int,
    b: int,
    d: int,
)
    requires
        ranges_bound(ranges) == Some(b),
        b <= d <= texts.len(),
        0 <= idx,
        0 <= r,
    ensures
        slice_rec(texts, ranges, idx, r) == slice_rec(texts.take(d), ranges, idx, r),
    decreases texts.len() - idx,
{
    let t2 = texts.take(d);
    if idx >= d {
        lemma_slice_rec_empty_beyond(texts, ranges, idx, r, b);
        assert(slice_rec(t2, ranges, idx, r) =~= Seq::<Seq<char>>::empty());
    } else if r >= ranges.len() {
        assert(slice_rec(texts, ranges, idx, r) =~= Seq::<Seq<char>>::empty());
        assert(slice_rec(t2, ranges, idx, r) =~= Seq::<Seq<char>>::empty());
    } else {
        assert(t2[idx] == texts[idx]);
        lemma_drop_passed_bounds(ranges, r, idx);
        lemma_slice_truncate(texts, ranges, idx + 1, drop_passed(ranges, r, idx), b, d);
    }
}

/// A deterministic head stage pins the middle of the chain.
proof fn lemma_op_head_det(ops: Seq<Op>, texts: Seq<Seq<char>>, out: Seq<Seq<char>>, g: bool)
    requires
        ops.len() > 0,
        !(ops[0] matches Op::Sort { .. }),
    ensures
        pipeline_rel(ops, texts, out, g) == pipeline_rel(
            ops.skip(1),
            op_apply_spec(ops[0], texts, g),
            out,
            g,
        ),
{
    let a = op_apply_spec(ops[0], texts, g);
    if pipeline_rel(ops, texts, out, g) {
        let mid = choose|mid: Seq<Seq<char>>|
            #[trigger] op_rel(ops[0], texts, mid, g) && pipeline_rel(ops.skip(1), mid, out, g);
        assert(mid == a);
    }
    if pipeline_rel(ops.skip(1), a, out, g) {
        assert(op_rel(ops[0], texts, a, g) && pipeline_rel(ops.skip(1), a, out, g));
    }
}

/// A per-item stage commutes with taking a prefix.
proof fn lemma_map_take(op: Op, texts: Seq<Seq<char>>, d: int, g: bool)
    requires
        op_is_map(op),
        0 <= d <= texts.len(),
    ensures
        op_apply_spec(op, texts, g).len() == texts.len(),
        op_apply_spec(op, texts.take(d), g) == op_apply_spec(op, texts, g).take(d),
{
    assert(op_apply_spec(op, texts.take(d), g) =~= op_apply_spec(op, texts, g).take(d));
}

/// The soundness of bounded materialization: when the chain demands only
/// the first `d` source items, running it on that prefix admits exactly
/// the outputs of running it on the whole stream.
pub proof fn lemma_pipeline_truncate(
    ops: Seq<Op>,
    texts: Seq<Seq<char>>,
    out: Seq<Seq<char>>,
    g: bool,
    d: int,
)
    requires
        demand_spec(ops) == Some(d),
        0 <= d <= texts.len(),
    ensures
        pipeline_rel(ops, texts, out, g) == pipeline_rel(ops, texts.take(d), out, g),
    decreases ops.len(),
{
    let t2 = texts.take(d);
    if op_is_map(ops[0]) {
        lemma_op_head_det(ops, texts, out, g);
        lemma_op_head_det(ops, t2, out, g);
        lemma_map_take(ops[0], texts, d, g);
        assert(demand_spec(ops.drop_first()) == Some(d));
        assert(ops.skip(1) =~= ops.drop_first());
        lemma_pipeline_truncate(ops.skip(1), op_apply_spec(ops[0], texts, g), out, g, d);
    } else {
        match ops[0] {
            Op::Slice { ranges } => {
                lemma_op_head_det(ops, texts, out, g);
                lemma_op_head_det(ops, t2, out, g);
                lemma_slice_truncate(texts, ranges@, 0, 0, d, d);
            },
            _ => {
                assert(false);
            },
        }
    }
}

} // verus!
