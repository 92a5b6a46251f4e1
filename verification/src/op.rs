//! The operator catalog and the engine that applies one configured stage to
//! the stream. A stage either maps the texts one by one, filters them,
//! regroups them, collapses them, or reorders them; `peek` passes the
//! stream through and records what flowed by, for the caller to print.

use vstd::prelude::*;

use crate::chars::{dec_of_nat, lower_seq, switch_seq, upper_seq, chars_vec, string_of,
    to_lower_vec, to_switch_vec, to_upper_vec, push_dec_usize};
use crate::condition::{condition_spec, condition_wf, Condition};
use crate::config::{has_config, is_nocase, Config};
use crate::item::{texts_of, Item};
use crate::joinop::{chunk_join_spec, join_all_items, join_all_spec, join_batch_items, JoinInfo};
use crate::num::{num_wf, Num};
use crate::rand_ext::shuffle_items;
use crate::replace::{budget_of, replace_spec, ReplaceArg};
use crate::sliceop::{slice_items, slice_rec, SliceRange};
use crate::sortop::{sort_items, SortMode};
use crate::trim::{trim_arg_pattern, trim_spec, TrimArg};
use crate::uniq::{uniq_items, uniq_spec};

verus! {

/// The three per-item case conversions.
#[derive(Debug, Clone, Copy, PartialEq, Eq, Structural)]
pub enum CaseArg {
    Upper,
    Lower,
    Switch,
}

/// Where a peek stage writes what it sees.
#[derive(Debug, Clone, PartialEq, Eq)]
pub enum PeekArg {
    StdOut,
    File { file: String, append: bool, crlf: Option<bool> },
}

/// The four condition-driven selection stages.
#[derive(Debug, Clone, Copy, PartialEq, Eq, Structural)]
pub enum TakeDropMode {
    Take,
    Drop,
    TakeWhile,
    DropWhile,
}

/// What a sort stage orders by.
#[derive(Debug, PartialEq)]
pub enum SortBy {
    Num(Option<Num>),
    Text(bool),
    Random,
}

/// One configured pipeline stage.
pub enum Op {
    /// Pass items through; record their texts for a side channel.
    Peek(PeekArg),
    /// ASCII case conversion of every item.
    Case(CaseArg),
    /// Literal substring replacement in every item.
    Replace(ReplaceArg),
    /// Boundary trimming of every item.
    Trim(TrimArg),
    /// Keep only first occurrences.
    Uniq(bool),
    /// Fold the whole stream, or each batch, into one framed item.
    Join { join_info: JoinInfo, batch: Option<usize> },
    /// Keep the items whose index the ranges select.
    Slice { ranges: Vec<SliceRange> },
    /// Keep or drop items by a condition, item-wise or as a prefix.
    TakeDrop { mode: TakeDropMode, cond: Condition },
    /// Collapse the stream into its length.
    Count,
    /// Reorder the whole stream.
    Sort { sort_by: SortBy, desc: bool },
}

/// Validity carried by a stage: numeric bounds in range, batch positive.
pub open spec fn op_wf(op: Op) -> bool {
    match op {
        Op::TakeDrop { cond, .. } => condition_wf(cond),
        Op::Sort { sort_by: SortBy::Num(Some(d)), .. } => num_wf(d),
        Op::Join { batch: Some(b), .. } => b >= 1,
        _ => true,
    }
}

/// The subsequence of texts on which the condition's verdict is `keep_true`.
pub open spec fn keep_spec(texts: Seq<Seq<char>>, cond: Condition, keep_true: bool) -> Seq<
    Seq<char>,
>
    decreases texts.len(),
{
    if texts.len() == 0 {
        Seq::empty()
    } else {
        let pre = keep_spec(texts.drop_last(), cond, keep_true);
        if condition_spec(cond, texts.last()) == keep_true {
            pre.push(texts.last())
        } else {
            pre
        }
    }
}

/// The longest prefix on which the condition holds.
pub open spec fn take_while_spec(texts: Seq<Seq<char>>, cond: Condition) -> Seq<Seq<char>>
    decreases texts.len(),
{
    if texts.len() > 0 && condition_spec(cond, texts[0]) {
        seq![texts[0]] + take_while_spec(texts.drop_first(), cond)
    } else {
        Seq::empty()
    }
}

/// Everything after the longest prefix on which the condition holds.
pub open spec fn drop_while_spec(texts: Seq<Seq<char>>, cond: Condition) -> Seq<Seq<char>>
    decreases texts.len(),
{
    if texts.len() > 0 && condition_spec(cond, texts[0]) {
        drop_while_spec(texts.drop_first(), cond)
    } else {
        texts
    }
}

/// The sort order a stage resolves to, once the global case flag is known.
pub open spec fn resolve_sort(sort_by: SortBy, gnocase: bool) -> SortMode {
    match sort_by {
        SortBy::Num(d) => SortMode::ByNum(d),
        SortBy::Text(nc) => SortMode::ByText(nc || gnocase),
        SortBy::Random => SortMode::ByText(false),  // never consulted
    }
}

/// What a deterministic stage does to the stream's texts. Sort stages are
/// not covered here; `op_rel` states them relationally.
pub open spec fn op_apply_spec(op: Op, texts: Seq<Seq<char>>, gnocase: bool) -> Seq<Seq<char>> {
    match op {
        Op::Peek(_) => texts,
        Op::Case(c) => match c {
            CaseArg::Upper => texts.map_values(|t: Seq<char>| upper_seq(t)),
            CaseArg::Lower => texts.map_values(|t: Seq<char>| lower_seq(t)),
            CaseArg::Switch => texts.map_values(|t: Seq<char>| switch_seq(t)),
        },
        Op::Replace(arg) => texts.map_values(
            |t: Seq<char>|
                replace_spec(t, arg.from@, arg.to@, budget_of(arg.count), arg.nocase || gnocase),
        ),
        Op::Trim(arg) => texts.map_values(
            |t: Seq<char>|
                trim_spec(
                    arg.trim_mode,
                    trim_arg_pattern(arg),
                    arg.char_mode,
                    arg.nocase || gnocase,
                    t,
                ),
        ),
        Op::Uniq(nc) => uniq_spec(texts, nc || gnocase),
        Op::Join { join_info, batch } => match batch {
            None => seq![join_all_spec(texts, join_info)],
            Some(b) => chunk_join_spec(texts, join_info, b as int),
        },
        Op::Slice { ranges } => slice_rec(texts, ranges@, 0, 0),
        Op::TakeDrop { mode, cond } => match mode {
            TakeDropMode::Take => keep_spec(texts, cond, true),
            TakeDropMode::Drop => keep_spec(texts, cond, false),
            TakeDropMode::TakeWhile => take_while_spec(texts, cond),
            TakeDropMode::DropWhile => drop_while_spec(texts, cond),
        },
        Op::Count => seq![dec_of_nat(texts.len())],
        Op::Sort { .. } => texts,
    }
}

/// What one stage promises of its output: equality for every deterministic
/// stage; for a sort, a sorted permutation of the texts (the order within a
/// tie is not pinned); for a random sort, a permutation.
pub open spec fn op_rel(op: Op, input: Seq<Seq<char>>, output: Seq<Seq<char>>, gnocase: bool) -> bool {
    match op {
        Op::Sort { sort_by: SortBy::Random, .. } => output.to_multiset() == input.to_multiset(),
        Op::Sort { sort_by, desc } => {
            let m = resolve_sort(sort_by, gnocase);
            &&& output.to_multiset() == input.to_multiset()
            &&& forall|i: int, j: int|
                0 <= i < j < output.len() ==> crate::sortop::text_le(
                    m,
                    desc,
                    #[trigger] output[i],
                    #[trigger] output[j],
                )
        },
        _ => output == op_apply_spec(op, input, gnocase),
    }
}

/// What a peek stage saw, for the caller to write out.
pub struct PeekOutput {
    pub target: PeekArg,
    pub lines: Vec<String>,
}

/// Two peek destinations name the same place.
pub open spec fn peek_eq(a: PeekArg, b: PeekArg) -> bool {
    match (a, b) {
        (PeekArg::StdOut, PeekArg::StdOut) => true,
        (
            PeekArg::File { file: f0, append: a0, crlf: c0 },
            PeekArg::File { file: f1, append: a1, crlf: c1 },
        ) => f0@ == f1@ && a0 == a1 && c0 == c1,
        _ => false,
    }
}

/// The texts of the lines a peek recorded.
pub open spec fn lines_of(lines: Seq<String>) -> Seq<Seq<char>> {
    lines.map_values(|s: String| s@)
}

fn dup_peek(p: &PeekArg) -> (r: PeekArg)
    ensures
        peek_eq(r, *p),
{
    match p {
        PeekArg::StdOut => PeekArg::StdOut,
        PeekArg::File { file, append, crlf } => PeekArg::File {
            file: file.clone(),
            append: *append,
            crlf: *crlf,
        },
    }
}

fn map_texts(items: &Vec<Item>, case_arg: CaseArg) -> (r: Vec<Item>)
    ensures
        texts_of(r@) == op_apply_spec(Op::Case(case_arg), texts_of(items@), false),
{
    let n = items.len();
    let mut out: Vec<Item> = Vec::new();
    let ghost target = op_apply_spec(Op::Case(case_arg), texts_of(items@), false);
    proof {
        assert(texts_of(out@) =~= target.take(0));
    }
    let mut i: usize = 0;
    while i < n
        invariant
            i <= n,
            n == items@.len(),
            target == op_apply_spec(Op::Case(case_arg), texts_of(items@), false),
            target.len() == n,
            texts_of(out@) == target.take(i as int),
        decreases n - i,
    {
        let t = items[i].to_text();
        let v = chars_vec(t.as_str());
        let w = match case_arg {
            CaseArg::Upper => to_upper_vec(&v),
            CaseArg::Lower => to_lower_vec(&v),
            CaseArg::Switch => to_switch_vec(&v),
        };
        let ghost prev = out@;
        out.push(Item::Text(string_of(&w)));
        i += 1;
        proof {
            assert(out@.drop_last() =~= prev);
            assert(texts_of(out@) =~= texts_of(prev).push(out@.last().text_view()));
            assert(target.take(i as int) =~= target.take(i - 1).push(target[i - 1]));
            assert(out@.last().text_view() == target[i - 1]);
            assert(texts_of(out@) =~= target.take(i as int));
        }
    }
    proof {
        assert(target.take(n as int) =~= target);
    }
    out
}

fn keep_items(items: &Vec<Item>, cond: &Condition, keep_true: bool) -> (r: Vec<Item>)
    requires
        condition_wf(*cond),
    ensures
        texts_of(r@) == keep_spec(texts_of(items@), *cond, keep_true),
{
    let n = items.len();
    let mut out: Vec<Item> = Vec::new();
    proof {
        assert(texts_of(items@.take(0)) =~= Seq::<Seq<char>>::empty());
        assert(texts_of(out@) =~= Seq::<Seq<char>>::empty());
    }
    let mut i: usize = 0;
    while i < n
        invariant
            i <= n,
            n == items@.len(),
            condition_wf(*cond),
            texts_of(out@) == keep_spec(texts_of(items@.take(i as int)), *cond, keep_true),
        decreases n - i,
    {
        let t = items[i].to_text();
        let verdict = cond.test(t.as_str());
        proof {
            let pre = texts_of(items@.take(i as int));
            let cur = texts_of(items@.take(i + 1));
            assert(cur.drop_last() =~= pre);
            assert(cur.last() == items@[i as int].text_view());
        }
        if verdict == keep_true {
            out.push(items[i].duplicate());
            proof {
                assert(texts_of(out@) =~= texts_of(out@.drop_last()).push(out@.last().text_view()));
            }
        }
        i += 1;
    }
    proof {
        assert(items@.take(n as int) =~= items@);
    }
    out
}

fn take_while_items(items: &Vec<Item>, cond: &Condition) -> (r: Vec<Item>)
    requires
        condition_wf(*cond),
    ensures
        texts_of(r@) == take_while_spec(texts_of(items@), *cond),
{
    let n = items.len();
    let ghost ts = texts_of(items@);
    let mut out: Vec<Item> = Vec::new();
    let mut i: usize = 0;
    proof {
        assert(ts.skip(0) =~= ts);
        assert(texts_of(out@) =~= Seq::<Seq<char>>::empty());
    }
    while i < n
        invariant
            i <= n,
            n == items@.len(),
            condition_wf(*cond),
            ts == texts_of(items@),
            ts.len() == n,
            take_while_spec(ts, *cond) == texts_of(out@) + take_while_spec(
                ts.skip(i as int),
                *cond,
            ),
            forall|j: int| 0 <= j < i ==> condition_spec(*cond, #[trigger] ts[j]),
        decreases n - i,
    {
        let t = items[i].to_text();
        proof {
            assert(ts.skip(i as int)[0] == ts[i as int]);
            assert(ts[i as int] == items@[i as int].text_view());
        }
        if !cond.test(t.as_str()) {
            proof {
                assert(take_while_spec(ts.skip(i as int), *cond) =~= Seq::<Seq<char>>::empty());
            }
            return out;
        }
        out.push(items[i].duplicate());
        proof {
            assert(ts.skip(i as int).drop_first() =~= ts.skip(i + 1));
            assert(texts_of(out@) =~= texts_of(out@.drop_last()) + seq![out@.last().text_view()]);
            assert(texts_of(out@.drop_last()) + (seq![ts[i as int]] + take_while_spec(
                ts.skip(i + 1),
                *cond,
            )) =~= texts_of(out@) + take_while_spec(ts.skip(i + 1), *cond));
        }
        i += 1;
    }
    proof {
        assert(take_while_spec(ts.skip(n as int), *cond) =~= Seq::<Seq<char>>::empty());
    }
    out
}

fn drop_while_items(items: &Vec<Item>, cond: &Condition) -> (r: Vec<Item>)
    requires
        condition_wf(*cond),
    ensures
        texts_of(r@) == drop_while_spec(texts_of(items@), *cond),
{
    let n = items.len();
    let ghost ts = texts_of(items@);
    let mut i: usize = 0;
    proof {
        assert(ts.skip(0) =~= ts);
    }
    while i < n
        invariant
            i <= n,
            n == items@.len(),
            condition_wf(*cond),
            ts == texts_of(items@),
            ts.len() == n,
            drop_while_spec(ts, *cond) == drop_while_spec(ts.skip(i as int), *cond),
        ensures
            i <= n,
            drop_while_spec(ts, *cond) == drop_while_spec(ts.skip(i as int), *cond),
            i == n || !condition_spec(*cond, ts[i as int]),
        decreases n - i,
    {
        let t = items[i].to_text();
        proof {
            assert(ts.skip(i as int)[0] == ts[i as int]);
            assert(ts[i as int] == items@[i as int].text_view());
        }
        if !cond.test(t.as_str()) {
            break ;
        }
        proof {
            assert(ts.skip(i as int).drop_first() =~= ts.skip(i + 1));
        }
        i += 1;
    }
    let mut out: Vec<Item> = Vec::new();
    let start = i;
    proof {
        if i < n {
            assert(drop_while_spec(ts.skip(i as int), *cond) == ts.skip(i as int));
        } else {
            assert(ts.skip(i as int).len() == 0);
            assert(drop_while_spec(ts.skip(i as int), *cond) =~= ts.skip(i as int));
        }
        assert(texts_of(out@) =~= ts.skip(start as int).take(0));
    }
    while i < n
        invariant
            start <= i <= n,
            n == items@.len(),
            ts == texts_of(items@),
            ts.len() == n,
            texts_of(out@) == ts.skip(start as int).take(i - start),
        decreases n - i,
    {
        let ghost prev = out@;
        let ghost sub = ts.skip(start as int);
        out.push(items[i].duplicate());
        i += 1;
        proof {
            assert(out@.drop_last() =~= prev);
            assert(texts_of(out@) =~= texts_of(prev).push(out@.last().text_view()));
            assert(sub.take(i - start) =~= sub.take(i - start - 1).push(sub[i - start - 1]));
            assert(out@.last().text_view() == ts[i - 1]);
            assert(sub[i - start - 1] == ts[i - 1]);
            assert(texts_of(out@) =~= sub.take(i - start));
        }
    }
    proof {
        assert(ts.skip(start as int).take(n - start) =~= ts.skip(start as int));
    }
    out
}

/// Applies one stage to the whole materialized stream. The returned side
/// channel is what a peek stage saw, and nothing otherwise.
pub fn apply_op(op: &Op, items: Vec<Item>, configs: &Vec<Config>) -> (r: (
    Vec<Item>,
    Option<PeekOutput>,
))
    requires
        op_wf(*op),
    ensures
        op_rel(
            *op,
            texts_of(items@),
            texts_of(r.0@),
            has_config(configs@, Config::Nocase),
        ),
        match (op, r.1) {
            (Op::Peek(p), Some(po)) => lines_of(po.lines@) == texts_of(items@) && peek_eq(
                po.target,
                *p,
            ),
            (Op::Peek(_), None) => false,
            (_, None) => true,
            (_, Some(_)) => false,
        },
{
    let ghost g = has_config(configs@, Config::Nocase);
    match op {
        Op::Peek(p) => {
            let n = items.len();
            let mut lines: Vec<String> = Vec::new();
            let mut i: usize = 0;
            proof {
                assert(lines_of(lines@) =~= texts_of(items@).take(0));
            }
            while i < n
                invariant
                    i <= n,
                    n == items@.len(),
                    lines_of(lines@) == texts_of(items@).take(i as int),
                decreases n - i,
            {
                let ghost prev = lines@;
                let ghost ts = texts_of(items@);
                lines.push(items[i].to_text());
                i += 1;
                proof {
                    assert(lines@.drop_last() =~= prev);
                    assert(lines_of(lines@) =~= lines_of(prev).push(lines@.last()@));
                    assert(ts.take(i as int) =~= ts.take(i - 1).push(ts[i - 1]));
                    assert(lines@.last()@ == ts[i - 1]);
                    assert(lines_of(lines@) =~= ts.take(i as int));
                }
            }
            proof {
                assert(texts_of(items@).take(n as int) =~= texts_of(items@));
            }
            (items, Some(PeekOutput { target: dup_peek(p), lines }))
        },
        Op::Case(c) => (map_texts(&items, *c), None),
        Op::Replace(arg) => {
            let n = items.len();
            let mut out: Vec<Item> = Vec::new();
            let ghost target = op_apply_spec(*op, texts_of(items@), g);
            proof {
                assert(texts_of(out@) =~= target.take(0));
            }
            let mut i: usize = 0;
            while i < n
                invariant
                    i <= n,
                    n == items@.len(),
                    target == op_apply_spec(*op, texts_of(items@), g),
                    op matches Op::Replace(a) && a == arg,
                    g == has_config(configs@, Config::Nocase),
                    target.len() == n,
                    texts_of(out@) == target.take(i as int),
                decreases n - i,
            {
                let t = items[i].to_text();
                let ghost prev = out@;
                out.push(Item::Text(arg.replace(t.as_str(), configs)));
                i += 1;
                proof {
                    assert(out@.drop_last() =~= prev);
                    assert(texts_of(out@) =~= texts_of(prev).push(out@.last().text_view()));
                    assert(target.take(i as int) =~= target.take(i - 1).push(target[i - 1]));
                    assert(out@.last().text_view() == target[i - 1]);
                    assert(texts_of(out@) =~= target.take(i as int));
                }
            }
            proof {
                assert(target.take(n as int) =~= target);
            }
            (out, None)
        },
        Op::Trim(arg) => {
            let n = items.len();
            let mut out: Vec<Item> = Vec::new();
            let ghost target = op_apply_spec(*op, texts_of(items@), g);
            proof {
                assert(texts_of(out@) =~= target.take(0));
            }
            let mut i: usize = 0;
            while i < n
                invariant
                    i <= n,
                    n == items@.len(),
                    target == op_apply_spec(*op, texts_of(items@), g),
                    op matches Op::Trim(a) && a == arg,
                    g == has_config(configs@, Config::Nocase),
                    target.len() == n,
                    texts_of(out@) == target.take(i as int),
                decreases n - i,
            {
                let t = items[i].to_text();
                let ghost prev = out@;
                out.push(Item::Text(arg.trim(t, configs)));
                i += 1;
                proof {
                    assert(out@.drop_last() =~= prev);
                    assert(texts_of(out@) =~= texts_of(prev).push(out@.last().text_view()));
                    assert(target.take(i as int) =~= target.take(i - 1).push(target[i - 1]));
                    assert(out@.last().text_view() == target[i - 1]);
                    assert(texts_of(out@) =~= target.take(i as int));
                }
            }
            proof {
                assert(target.take(n as int) =~= target);
            }
            (out, None)
        },
        Op::Uniq(nc) => {
            let eff = is_nocase(*nc, configs);
            (uniq_items(&items, eff), None)
        },
        Op::Join { join_info, batch } => match batch {
            None => {
                let one = join_all_items(&items, join_info);
                let mut out: Vec<Item> = Vec::new();
                out.push(one);
                proof {
                    assert(texts_of(out@) =~= seq![out@[0].text_view()]);
                }
                (out, None)
            },
            Some(b) => (join_batch_items(&items, join_info, *b), None),
        },
        Op::Slice { ranges } => (slice_items(&items, ranges), None),
        Op::TakeDrop { mode, cond } => match mode {
            TakeDropMode::Take => (keep_items(&items, cond, true), None),
            TakeDropMode::Drop => (keep_items(&items, cond, false), None),
            TakeDropMode::TakeWhile => (take_while_items(&items, cond), None),
            TakeDropMode::DropWhile => (drop_while_items(&items, cond), None),
        },
        Op::Count => {
            let n = items.len();
            let mut s = String::new();
            push_dec_usize(n, &mut s);
            let mut out: Vec<Item> = Vec::new();
            out.push(Item::Text(s));
            proof {
                assert(texts_of(out@) =~= seq![out@[0].text_view()]);
            }
            (out, None)
        },
        Op::Sort { sort_by, desc } => match sort_by {
            SortBy::Random => {
                let mut v = items;
                shuffle_items(&mut v);
                (v, None)
            },
            SortBy::Num(d) => {
                let m = SortMode::ByNum(*d);
                let sorted = sort_items(&items, &m, *desc);
                proof {
                    crate::sortop::lemma_sorted_items_texts(m, *desc, sorted@);
                }
                (sorted, None)
            },
            SortBy::Text(nc) => {
                let eff = is_nocase(*nc, configs);
                let m = SortMode::ByText(eff);
                let sorted = sort_items(&items, &m, *desc);
                proof {
                    crate::sortop::lemma_sorted_items_texts(m, *desc, sorted@);
                }
                (sorted, None)
            },
        },
    }
}

/// Stages counted as peeks.
pub open spec fn count_peeks(ops: Seq<Op>) -> int
    decreases ops.len(),
{
    if ops.len() == 0 {
        0
    } else {
        count_peeks(ops.drop_last()) + (if ops.last() matches Op::Peek(_) {
            1int
        } else {
            0int
        })
    }
}

/// Every stage of the pipeline is valid.
pub open spec fn ops_wf(ops: Seq<Op>) -> bool {
    forall|i: int| 0 <= i < ops.len() ==> op_wf(#[trigger] ops[i])
}

/// The whole pipeline's promise: some chain of per-stage outputs connects
/// the input texts to the output texts.
pub open spec fn pipeline_rel(
    ops: Seq<Op>,
    input: Seq<Seq<char>>,
    output: Seq<Seq<char>>,
    gnocase: bool,
) -> bool
    decreases ops.len(),
{
    if ops.len() == 0 {
        output == input
    } else {
        exists|mid: Seq<Seq<char>>|
            #[trigger] op_rel(ops[0], input, mid, gnocase) && pipeline_rel(
                ops.skip(1),
                mid,
                output,
                gnocase,
            )
    }
}

/// Extending a chain by one more stage at its end.
proof fn lemma_pipeline_snoc(
    ops: Seq<Op>,
    k: int,
    input: Seq<Seq<char>>,
    mid: Seq<Seq<char>>,
    output: Seq<Seq<char>>,
    g: bool,
)
    requires
        0 <= k < ops.len(),
        pipeline_rel(ops.take(k), input, mid, g),
        op_rel(ops[k], mid, output, g),
    ensures
        pipeline_rel(ops.take(k + 1), input, output, g),
    decreases k,
{
    if k == 0 {
        assert(mid == input);
        let t = ops.take(1);
        assert(t[0] == ops[0]);
        assert(t.skip(1).len() == 0);
        assert(op_rel(t[0], input, output, g) && pipeline_rel(t.skip(1), output, output, g));
    } else {
        let pre = ops.take(k);
        let m0 = choose|m0: Seq<Seq<char>>|
            #[trigger] op_rel(pre[0], input, m0, g) && pipeline_rel(pre.skip(1), m0, mid, g);
        assert(pre.skip(1) =~= ops.skip(1).take(k - 1));
        assert(ops.skip(1)[k - 1] == ops[k]);
        lemma_pipeline_snoc(ops.skip(1), k - 1, m0, mid, output, g);
        let t = ops.take(k + 1);
        assert(t[0] == ops[0]);
        assert(t.skip(1) =~= ops.skip(1).take(k));
        assert(op_rel(t[0], input, m0, g) && pipeline_rel(t.skip(1), m0, output, g));
    }
}

/// Runs the whole pipeline over a materialized stream, collecting what the
/// peek stages saw along the way.
pub fn execute(ops: &Vec<Op>, items: Vec<Item>, configs: &Vec<Config>) -> (r: (
    Vec<Item>,
    Vec<PeekOutput>,
))
    requires
        ops_wf(ops@),
    ensures
        pipeline_rel(
            ops@,
            texts_of(items@),
            texts_of(r.0@),
            has_config(configs@, Config::Nocase),
        ),
        r.1@.len() == count_peeks(ops@),
{
    let ghost g = has_config(configs@, Config::Nocase);
    let ghost input = texts_of(items@);
    let n = ops.len();
    let mut cur = items;
    let mut peeks: Vec<PeekOutput> = Vec::new();
    let mut i: usize = 0;
    proof {
        assert(pipeline_rel(ops@.take(0), input, texts_of(cur@), g));
        assert(count_peeks(ops@.take(0)) == 0);
    }
    while i < n
        invariant
            i <= n,
            n == ops@.len(),
            ops_wf(ops@),
            g == has_config(configs@, Config::Nocase),
            input == texts_of(items@),
            pipeline_rel(ops@.take(i as int), input, texts_of(cur@), g),
            peeks@.len() == count_peeks(ops@.take(i as int)),
        decreases n - i,
    {
        let ghost mid = texts_of(cur@);
        let (next, peek) = apply_op(&ops[i], cur, configs);
        proof {
            lemma_pipeline_snoc(ops@, i as int, input, mid, texts_of(next@), g);
            assert(ops@.take(i + 1).drop_last() =~= ops@.take(i as int));
            assert(ops@.take(i + 1).last() == ops@[i as int]);
        }
        cur = next;
        match peek {
            Some(po) => {
                peeks.push(po);
            },
            None => {
            },
        }
        i += 1;
    }
    proof {
        assert(ops@.take(n as int) =~= ops@);
    }
    (cur, peeks)
}

} // verus!
