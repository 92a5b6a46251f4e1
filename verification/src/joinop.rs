//! The join operator: fold the whole stream — or each batch of `n` upstream
//! items — into one item `prefix + items.join(delimiter) + postfix`. The
//! final batch may be shorter and is still emitted.

use vstd::prelude::*;

use crate::chars::push_str_all;
use crate::item::{texts_of, Item};

verus! {

/// The delimiter and the framing a join stage puts around each output item.
#[derive(Debug, Clone, PartialEq, Eq)]
pub struct JoinInfo {
    pub delimiter: String,
    pub prefix: String,
    pub postfix: String,
}

/// The texts interleaved with the delimiter.
pub open spec fn join_texts(texts: Seq<Seq<char>>, delim: Seq<char>) -> Seq<char>
    decreases texts.len(),
{
    if texts.len() == 0 {
        Seq::empty()
    } else if texts.len() == 1 {
        texts[0]
    } else {
        texts[0] + delim + join_texts(texts.drop_first(), delim)
    }
}

/// Appending one more text extends the joined form at its end.
pub proof fn lemma_join_push(texts: Seq<Seq<char>>, delim: Seq<char>, x: Seq<char>)
    ensures
        join_texts(texts.push(x), delim) == if texts.len() == 0 {
            x
        } else {
            join_texts(texts, delim) + delim + x
        },
    decreases texts.len(),
{
    let p = texts.push(x);
    if texts.len() == 0 {
        assert(p.len() == 1);
        assert(p[0] == x);
    } else {
        assert(p.drop_first() =~= texts.drop_first().push(x));
        lemma_join_push(texts.drop_first(), delim, x);
        assert(p[0] == texts[0]);
        if texts.len() == 1 {
            assert(join_texts(p, delim) == p[0] + delim + join_texts(p.drop_first(), delim));
            assert(p.drop_first().len() == 1);
        } else {
            assert(join_texts(texts, delim) + delim + x == texts[0] + delim + (join_texts(
                texts.drop_first(),
                delim,
            ) + delim + x)) by {
                assert((texts[0] + delim + join_texts(texts.drop_first(), delim)) + delim + x
                    =~= texts[0] + delim + (join_texts(texts.drop_first(), delim) + delim + x));
            }
        }
    }
}

/// One whole-stream join: everything in one framed item.
pub open spec fn join_all_spec(texts: Seq<Seq<char>>, info: JoinInfo) -> Seq<char> {
    info.prefix@ + join_texts(texts, info.delimiter@) + info.postfix@
}

/// Chunked join: groups of `batch` upstream items, each folded into one
/// framed item; the final group may be shorter.
pub open spec fn chunk_join_spec(texts: Seq<Seq<char>>, info: JoinInfo, batch: int) -> Seq<
    Seq<char>,
>
    decreases texts.len(),
{
    if batch < 1 || texts.len() == 0 {
        Seq::empty()
    } else {
        let k = if batch < texts.len() {
            batch
        } else {
            texts.len() as int
        };
        seq![join_all_spec(texts.take(k), info)] + chunk_join_spec(texts.skip(k), info, batch)
    }
}

/// A chunked join over `n` items emits exactly `ceil(n / batch)` items.
pub proof fn lemma_chunk_join_len(texts: Seq<Seq<char>>, info: JoinInfo, batch: int)
    requires
        batch >= 1,
    ensures
        chunk_join_spec(texts, info, batch).len() == (texts.len() + batch - 1) / batch,
    decreases texts.len(),
{
    if texts.len() == 0 {
        assert((0 + batch - 1) / batch == 0) by (nonlinear_arith)
            requires
                batch >= 1,
        ;
    } else if texts.len() <= batch {
        let k = texts.len() as int;
        assert(texts.skip(k).len() == 0);
        assert(chunk_join_spec(texts.skip(k), info, batch) =~= Seq::<Seq<char>>::empty());
        assert(chunk_join_spec(texts, info, batch).len() == 1);
        assert((texts.len() + batch - 1) / batch == 1) by (nonlinear_arith)
            requires
                1 <= texts.len() <= batch,
        ;
    } else {
        lemma_chunk_join_len(texts.skip(batch), info, batch);
        assert(texts.skip(batch).len() == texts.len() - batch);
        assert((texts.len() - batch + batch - 1) / batch + 1 == (texts.len() + batch - 1) / batch)
            by (nonlinear_arith)
            requires
                batch >= 1,
                texts.len() > batch,
        ;
    }
}

/// The items `items[i..j]` joined with the stage's framing, as one string.
fn join_range(items: &Vec<Item>, i: usize, j: usize, info: &JoinInfo) -> (r: String)
    requires
        i <= j <= items@.len(),
    ensures
        r@ == join_all_spec(texts_of(items@.subrange(i as int, j as int)), *info),
{
    let ghost ts = texts_of(items@.subrange(i as int, j as int));
    let mut s = String::new();
    push_str_all(&mut s, info.prefix.as_str());
    let mut k: usize = i;
    while k < j
        invariant
            i <= k <= j <= items@.len(),
            ts == texts_of(items@.subrange(i as int, j as int)),
            s@ == info.prefix@ + join_texts(ts.take(k - i), info.delimiter@),
        decreases j - k,
    {
        if k > i {
            push_str_all(&mut s, info.delimiter.as_str());
        }
        let t = items[k].to_text();
        push_str_all(&mut s, t.as_str());
        proof {
            assert(ts.take(k + 1 - i) =~= ts.take(k - i).push(items@[k as int].text_view()));
            lemma_join_push(ts.take(k - i), info.delimiter@, items@[k as int].text_view());
        }
        k += 1;
    }
    push_str_all(&mut s, info.postfix.as_str());
    proof {
        assert(ts.take(j - i) =~= ts);
    }
    s
}

/// The whole stream folded into a single framed item.
pub fn join_all_items(items: &Vec<Item>, info: &JoinInfo) -> (r: Item)
    ensures
        r.text_view() == join_all_spec(texts_of(items@), *info),
{
    let s = join_range(items, 0, items.len(), info);
    proof {
        assert(items@.subrange(0, items@.len() as int) =~= items@);
    }
    Item::Text(s)
}

/// Groups of `batch` items, each folded into one framed item.
pub fn join_batch_items(items: &Vec<Item>, info: &JoinInfo, batch: usize) -> (r: Vec<Item>)
    requires
        batch >= 1,
    ensures
        texts_of(r@) == chunk_join_spec(texts_of(items@), *info, batch as int),
{
    let n = items.len();
    let mut out: Vec<Item> = Vec::new();
    let mut i: usize = 0;
    let ghost ts = texts_of(items@);
    let ghost target = chunk_join_spec(ts, *info, batch as int);
    proof {
        assert(ts.skip(0) =~= ts);
        assert(texts_of(out@) =~= Seq::<Seq<char>>::empty());
    }
    while i < n
        invariant
            i <= n,
            n == items@.len(),
            batch >= 1,
            ts == texts_of(items@),
            ts.len() == n,
            target == chunk_join_spec(ts, *info, batch as int),
            target == texts_of(out@) + chunk_join_spec(ts.skip(i as int), *info, batch as int),
        decreases n - i,
    {
        let k = if batch < n - i {
            batch
        } else {
            n - i
        };
        let s = join_range(items, i, i + k, info);
        out.push(Item::Text(s));
        proof {
            let rest = ts.skip(i as int);
            assert(rest.take(k as int) =~= texts_of(items@.subrange(i as int, i + k)));
            assert(rest.skip(k as int) =~= ts.skip(i + k));
            assert(texts_of(out@) =~= texts_of(out@.drop_last()) + seq![out@.last().text_view()]);
        }
        i += k;
    }
    proof {
        assert(ts.skip(i as int).len() == 0);
    }
    out
}

} // verus!
