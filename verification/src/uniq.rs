//! The uniq operator: keep the first occurrence of every item, where two
//! items coincide when their keys do — the text itself, or its ASCII
//! upper-case folding under `nocase`. The first-seen spelling is retained.

use vstd::prelude::*;

use crate::chars::{chars_vec, string_of, to_upper_vec, upper_seq};
use crate::item::{texts_of, Item};

verus! {

/// The deduplication key of one text.
pub open spec fn uniq_key(t: Seq<char>, nocase: bool) -> Seq<char> {
    if nocase {
        upper_seq(t)
    } else {
        t
    }
}

/// First occurrences kept, in order; a later item whose key already
/// appeared is dropped.
pub open spec fn uniq_spec(texts: Seq<Seq<char>>, nocase: bool) -> Seq<Seq<char>>
    decreases texts.len(),
{
    if texts.len() == 0 {
        Seq::empty()
    } else {
        let pre = uniq_spec(texts.drop_last(), nocase);
        if exists|j: int|
            0 <= j < texts.len() - 1 && uniq_key(#[trigger] texts[j], nocase) == uniq_key(
                texts.last(),
                nocase,
            ) {
            pre
        } else {
            pre.push(texts.last())
        }
    }
}

/// The deduplication key of one item, as a string.
fn key_string(it: &Item, nocase: bool) -> (r: String)
    ensures
        r@ == uniq_key(it.text_view(), nocase),
{
    let t = it.to_text();
    if nocase {
        let v = chars_vec(t.as_str());
        string_of(&to_upper_vec(&v))
    } else {
        t
    }
}

/// Keeps each item whose key has not been seen among the items before it.
pub fn uniq_items(items: &Vec<Item>, nocase: bool) -> (r: Vec<Item>)
    ensures
        texts_of(r@) == uniq_spec(texts_of(items@), nocase),
{
    let n = items.len();
    let mut out: Vec<Item> = Vec::new();
    let mut i: usize = 0;
    proof {
        assert(texts_of(items@).take(0) =~= texts_of(items@.take(0)));
        assert(uniq_spec(texts_of(items@.take(0)), nocase) =~= texts_of(out@));
    }
    while i < n
        invariant
            i <= n,
            n == items@.len(),
            texts_of(out@) == uniq_spec(texts_of(items@.take(i as int)), nocase),
        decreases n - i,
    {
        let ki = key_string(&items[i], nocase);
        let mut seen = false;
        let mut j: usize = 0;
        while j < i
            invariant
                j <= i < n,
                n == items@.len(),
                ki@ == uniq_key(items@[i as int].text_view(), nocase),
                seen == exists|k: int|
                    0 <= k < j && uniq_key(#[trigger] items@[k].text_view(), nocase) == uniq_key(
                        items@[i as int].text_view(),
                        nocase,
                    ),
            decreases i - j,
        {
            let kj = key_string(&items[j], nocase);
            if kj == ki {
                seen = true;
            }
            j += 1;
        }
        proof {
            let pre = texts_of(items@.take(i as int));
            let cur = texts_of(items@.take(i + 1));
            assert(cur.drop_last() =~= pre);
            assert(cur.last() == items@[i as int].text_view());
            assert forall|k: int| 0 <= k < i implies #[trigger] cur[k] == items@[k].text_view() by {
                assert(items@.take(i + 1)[k] == items@[k]);
            }
            if seen {
                let w = choose|k: int|
                    0 <= k < i && uniq_key(#[trigger] items@[k].text_view(), nocase) == uniq_key(
                        items@[i as int].text_view(),
                        nocase,
                    );
                assert(uniq_key(cur[w], nocase) == uniq_key(cur.last(), nocase));
            } else {
                assert forall|k: int| 0 <= k < cur.len() - 1 implies uniq_key(
                    #[trigger] cur[k],
                    nocase,
                ) != uniq_key(cur.last(), nocase) by {
                    assert(cur[k] == items@[k].text_view());
                }
            }
        }
        if !seen {
            out.push(items[i].duplicate());
            proof {
                assert(texts_of(out@) =~= texts_of(out@.drop_last()).push(
                    out@.last().text_view(),
                ));
            }
        }
        i += 1;
    }
    proof {
        assert(items@.take(n as int) =~= items@);
    }
    out
}

} // verus!
