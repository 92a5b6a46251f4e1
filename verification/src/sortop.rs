//! The sort operator: order the whole stream by text, by folded text, or by
//! parsed numeric value with a default rank for unparsable items; ascending
//! or descending. The output is a sorted permutation of the input's texts.

use vstd::prelude::*;
use vstd::seq_lib::to_multiset_insert;

use crate::chars::{chars_vec, lower_seq, to_lower_vec};
use crate::item::{texts_of, Item};
use crate::num::{
    lemma_num_le_total, lemma_num_le_trans, num_le_spec, num_wf, parse_int_spec, parse_int_vec,
    parse_num_spec, parse_num_vec, Num,
};

verus! {

/// A resolved ordering: by numeric value with an optional default rank, or
/// by text with case folding already decided.
pub enum SortMode {
    ByNum(Option<Num>),
    ByText(bool),
}

/// A numeric default must lie in the exact range.
pub open spec fn mode_wf(m: SortMode) -> bool {
    match m {
        SortMode::ByNum(Some(d)) => num_wf(d),
        _ => true,
    }
}

/// The rank of one text under a numeric sort: its parsed value, the default
/// when it does not parse, or the top rank when there is no default either.
/// An integer default keeps the stricter integer grammar for the items too.
pub open spec fn num_key(t: Seq<char>, default: Option<Num>) -> Option<Num> {
    match default {
        Some(Num::Integer(d)) => match parse_int_spec(t) {
            Some(i) => Some(Num::Integer(i)),
            None => Some(Num::Integer(d)),
        },
        Some(d) => match parse_num_spec(t) {
            Some(n) => Some(n),
            None => Some(d),
        },
        None => parse_num_spec(t),
    }
}

/// Order on ranks, with the top rank above every value.
pub open spec fn opt_num_le(a: Option<Num>, b: Option<Num>) -> bool {
    match (a, b) {
        (Some(x), Some(y)) => num_le_spec(x, y),
        (Some(_), None) => true,
        (None, Some(_)) => false,
        (None, None) => true,
    }
}

/// Lexicographic order on character sequences by scalar value; a prefix
/// comes first.
pub open spec fn lex_le(a: Seq<char>, b: Seq<char>) -> bool
    decreases a.len(),
{
    if a.len() == 0 {
        true
    } else if b.len() == 0 {
        false
    } else if (a[0] as u32) < (b[0] as u32) {
        true
    } else if (a[0] as u32) > (b[0] as u32) {
        false
    } else {
        lex_le(a.drop_first(), b.drop_first())
    }
}

pub proof fn lemma_lex_le_total(a: Seq<char>, b: Seq<char>)
    ensures
        lex_le(a, b) || lex_le(b, a),
    decreases a.len(),
{
    if a.len() > 0 && b.len() > 0 && (a[0] as u32) == (b[0] as u32) {
        lemma_lex_le_total(a.drop_first(), b.drop_first());
    }
}

pub proof fn lemma_lex_le_trans(a: Seq<char>, b: Seq<char>, c: Seq<char>)
    requires
        lex_le(a, b),
        lex_le(b, c),
    ensures
        lex_le(a, c),
    decreases a.len(),
{
    if a.len() == 0 {
    } else {
        // b and c are nonempty, else the hypotheses fail
        if (a[0] as u32) == (b[0] as u32) && (b[0] as u32) == (c[0] as u32) {
            lemma_lex_le_trans(a.drop_first(), b.drop_first(), c.drop_first());
        }
    }
}

/// The order one sort stage uses, over two texts.
pub open spec fn mode_le(m: SortMode, a: Seq<char>, b: Seq<char>) -> bool {
    match m {
        SortMode::ByNum(d) => opt_num_le(num_key(a, d), num_key(b, d)),
        SortMode::ByText(nocase) => {
            if nocase {
                lex_le(lower_seq(a), lower_seq(b))
            } else {
                lex_le(a, b)
            }
        },
    }
}

/// The order over texts, with `desc` flipping the direction.
pub open spec fn text_le(m: SortMode, desc: bool, a: Seq<char>, b: Seq<char>) -> bool {
    if desc {
        mode_le(m, b, a)
    } else {
        mode_le(m, a, b)
    }
}

/// The order over items, read through their texts.
pub open spec fn item_le(m: SortMode, desc: bool, a: Item, b: Item) -> bool {
    text_le(m, desc, a.text_view(), b.text_view())
}

/// One of the two directions always holds.
pub proof fn lemma_item_le_total(m: SortMode, desc: bool, a: Item, b: Item)
    ensures
        item_le(m, desc, a, b) || item_le(m, desc, b, a),
{
    match m {
        SortMode::ByNum(d) => {
            match (num_key(a.text_view(), d), num_key(b.text_view(), d)) {
                (Some(x), Some(y)) => lemma_num_le_total(x, y),
                _ => {},
            }
        },
        SortMode::ByText(nocase) => {
            if nocase {
                lemma_lex_le_total(lower_seq(a.text_view()), lower_seq(b.text_view()));
            } else {
                lemma_lex_le_total(a.text_view(), b.text_view());
            }
        },
    }
}

/// The order is transitive.
pub proof fn lemma_item_le_trans(m: SortMode, desc: bool, a: Item, b: Item, c: Item)
    requires
        item_le(m, desc, a, b),
        item_le(m, desc, b, c),
    ensures
        item_le(m, desc, a, c),
{
    let (x, y, z) = if desc {
        (c, b, a)
    } else {
        (a, b, c)
    };
    match m {
        SortMode::ByNum(d) => {
            match (num_key(x.text_view(), d), num_key(y.text_view(), d), num_key(z.text_view(), d)) {
                (Some(kx), Some(ky), Some(kz)) => lemma_num_le_trans(kx, ky, kz),
                _ => {},
            }
        },
        SortMode::ByText(nocase) => {
            if nocase {
                lemma_lex_le_trans(
                    lower_seq(x.text_view()),
                    lower_seq(y.text_view()),
                    lower_seq(z.text_view()),
                );
            } else {
                lemma_lex_le_trans(x.text_view(), y.text_view(), z.text_view());
            }
        },
    }
}

fn lex_le_exec(a: &Vec<char>, b: &Vec<char>) -> (r: bool)
    ensures
        r == lex_le(a@, b@),
{
    let an = a.len();
    let bn = b.len();
    let mut i: usize = 0;
    proof {
        assert(a@.skip(0) =~= a@);
        assert(b@.skip(0) =~= b@);
    }
    loop
        invariant_except_break
            i <= an,
            i <= bn,
            an == a@.len(),
            bn == b@.len(),
            lex_le(a@, b@) == lex_le(a@.skip(i as int), b@.skip(i as int)),
        ensures
            i <= an <= a@.len(),
            i <= bn,
            an == a@.len(),
            bn == b@.len(),
            lex_le(a@, b@) == (an - i == 0 || (i < bn && ((a@[i as int] as u32) < (
            b@[i as int] as u32)))),
        decreases an - i,
    {
        let ghost sa = a@.skip(i as int);
        let ghost sb = b@.skip(i as int);
        if i == an {
            proof {
                assert(sa.len() == 0);
            }
            break ;
        }
        if i == bn {
            proof {
                assert(sa.len() > 0 && sb.len() == 0);
            }
            break ;
        }
        proof {
            assert(sa[0] == a@[i as int]);
            assert(sb[0] == b@[i as int]);
        }
        let ca = a[i] as u32;
        let cb = b[i] as u32;
        if ca < cb || ca > cb {
            break ;
        }
        proof {
            assert(sa.drop_first() =~= a@.skip(i + 1));
            assert(sb.drop_first() =~= b@.skip(i + 1));
        }
        i += 1;
    }
    if i == an {
        true
    } else {
        i < bn && (a[i] as u32) < (b[i] as u32)
    }
}

/// The rank of one item under a numeric sort.
fn eval_num_key(it: &Item, default: &Option<Num>) -> (r: Option<Num>)
    requires
        default matches Some(d) ==> num_wf(*d),
    ensures
        r == num_key(it.text_view(), *default),
        r matches Some(n) ==> num_wf(n),
{
    let t = it.to_text();
    let v = chars_vec(t.as_str());
    match default {
        Some(d) => {
            if let Num::Integer(_) = d {
                match parse_int_vec(&v) {
                    Some(i) => Some(Num::Integer(i)),
                    None => Some(*d),
                }
            } else {
                match parse_num_vec(&v) {
                    Some(n) => Some(n),
                    None => Some(*d),
                }
            }
        },
        None => parse_num_vec(&v),
    }
}

/// The comparison one sort stage runs.
fn item_le_exec(m: &SortMode, desc: bool, a: &Item, b: &Item) -> (r: bool)
    requires
        mode_wf(*m),
    ensures
        r == item_le(*m, desc, *a, *b),
{
    let (x, y): (&Item, &Item) = if desc {
        (b, a)
    } else {
        (a, b)
    };
    match m {
        SortMode::ByNum(d) => {
            let kx = eval_num_key(x, d);
            let ky = eval_num_key(y, d);
            match (kx, ky) {
                (Some(nx), Some(ny)) => nx.le(&ny),
                (Some(_), None) => true,
                (None, Some(_)) => false,
                (None, None) => true,
            }
        },
        SortMode::ByText(nocase) => {
            let tx = x.to_text();
            let ty = y.to_text();
            let vx = chars_vec(tx.as_str());
            let vy = chars_vec(ty.as_str());
            if *nocase {
                lex_le_exec(&to_lower_vec(&vx), &to_lower_vec(&vy))
            } else {
                lex_le_exec(&vx, &vy)
            }
        },
    }
}

/// An ordered item sequence is ordered in its texts.
pub proof fn lemma_sorted_items_texts(m: SortMode, desc: bool, s: Seq<Item>)
    requires
        sorted_items(m, desc, s),
    ensures
        forall|i: int, j: int|
            0 <= i < j < texts_of(s).len() ==> text_le(
                m,
                desc,
                #[trigger] texts_of(s)[i],
                #[trigger] texts_of(s)[j],
            ),
{
    assert forall|i: int, j: int|
        0 <= i < j < texts_of(s).len() implies text_le(
        m,
        desc,
        #[trigger] texts_of(s)[i],
        #[trigger] texts_of(s)[j],
    ) by {
        assert(item_le(m, desc, s[i], s[j]));
        assert(texts_of(s)[i] == s[i].text_view());
        assert(texts_of(s)[j] == s[j].text_view());
    }
}

/// The whole result is ordered by the stage's comparison.
pub open spec fn sorted_items(m: SortMode, desc: bool, s: Seq<Item>) -> bool {
    forall|i: int, j: int| 0 <= i < j < s.len() ==> item_le(m, desc, #[trigger] s[i], #[trigger] s[j])
}

/// Insertion sort by the stage's comparison: the result is ordered, and its
/// texts are a permutation of the input's texts. The implementation keeps
/// tied items in their upstream order, but the contract does not pin the
/// order within a tie.
pub fn sort_items(items: &Vec<Item>, m: &SortMode, desc: bool) -> (r: Vec<Item>)
    requires
        mode_wf(*m),
    ensures
        sorted_items(*m, desc, r@),
        texts_of(r@).to_multiset() == texts_of(items@).to_multiset(),
{
    broadcast use vstd::seq_lib::group_to_multiset_ensures;

    let n = items.len();
    let mut out: Vec<Item> = Vec::new();
    let mut idx: usize = 0;
    proof {
        assert(texts_of(items@.take(0)) =~= Seq::<Seq<char>>::empty());
        assert(texts_of(out@) =~= Seq::<Seq<char>>::empty());
    }
    while idx < n
        invariant
            idx <= n,
            n == items@.len(),
            mode_wf(*m),
            sorted_items(*m, desc, out@),
            texts_of(out@).to_multiset() == texts_of(items@.take(idx as int)).to_multiset(),
        decreases n - idx,
    {
        let x = items[idx].duplicate();
        let ol = out.len();
        let mut k: usize = 0;
        while k < ol && item_le_exec(m, desc, &out[k], &x)
            invariant
                k <= ol,
                ol == out@.len(),
                mode_wf(*m),
                x.text_view() == items@[idx as int].text_view(),
                forall|j: int| 0 <= j < k ==> item_le(*m, desc, #[trigger] out@[j], x),
            decreases ol - k,
        {
            k += 1;
        }
        proof {
            let o = out@;
            let newseq = o.insert(k as int, x);
            o.insert_ensures(k as int, x);
            if k < o.len() {
                lemma_item_le_total(*m, desc, o[k as int], x);
                assert(item_le(*m, desc, x, o[k as int]));
            }
            assert forall|i: int, j: int|
                0 <= i < j < newseq.len() implies item_le(
                *m,
                desc,
                #[trigger] newseq[i],
                #[trigger] newseq[j],
            ) by {
                if j < k {
                    assert(newseq[i] == o[i]);
                    assert(newseq[j] == o[j]);
                } else if j == k {
                    assert(newseq[i] == o[i]);
                    assert(newseq[j] == x);
                    assert(item_le(*m, desc, o[i], x));
                } else if i == k {
                    assert(newseq[i] == x);
                    assert(newseq[j] == o[j - 1]);
                    if j - 1 > k {
                        assert(item_le(*m, desc, o[k as int], o[j - 1]));
                        lemma_item_le_trans(*m, desc, x, o[k as int], o[j - 1]);
                    }
                } else if i > k {
                    assert(newseq[i] == o[i - 1]);
                    assert(newseq[j] == o[j - 1]);
                    assert(item_le(*m, desc, o[i - 1], o[j - 1]));
                } else {
                    // i < k < j
                    assert(newseq[i] == o[i]);
                    assert(newseq[j] == o[j - 1]);
                    assert(item_le(*m, desc, o[i], o[j - 1]));
                }
            }
            // texts of the inserted sequence
            assert(texts_of(newseq) =~= texts_of(o).insert(k as int, x.text_view())) by {
                o.insert_ensures(k as int, x);
                texts_of(o).insert_ensures(k as int, x.text_view());
            }
            to_multiset_insert(texts_of(o), k as int, x.text_view());
            assert(texts_of(newseq).to_multiset() == texts_of(o).to_multiset().insert(
                x.text_view(),
            ));
            let pre = texts_of(items@.take(idx as int));
            let cur = texts_of(items@.take(idx + 1));
            assert(cur =~= pre.push(items@[idx as int].text_view()));
            pre.to_multiset_ensures();
            assert(pre.push(items@[idx as int].text_view()).to_multiset() =~= pre.to_multiset()
                .insert(items@[idx as int].text_view()));
            assert(texts_of(newseq).to_multiset() == cur.to_multiset());
        }
        out.insert(k, x);
        idx += 1;
    }
    proof {
        assert(items@.take(n as int) =~= items@);
    }
    out
}

} // verus!
