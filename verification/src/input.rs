//! The pipeline's sources, and the integer range generator: enumerate
//! between two bounds, inclusively or exclusively at the end, stepping by a
//! nonzero amount whose sign picks the direction.

use vstd::prelude::*;
use vstd::arithmetic::div_mod::lemma_fundamental_div_mod;

use crate::item::Item;

verus! {

/// Where the items come from.
#[derive(Debug, PartialEq)]
pub enum Input {
    /// Lines read from standard input.
    StdIn,
    /// Lines read from the named files, in order.
    File { files: Vec<String> },
    /// Lines read from the system clipboard.
    Clip,
    /// The given literal values.
    Of { values: Vec<String> },
    /// Generated integers, each optionally rendered through a template.
    Gen { start: i64, end: i64, included: bool, step: i64, fmt: Option<String> },
    /// One value repeated, forever or `count` times.
    Repeat { value: String, count: Option<usize> },
}

impl Input {
    pub fn new_std_in() -> (r: Input)
        ensures
            r == Input::StdIn,
    {
        Input::StdIn
    }

    pub fn new_file(files: Vec<String>) -> (r: Input)
        ensures
            r == (Input::File { files }),
    {
        Input::File { files }
    }

    pub fn new_clip() -> (r: Input)
        ensures
            r == Input::Clip,
    {
        Input::Clip
    }

    pub fn new_of(values: Vec<String>) -> (r: Input)
        ensures
            r == (Input::Of { values }),
    {
        Input::Of { values }
    }

    pub fn new_gen(start: i64, end: i64, included: bool, step: i64, fmt: Option<String>) -> (r:
        Input)
        ensures
            r == (Input::Gen { start, end, included, step, fmt }),
    {
        Input::Gen { start, end, included, step, fmt }
    }

    pub fn new_repeat(value: String, count: Option<usize>) -> (r: Input)
        ensures
            r == (Input::Repeat { value, count }),
    {
        Input::Repeat { value, count }
    }
}

/// The largest value the range may yield: the end itself when inclusive.
pub open spec fn gen_last(end: int, included: bool) -> int {
    if included {
        end
    } else {
        end - 1
    }
}

/// An ascending enumeration: `start, start+step, ...`, every value at most
/// `last`, and as long as possible.
pub open spec fn gen_up_ok(start: int, last: int, step: int, s: Seq<i64>) -> bool {
    &&& step > 0
    &&& forall|i: int| 0 <= i < s.len() ==> #[trigger] s[i] as int == start + i * step
    &&& (s.len() == 0 <==> start > last)
    &&& (s.len() > 0 ==> start + (s.len() - 1) * step <= last && start + s.len() * step > last)
}

/// A descending enumeration: the ascending one walked backwards, so
/// flipping the step's sign reverses the order over the same bounds.
pub open spec fn gen_down_ok(start: int, last: int, step: int, s: Seq<i64>) -> bool {
    gen_up_ok(start, last, step, s.reverse())
}

/// The magnitude of a step.
pub open spec fn step_abs(step: int) -> int {
    if step >= 0 {
        step
    } else {
        -step
    }
}

/// Materializes the range: the ascending enumeration by the step's
/// magnitude, reversed when the step is negative; the machine must be able
/// to hold the count.
pub fn range_to_vec(start: i64, end: i64, included: bool, step: i64) -> (r: Vec<i64>)
    requires
        step != 0,
        gen_last(end as int, included) - start < (usize::MAX as int) * step_abs(step as int),
    ensures
        step > 0 ==> gen_up_ok(start as int, gen_last(end as int, included), step as int, r@),
        step < 0 ==> gen_down_ok(start as int, gen_last(end as int, included), -(step as int), r@),
{
    let ghost last_g = gen_last(end as int, included);
    let last: i128 = if included {
        end as i128
    } else {
        end as i128 - 1
    };
    let sm: i128 = if step > 0 {
        step as i128
    } else {
        -(step as i128)
    };
    let mut asc: Vec<i64> = Vec::new();
    let mut cur: i128 = start as i128;
    proof {
        assert(asc@.len() * sm == 0) by (nonlinear_arith)
            requires
                asc@.len() == 0,
        ;
    }
    while cur <= last
        invariant
            sm == step_abs(step as int),
            sm >= 1,
            last == last_g,
            i64::MIN <= start as int <= cur,
            last_g <= i64::MAX,
            cur == start as int + asc@.len() * sm,
            asc@.len() > 0 ==> start as int + (asc@.len() - 1) * sm <= last_g,
            forall|i: int|
                0 <= i < asc@.len() ==> #[trigger] asc@[i] as int == start as int + i * sm,
            last_g - start < (usize::MAX as int) * sm,
        decreases last + sm - cur,
    {
        proof {
            let n = asc@.len() as int;
            assert(n * sm <= last_g - start as int);
            assert(n < usize::MAX as int) by (nonlinear_arith)
                requires
                    n * sm <= last_g - (start as int),
                    last_g - (start as int) < (usize::MAX as int) * sm,
                    sm >= 1,
                    n >= 0,
            ;
            assert((n + 1) * sm == n * sm + sm) by (nonlinear_arith);
        }
        asc.push(cur as i64);
        cur = cur + sm;
    }
    proof {
        let n = asc@.len() as int;
        if n > 0 {
            assert((n - 1) * sm >= 0) by (nonlinear_arith)
                requires
                    n >= 1,
                    sm >= 1,
            ;
            assert(start as int <= last_g);
        }
    }
    if step > 0 {
        return asc;
    }
    // walk the ascending values backwards
    let n = asc.len();
    let mut r: Vec<i64> = Vec::new();
    let mut i: usize = 0;
    while i < n
        invariant
            i <= n,
            n == asc@.len(),
            r@.len() == i,
            forall|k: int| 0 <= k < i ==> #[trigger] r@[k] == asc@[n - 1 - k],
        decreases n - i,
    {
        r.push(asc[n - 1 - i]);
        i += 1;
    }
    proof {
        assert(r@.reverse() =~= asc@);
    }
    r
}

/// Two maximal enumerations of the same bounds are equally long.
proof fn lemma_gen_len_unique(d: int, step: int, n1: int, n2: int)
    requires
        step >= 1,
        n1 >= 1,
        n2 >= 1,
        (n1 - 1) * step <= d < n1 * step,
        (n2 - 1) * step <= d < n2 * step,
    ensures
        n1 == n2,
{
    assert(n1 == n2) by (nonlinear_arith)
        requires
            step >= 1,
            n1 >= 1,
            n2 >= 1,
            (n1 - 1) * step <= d < n1 * step,
            (n2 - 1) * step <= d < n2 * step,
    ;
}

/// Two maximal ascending enumerations agree.
pub proof fn lemma_gen_up_unique(start: int, last: int, step: int, a: Seq<i64>, b: Seq<i64>)
    requires
        gen_up_ok(start, last, step, a),
        gen_up_ok(start, last, step, b),
    ensures
        a == b,
{
    if start > last {
        assert(a =~= b);
    } else {
        lemma_gen_len_unique(last - start, step, a.len() as int, b.len() as int);
        assert forall|i: int| 0 <= i < a.len() implies a[i] == b[i] by {
            assert(a[i] as int == start + i * step);
            assert(b[i] as int == start + i * step);
        }
        assert(a =~= b);
    }
}

/// Flipping the step's sign reverses the enumeration over the same bounds.
pub proof fn lemma_gen_flip(start: int, last: int, step: int, up: Seq<i64>, down: Seq<i64>)
    requires
        step > 0,
        gen_up_ok(start, last, step, up),
        gen_down_ok(start, last, step, down),
    ensures
        down == up.reverse(),
{
    lemma_gen_up_unique(start, last, step, up, down.reverse());
    assert forall|i: int| 0 <= i < down.len() implies down[i] == up.reverse()[i] by {
        assert(down.reverse()[down.len() - 1 - i] == down[i]);
        assert(up.reverse()[i] == up[up.len() - 1 - i]);
    }
    assert(down =~= up.reverse());
}

/// The largest enumerated value: the start advanced by as many whole steps
/// as fit below the last bound. With a zero step the last bound itself
/// gates the walk.
pub open spec fn gen_back_anchor(start: int, last: int, sm: int) -> int {
    if sm == 0 {
        last
    } else if start <= last {
        start + ((last - start) / sm) * sm
    } else {
        last
    }
}

/// The lazy form of the generator: one value per call. A negative step
/// walks the same values backwards, from the aligned top value down; a
/// zero step repeats the current value forever.
pub struct RangeIter {
    pub start: i64,
    pub end: i64,
    pub included: bool,
    pub step: i128,
    pub cursor: i128,
    pub cursor_back: i128,
    pub reversed: bool,
}

/// The iterator's cursors stay near the 64-bit range, so stepping them
/// never overflows.
pub open spec fn range_iter_wf(it: RangeIter) -> bool {
    &&& 0 <= it.step <= 0x8000_0000_0000_0000
    &&& i64::MIN as int - it.step - 1 <= it.cursor <= i64::MAX as int + it.step
    &&& i64::MIN as int - it.step - 1 <= it.cursor_back <= i64::MAX as int + it.step
}

/// Whether the front cursor may yield.
pub open spec fn front_live(it: RangeIter) -> bool {
    it.cursor >= it.start && (if it.included {
        it.cursor <= it.end
    } else {
        it.cursor < it.end
    }) && it.cursor <= it.cursor_back
}

/// Whether the back cursor may yield.
pub open spec fn back_live(it: RangeIter) -> bool {
    it.cursor_back >= it.start && (if it.included {
        it.cursor_back <= it.end
    } else {
        it.cursor_back < it.end
    }) && it.cursor_back >= it.cursor
}

/// Builds the iterator: the step's magnitude drives both cursors, and a
/// negative step walks the same values from the aligned top value down.
pub fn range_to_iter(start: i64, end: i64, included: bool, step: i64) -> (r: RangeIter)
    ensures
        range_iter_wf(r),
        r.start == start && r.end == end && r.included == included,
        r.step == step_abs(step as int),
        r.cursor == start as int,
        r.cursor_back == gen_back_anchor(
            start as int,
            gen_last(end as int, included),
            step_abs(step as int),
        ),
        r.reversed == (step < 0),
{
    let sm: i128 = if step >= 0 {
        step as i128
    } else {
        -(step as i128)
    };
    let last: i128 = if included {
        end as i128
    } else {
        end as i128 - 1
    };
    let back: i128 = if sm == 0 {
        last
    } else if (start as i128) <= last {
        let d: i128 = last - start as i128;
        proof {
            lemma_fundamental_div_mod(d as int, sm as int);
            assert((d as int) / (sm as int) >= 0 && ((d as int) / (sm as int)) * sm <= d
                && (d as int) % (sm as int) >= 0) by (nonlinear_arith)
                requires
                    d >= 0,
                    sm >= 1,
                    d as int == sm * ((d as int) / (sm as int)) + (d as int) % (sm as int),
                    0 <= (d as int) % (sm as int) < sm,
            ;
        }
        start as i128 + (d / sm) * sm
    } else {
        last
    };
    RangeIter {
        start,
        end,
        included,
        step: sm,
        cursor: start as i128,
        cursor_back: back,
        reversed: step < 0,
    }
}

impl RangeIter {
    /// The next value: from the front, or from the back when the iterator
    /// was built with a negative step.
    pub fn next(&mut self) -> (r: Option<i64>)
        requires
            range_iter_wf(*old(self)),
        ensures
            range_iter_wf(*final(self)),
            final(self).start == old(self).start,
            final(self).end == old(self).end,
            final(self).included == old(self).included,
            final(self).step == old(self).step,
            final(self).reversed == old(self).reversed,
            !old(self).reversed ==> (match r {
                Some(v) => front_live(*old(self)) && v as int == old(self).cursor && final(
                    self).cursor == old(self).cursor + old(self).step && final(
                    self).cursor_back == old(self).cursor_back,
                None => !front_live(*old(self)) && *final(self) == *old(self),
            }),
            old(self).reversed ==> (match r {
                Some(v) => back_live(*old(self)) && v as int == old(self).cursor_back && final(
                    self).cursor_back == old(self).cursor_back - old(self).step && final(
                    self).cursor == old(self).cursor,
                None => !back_live(*old(self)) && *final(self) == *old(self),
            }),
    {
        if !self.reversed {
            let live = self.cursor >= self.start as i128 && (if self.included {
                self.cursor <= self.end as i128
            } else {
                self.cursor < self.end as i128
            }) && self.cursor <= self.cursor_back;
            if live {
                let v = self.cursor as i64;
                self.cursor = self.cursor + self.step;
                Some(v)
            } else {
                None
            }
        } else {
            let live = self.cursor_back >= self.start as i128 && (if self.included {
                self.cursor_back <= self.end as i128
            } else {
                self.cursor_back < self.end as i128
            }) && self.cursor_back >= self.cursor;
            if live {
                let v = self.cursor_back as i64;
                self.cursor_back = self.cursor_back - self.step;
                Some(v)
            } else {
                None
            }
        }
    }
}

/// Wraps generated integers as pipeline items.
pub fn gen_items(start: i64, end: i64, included: bool, step: i64) -> (r: Vec<Item>)
    requires
        step != 0,
        gen_last(end as int, included) - start < (usize::MAX as int) * step_abs(step as int),
    ensures
        step > 0 ==> gen_up_ok(
            start as int,
            gen_last(end as int, included),
            step as int,
            r@.map_values(|it: Item| item_int(it)),
        ) && forall|i: int| 0 <= i < r@.len() ==> (#[trigger] r@[i]) matches Item::Int(_),
        step < 0 ==> gen_down_ok(
            start as int,
            gen_last(end as int, included),
            -(step as int),
            r@.map_values(|it: Item| item_int(it)),
        ) && forall|i: int| 0 <= i < r@.len() ==> (#[trigger] r@[i]) matches Item::Int(_),
{
    let v = range_to_vec(start, end, included, step);
    let n = v.len();
    let mut r: Vec<Item> = Vec::new();
    let mut i: usize = 0;
    while i < n
        invariant
            i <= n,
            n == v@.len(),
            r@.len() == i,
            forall|j: int| 0 <= j < i ==> #[trigger] r@[j] == Item::Int(v@[j]),
        decreases n - i,
    {
        r.push(Item::Int(v[i]));
        i += 1;
    }
    proof {
        assert(r@.map_values(|it: Item| item_int(it)) =~= v@);
    }
    r
}

/// The integer inside a generated item.
pub open spec fn item_int(it: Item) -> i64 {
    match it {
        Item::Int(i) => i,
        Item::Text(_) => 0,
    }
}

/// The literal values of an `:of` source, as items.
pub fn of_items(values: &Vec<String>) -> (r: Vec<Item>)
    ensures
        crate::item::texts_of(r@) == values@.map_values(|s: String| s@),
{
    let n = values.len();
    let mut r: Vec<Item> = Vec::new();
    let mut i: usize = 0;
    while i < n
        invariant
            i <= n,
            n == values@.len(),
            r@.len() == i,
            forall|j: int| 0 <= j < i ==> (#[trigger] r@[j]).text_view() == values@[j]@,
        decreases n - i,
    {
        r.push(Item::Text(values[i].clone()));
        i += 1;
    }
    proof {
        assert(crate::item::texts_of(r@) =~= values@.map_values(|s: String| s@));
    }
    r
}

/// One value repeated `count` times, as items.
pub fn repeat_items(value: &String, count: usize) -> (r: Vec<Item>)
    ensures
        r@.len() == count,
        forall|j: int| 0 <= j < count ==> (#[trigger] r@[j]).text_view() == value@,
{
    let mut r: Vec<Item> = Vec::new();
    let mut i: usize = 0;
    while i < count
        invariant
            i <= count,
            r@.len() == i,
            forall|j: int| 0 <= j < i ==> (#[trigger] r@[j]).text_view() == value@,
        decreases count - i,
    {
        r.push(Item::Text(value.clone()));
        i += 1;
    }
    r
}

} // verus!
