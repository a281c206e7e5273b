//! The order in which popups are drawn and hit by the pointer.
use core::cmp::Ordering;
use vstd::prelude::*;

verus! {

/// Lower values are drawn first (background), higher values last (on top).
#[derive(Clone, Copy, Debug, PartialEq, Eq, Structural)]
pub struct DrawOrder(pub i64);

/// Hands out ever higher draw orders, so each new popup goes on top.
#[derive(Debug)]
pub struct TopmostCounter {
    next: i64,
}

impl TopmostCounter {
    /// The value the next popup gets.
    pub closed spec fn spec_next(&self) -> i64 {
        self.next
    }

    /// A counter that starts at 0.
    pub fn new() -> (res: Self)
        ensures
            res.spec_next() == 0,
    {
        TopmostCounter { next: 0 }
    }

    /// The next draw order; the counter moves on by one, wrapping around.
    pub fn get_new_topmost_id(&mut self) -> (res: DrawOrder)
        ensures
            res.0 == old(self).spec_next(),
            final(self).spec_next() == next_after(old(self).spec_next()),
    {
        let id = self.next;
        self.next = self.next.wrapping_add(1);
        DrawOrder(id)
    }
}

/// The counter value after handing one out: one more, wrapping at `i64::MAX`.
pub open spec fn next_after(n: i64) -> int {
    if n == i64::MAX {
        i64::MIN as int
    } else {
        n + 1
    }
}

/// The counter's value after `k` draw orders were handed out from `start`:
/// by `get_new_topmost_id`'s contract, the call numbered `k` (from 0) on a
/// counter at `start` returns `counter_after(start, k)`.
pub open spec fn counter_after(start: i64, k: nat) -> int
    decreases k,
{
    if k == 0 {
        start as int
    } else {
        next_after(counter_after(start, (k - 1) as nat) as i64)
    }
}

/// Until the counter reaches `i64::MAX`, the call numbered `k` hands out
/// `start + k`.
pub proof fn lemma_counter_after(start: i64, k: nat)
    requires
        start + k <= i64::MAX,
    ensures
        counter_after(start, k) == start + k,
    decreases k,
{
    if k > 0 {
        lemma_counter_after(start, (k - 1) as nat);
    }
}

/// Law of the counter: as long as the range does not wrap, every draw order
/// handed out is higher than each one handed out before it (the call numbered
/// `i` gets `start + i`, so a fresh counter gives `k - 1` on its `k`-th call),
/// and a later popup is drawn on top of an earlier one.
pub proof fn lemma_later_popup_on_top(start: i64, i: nat, j: nat)
    requires
        i < j,
        start + j <= i64::MAX,
    ensures
        counter_after(start, i) == start + i,
        counter_after(start, j) == start + j,
        counter_after(start, i) < counter_after(start, j),
{
    lemma_counter_after(start, i);
    lemma_counter_after(start, j);
}

/// The draw order a popup without one is drawn with.
pub open spec fn order_or_default(o: Option<DrawOrder>) -> int {
    match o {
        Some(d) => d.0 as int,
        None => 0,
    }
}

/// The comparison of two items by draw order (missing ones count as 0):
/// `None` when the draw orders are equal and the depth decides.
pub open spec fn draw_order_comparison(a: Option<DrawOrder>, b: Option<DrawOrder>) -> Option<Ordering> {
    if order_or_default(a) < order_or_default(b) {
        Some(Ordering::Less)
    } else if order_or_default(a) > order_or_default(b) {
        Some(Ordering::Greater)
    } else {
        None
    }
}

/// How two transparent items compare by draw order: `Some` with the order of
/// their draw orders (missing ones count as 0) when those differ, `None` when
/// they are equal and the depth decides.
pub fn compare_draw_orders(a: Option<DrawOrder>, b: Option<DrawOrder>) -> (res: Option<Ordering>)
    ensures
        res == draw_order_comparison(a, b),
{
    let oa = match a {
        Some(d) => d.0,
        None => 0,
    };
    let ob = match b {
        Some(d) => d.0,
        None => 0,
    };
    if oa < ob {
        Some(Ordering::Less)
    } else if oa > ob {
        Some(Ordering::Greater)
    } else {
        None
    }
}

/// Law of the comparison: swapping the items reverses the outcome.
pub proof fn lemma_compare_reverses(a: Option<DrawOrder>, b: Option<DrawOrder>)
    ensures
        draw_order_comparison(a, b) == Some(Ordering::Less) <==> draw_order_comparison(b, a) == Some(Ordering::Greater),
        draw_order_comparison(a, b) is None <==> draw_order_comparison(b, a) is None,
{
}

/// Law of the comparison: it is transitive, so sorting by it is well defined.
pub proof fn lemma_compare_transitive(a: Option<DrawOrder>, b: Option<DrawOrder>, c: Option<DrawOrder>)
    requires
        draw_order_comparison(a, b) == Some(Ordering::Less),
        draw_order_comparison(b, c) == Some(Ordering::Less),
    ensures
        draw_order_comparison(a, c) == Some(Ordering::Less),
{
}

/// Index of the hit that is drawn on top: among the hits on clickable popups
/// (those with a draw order), the first one with the highest draw order above
/// `i64::MIN`; `None` when there is none.
pub fn topmost_hit(orders: &Vec<Option<i64>>) -> (res: Option<usize>)
    ensures
        match res {
            Some(i) => {
                &&& i < orders@.len()
                &&& orders@[i as int] matches Some(best) && best > i64::MIN && {
                    &&& forall|j: int| 0 <= j < orders@.len() ==> (#[trigger] orders@[j] matches Some(o) ==> o <= best)
                    &&& forall|j: int| 0 <= j < i ==> (#[trigger] orders@[j] matches Some(o) ==> o < best)
                }
            },
            None => forall|j: int| 0 <= j < orders@.len() ==> (#[trigger] orders@[j] matches Some(o) ==> o == i64::MIN),
        },
{
    let mut max: i64 = i64::MIN;
    let mut closest: Option<usize> = None;
    let mut i: usize = 0;
    while i < orders.len()
        invariant
            i <= orders@.len(),
            forall|j: int| 0 <= j < i ==> (#[trigger] orders@[j] matches Some(o) ==> o <= max),
            match closest {
                Some(k) => {
                    &&& k < i
                    &&& orders@[k as int] == Some(max)
                    &&& max > i64::MIN
                    &&& forall|j: int| 0 <= j < k ==> (#[trigger] orders@[j] matches Some(o) ==> o < max)
                },
                None => max == i64::MIN,
            },
        decreases orders@.len() - i,
    {
        if let Some(o) = orders[i] {
            if o > max {
                closest = Some(i);
                max = o;
            }
        }
        i += 1;
    }
    closest
}

} // verus!
