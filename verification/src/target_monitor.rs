//! Which outputs (monitors) the overlay renders to.
use std::collections::HashMap;
use vstd::prelude::*;
use vstd::std_specs::iter::IteratorSpec;
use crate::seq_facts::{lemma_push_fresh, lemma_take_next};

verus! {

broadcast use vstd::std_specs::hash::group_hash_axioms;

/// Selects which monitor(s) to render to.
#[derive(Clone, Copy, Debug, PartialEq, Eq)]
pub enum WallpaperTargetMonitor {
    /// The first known output in output order.
    Primary,
    /// The n-th known output (0 based) in output order.
    Index(usize),
    /// Every known output.
    All,
}

/// The outputs of `order` that are still known, in the same order.
pub open spec fn present_outputs(order: Seq<u32>, known: Set<u32>) -> Seq<u32> {
    order.filter(|id: u32| known.contains(id))
}

/// The outputs a target selects, or `None` when the selection is invalid
/// (no output for `Primary`, an index out of range for `Index`).
pub open spec fn spec_selected_outputs(
    order: Seq<u32>,
    known: Set<u32>,
    target: WallpaperTargetMonitor,
) -> Option<Seq<u32>> {
    let present = present_outputs(order, known);
    match target {
        WallpaperTargetMonitor::All => Some(present),
        WallpaperTargetMonitor::Primary => if present.len() == 0 {
            None
        } else {
            Some(seq![present[0]])
        },
        WallpaperTargetMonitor::Index(n) => if n < present.len() {
            Some(seq![present[n as int]])
        } else {
            None
        },
    }
}

/// Choose outputs according to the target monitor selection: the outputs of
/// `order` that `outputs` still knows, narrowed to one by `Primary` and
/// `Index`.
pub fn selected_outputs<V>(
    order: &Vec<u32>,
    outputs: &HashMap<u32, V>,
    target: &WallpaperTargetMonitor,
) -> (res: Option<Vec<u32>>)
    ensures
        match spec_selected_outputs(order@, outputs@.dom(), *target) {
            Some(s) => res is Some && res->0@ == s,
            None => res is None,
        },
{
    let ghost known = outputs@.dom();
    let ghost pred = |id: u32| known.contains(id);
    let mut present: Vec<u32> = Vec::new();
    let mut i: usize = 0;
    while i < order.len()
        invariant
            i <= order.len(),
            known == outputs@.dom(),
            pred == (|id: u32| known.contains(id)),
            present@ == order@.take(i as int).filter(pred),
        decreases order.len() - i,
    {
        proof {
            reveal_with_fuel(Seq::<_>::filter, 1);
            assert(order@.take(i + 1).drop_last() =~= order@.take(i as int));
        }
        let id = order[i];
        if outputs.contains_key(&id) {
            present.push(id);
        }
        i += 1;
    }
    proof {
        assert(order@.take(order.len() as int) =~= order@);
    }
    match target {
        WallpaperTargetMonitor::All => Some(present),
        WallpaperTargetMonitor::Primary => {
            if present.len() == 0 {
                None
            } else {
                let mut v: Vec<u32> = Vec::new();
                v.push(present[0]);
                Some(v)
            }
        },
        WallpaperTargetMonitor::Index(n) => {
            if *n < present.len() {
                let mut v: Vec<u32> = Vec::new();
                v.push(present[*n]);
                Some(v)
            } else {
                None
            }
        },
    }
}

/// Law: every selected output is a known output taken from the order.
pub proof fn lemma_selected_known(order: Seq<u32>, known: Set<u32>, target: WallpaperTargetMonitor)
    ensures
        spec_selected_outputs(order, known, target) matches Some(sel) ==> forall|j: int|
            0 <= j < sel.len() ==> known.contains(#[trigger] sel[j]) && order.contains(sel[j]),
{
    broadcast use vstd::seq_lib::group_filter_ensures;
    let pred = |id: u32| known.contains(id);
    let present = present_outputs(order, known);
    assert forall|j: int| 0 <= j < present.len() implies known.contains(#[trigger] present[j]) && order.contains(present[j]) by {
        assert(pred(present[j]));
        assert(present.contains(present[j]));
        order.lemma_filter_contains_rev(pred, present[j]);
    }
}

/// Law: `Primary` selects the same output as `Index(0)`.
pub proof fn lemma_primary_is_index_zero(order: Seq<u32>, known: Set<u32>)
    ensures
        spec_selected_outputs(order, known, WallpaperTargetMonitor::Primary) == spec_selected_outputs(
            order,
            known,
            WallpaperTargetMonitor::Index(0),
        ),
{
}

/// The outputs that get a new surface, in selection order: each selected
/// output that is known and has no surface yet (nor one created earlier in
/// the same pass).
pub open spec fn spec_outputs_to_create(sel: Seq<u32>, known: Set<u32>, existing: Set<u32>) -> Seq<u32>
    decreases sel.len(),
{
    if sel.len() == 0 {
        Seq::empty()
    } else {
        let id = sel[0];
        if known.contains(id) && !existing.contains(id) {
            seq![id] + spec_outputs_to_create(sel.drop_first(), known, existing.insert(id))
        } else {
            spec_outputs_to_create(sel.drop_first(), known, existing)
        }
    }
}

/// The outputs created by the plan are the selected known outputs that had no
/// surface, each once.
pub proof fn lemma_create_set(sel: Seq<u32>, known: Set<u32>, existing: Set<u32>)
    ensures
        spec_outputs_to_create(sel, known, existing).to_set() == sel.to_set().filter(
            |id: u32| known.contains(id) && !existing.contains(id),
        ),
        forall|id: u32| #[trigger] spec_outputs_to_create(sel, known, existing).to_set().contains(id) ==> !existing.contains(id),
    decreases sel.len(),
{
    let c = spec_outputs_to_create(sel, known, existing);
    if sel.len() == 0 {
        assert(c.to_set() =~= Set::<u32>::empty());
        assert(sel.to_set().filter(|id: u32| known.contains(id) && !existing.contains(id)) =~= Set::<u32>::empty());
    } else {
        let id = sel[0];
        let rest = sel.drop_first();
        assert(sel =~= seq![id] + rest);
        if known.contains(id) && !existing.contains(id) {
            let ex2 = existing.insert(id);
            lemma_create_set(rest, known, ex2);
            let r = spec_outputs_to_create(rest, known, ex2);
            assert forall|x: u32| c.to_set().contains(x) <==> (x == id || r.to_set().contains(x)) by {
                if c.to_set().contains(x) {
                    let j = choose|j: int| 0 <= j < c.len() && c[j] == x;
                    if j > 0 {
                        assert(r[j - 1] == x);
                    }
                }
                if r.to_set().contains(x) {
                    let j = choose|j: int| 0 <= j < r.len() && r[j] == x;
                    assert(c[j + 1] == x);
                }
                if x == id {
                    assert(c[0] == x);
                }
            }
            assert forall|x: u32| sel.to_set().contains(x) <==> (x == id || rest.to_set().contains(x)) by {
                if sel.to_set().contains(x) {
                    let j = choose|j: int| 0 <= j < sel.len() && sel[j] == x;
                    if j > 0 {
                        assert(rest[j - 1] == x);
                    }
                }
                if rest.to_set().contains(x) {
                    let j = choose|j: int| 0 <= j < rest.len() && rest[j] == x;
                    assert(sel[j + 1] == x);
                }
                if x == id {
                    assert(sel[0] == x);
                }
            }
            assert(c.to_set() =~= sel.to_set().filter(|id: u32| known.contains(id) && !existing.contains(id)));
        } else {
            lemma_create_set(rest, known, existing);
            let r = spec_outputs_to_create(rest, known, existing);
            assert(c == r);
            assert forall|x: u32| sel.to_set().contains(x) <==> (x == id || rest.to_set().contains(x)) by {
                if sel.to_set().contains(x) {
                    let j = choose|j: int| 0 <= j < sel.len() && sel[j] == x;
                    if j > 0 {
                        assert(rest[j - 1] == x);
                    }
                }
                if rest.to_set().contains(x) {
                    let j = choose|j: int| 0 <= j < rest.len() && rest[j] == x;
                    assert(sel[j + 1] == x);
                }
                if x == id {
                    assert(sel[0] == x);
                }
            }
            assert(c.to_set() =~= sel.to_set().filter(|id: u32| known.contains(id) && !existing.contains(id)));
        }
    }
}

/// Law: carrying out a plan for a valid selection leaves exactly the selected
/// outputs with a surface: the existing surfaces plus those created, minus
/// those removed.
pub proof fn lemma_plan_covers_selection(
    order: Seq<u32>,
    known: Set<u32>,
    existing: Set<u32>,
    target: WallpaperTargetMonitor,
)
    requires
        spec_selected_outputs(order, known, target) is Some,
    ensures
        ({
            let sel = spec_selected_outputs(order, known, target)->0;
            let created = spec_outputs_to_create(sel, known, existing).to_set();
            let removed = existing.filter(|k: u32| !sel.contains(k));
            existing.union(created).difference(removed) == sel.to_set()
        }),
{
    let sel = spec_selected_outputs(order, known, target)->0;
    lemma_selected_known(order, known, target);
    lemma_create_set(sel, known, existing);
    let created = spec_outputs_to_create(sel, known, existing).to_set();
    let removed = existing.filter(|k: u32| !sel.contains(k));
    assert forall|x: u32| existing.union(created).difference(removed).contains(x) <==> sel.to_set().contains(x) by {
        if sel.to_set().contains(x) {
            let j = choose|j: int| 0 <= j < sel.len() && sel[j] == x;
            assert(known.contains(sel[j]));
            if !existing.contains(x) {
                assert(sel.to_set().filter(|id: u32| known.contains(id) && !existing.contains(id)).contains(x));
            }
        }
    }
    assert(existing.union(created).difference(removed) =~= sel.to_set());
}

/// What to do with the layer surfaces so that exactly the selected outputs have one.
#[derive(Debug)]
pub struct SurfacePlan {
    /// Outputs that get a new surface, in this order.
    pub create: Vec<u32>,
    /// Outputs whose surface goes away.
    pub remove: Vec<u32>,
}

impl SurfacePlan {
    /// Whether the plan changes any surface.
    pub fn touched(&self) -> (res: bool)
        ensures
            res == (self.create@.len() > 0 || self.remove@.len() > 0),
    {
        self.create.len() > 0 || self.remove.len() > 0
    }
}

/// Plans the layer surfaces for the target: without a compositor, a layer
/// shell or a valid selection nothing changes; otherwise every selected output
/// without a surface gets one, and every surface of an output that is not
/// selected is removed.
pub fn plan_surfaces_for_outputs<V, S>(
    has_compositor: bool,
    has_layer_shell: bool,
    order: &Vec<u32>,
    outputs: &HashMap<u32, V>,
    surfaces: &HashMap<u32, S>,
    target: &WallpaperTargetMonitor,
) -> (plan: SurfacePlan)
    ensures
        !has_compositor || !has_layer_shell || spec_selected_outputs(order@, outputs@.dom(), *target) is None
            ==> plan.create@.len() == 0 && plan.remove@.len() == 0,
        has_compositor && has_layer_shell ==> match spec_selected_outputs(order@, outputs@.dom(), *target) {
            None => true,
            Some(sel) => {
                &&& plan.create@ == spec_outputs_to_create(sel, outputs@.dom(), surfaces@.dom())
                &&& plan.remove@.no_duplicates()
                &&& plan.remove@.to_set() == surfaces@.dom().filter(|k: u32| !sel.contains(k))
            },
        },
{
    let empty = SurfacePlan { create: Vec::new(), remove: Vec::new() };
    if !has_compositor || !has_layer_shell {
        return empty;
    }
    let selected = match selected_outputs(order, outputs, target) {
        Some(sel) => sel,
        None => return empty,
    };
    let ghost sel = selected@;
    let ghost known = outputs@.dom();
    let ghost existing = surfaces@.dom();
    let mut create: Vec<u32> = Vec::new();
    let mut i: usize = 0;
    proof {
        assert(create@.to_set() =~= Set::<u32>::empty());
        assert(existing + create@.to_set() =~= existing);
        assert(sel.skip(0) =~= sel);
        assert(create@ + spec_outputs_to_create(sel, known, existing) =~= spec_outputs_to_create(sel, known, existing));
    }
    while i < selected.len()
        invariant
            i <= sel.len(),
            sel == selected@,
            known == outputs@.dom(),
            existing == surfaces@.dom(),
            create@ + spec_outputs_to_create(sel.skip(i as int), known, existing + create@.to_set())
                == spec_outputs_to_create(sel, known, existing),
        decreases sel.len() - i,
    {
        let id = selected[i];
        proof {
            assert(sel.skip(i as int).drop_first() =~= sel.skip(i + 1));
            assert(sel.skip(i as int)[0] == id);
        }
        if outputs.contains_key(&id) && !surfaces.contains_key(&id) && !contains_u32(&create, id) {
            let ghost before = create@;
            create.push(id);
            proof {
                assert(create@.to_set() =~= before.to_set().insert(id)) by {
                    before.lemma_push_to_set_commute(id);
                }
                assert(existing + create@.to_set() =~= (existing + before.to_set()).insert(id));
                assert(create@ =~= before + seq![id]);
                assert((before + seq![id]) + spec_outputs_to_create(sel.skip(i + 1), known, existing + create@.to_set())
                    =~= before + (seq![id] + spec_outputs_to_create(sel.skip(i + 1), known, existing + create@.to_set())));
            }
        }
        i += 1;
    }
    proof {
        assert(sel.skip(sel.len() as int) =~= Seq::<u32>::empty());
        assert(create@ + Seq::<u32>::empty() =~= create@);
    }
    let remove = keys_not_listed(surfaces, &selected);
    SurfacePlan { create, remove }
}

/// The keys of `m` that `listed` does not hold, each once, in no particular order.
pub fn keys_not_listed<S>(m: &HashMap<u32, S>, listed: &Vec<u32>) -> (remove: Vec<u32>)
    ensures
        remove@.no_duplicates(),
        remove@.to_set() == m@.dom().filter(|k: u32| !listed@.contains(k)),
{
    let mut remove: Vec<u32> = Vec::new();
    let ghost ks = vstd::std_specs::hash::spec_keys_iter(m).remaining().unref();
    proof {
        assert(ks.to_set() == m@.dom());
        assert(ks.no_duplicates());
    }
    for k in it: m.keys()
        invariant
            it.seq().unref() == ks,
            ks.no_duplicates(),
            ks.to_set() == m@.dom(),
            remove@.no_duplicates(),
            forall|x: u32| #[trigger] remove@.contains(x) <==> (ks.take(it.index()).contains(x)
                && !listed@.contains(x)),
    {
        let ghost idx = it.index();
        let ghost before = remove@;
        proof {
            assert(*k == ks[idx]);
            lemma_take_next(ks, idx);
        }
        if !contains_u32(listed, *k) {
            proof {
                lemma_push_fresh(before, *k);
            }
            remove.push(*k);
        }
    }
    proof {
        assert(ks.take(ks.len() as int) =~= ks);
        assert(remove@.to_set() =~= m@.dom().filter(|k: u32| !listed@.contains(k))) by {
            assert forall|x: u32| remove@.to_set().contains(x) <==> m@.dom().filter(|k: u32| !listed@.contains(k)).contains(x) by {
                if ks.contains(x) {
                    assert(ks.to_set().contains(x));
                }
                if m@.dom().contains(x) {
                    assert(ks.to_set().contains(x));
                }
            }
        }
    }
    remove
}

/// Whether `v` lists `x`.
pub fn contains_u32(v: &Vec<u32>, x: u32) -> (res: bool)
    ensures
        res == v@.contains(x),
{
    let mut i: usize = 0;
    while i < v.len()
        invariant
            i <= v@.len(),
            forall|j: int| 0 <= j < i ==> v@[j] != x,
        decreases v@.len() - i,
    {
        if v[i] == x {
            proof {
                assert(v@[i as int] == x);
            }
            return true;
        }
        i += 1;
    }
    false
}

/// How many entries of `s` are known outputs.
pub open spec fn known_count(s: Seq<u32>, known: Set<u32>) -> nat
    decreases s.len(),
{
    if s.len() == 0 {
        0
    } else {
        known_count(s.drop_last(), known) + if known.contains(s.last()) { 1nat } else { 0nat }
    }
}

/// The present outputs of an order one longer: those of the shorter order,
/// and the last entry when it is known.
pub proof fn lemma_present_step(order: Seq<u32>, known: Set<u32>)
    requires
        order.len() > 0,
    ensures
        present_outputs(order, known) == (if known.contains(order.last()) {
            present_outputs(order.drop_last(), known).push(order.last())
        } else {
            present_outputs(order.drop_last(), known)
        }),
{
    reveal_with_fuel(Seq::<_>::filter, 1);
}

/// There are as many present outputs as known entries in the order.
pub proof fn lemma_present_len(order: Seq<u32>, known: Set<u32>)
    ensures
        present_outputs(order, known).len() == known_count(order, known),
    decreases order.len(),
{
    if order.len() == 0 {
        assert(present_outputs(order, known) =~= Seq::<u32>::empty()) by {
            reveal_with_fuel(Seq::<_>::filter, 1);
        }
    } else {
        lemma_present_len(order.drop_last(), known);
        lemma_present_step(order, known);
    }
}

/// The `n`-th present output is the entry at the returned position: a known
/// entry with exactly `n` known entries before it.
pub proof fn present_position(order: Seq<u32>, known: Set<u32>, n: int) -> (k: int)
    requires
        0 <= n < present_outputs(order, known).len(),
    ensures
        0 <= k < order.len(),
        order[k] == present_outputs(order, known)[n],
        known.contains(order[k]),
        known_count(order.take(k), known) == n,
    decreases order.len(),
{
    let o = order.drop_last();
    let last = order.last();
    lemma_present_step(order, known);
    lemma_present_len(o, known);
    let po = present_outputs(o, known);
    if n < po.len() {
        let k = present_position(o, known, n);
        assert(order.take(k) =~= o.take(k));
        k
    } else {
        assert(order.take(order.len() - 1) =~= o);
        (order.len() - 1) as int
    }
}

/// Law: `Index(n)` selects exactly the known output that has `n` known
/// outputs before it in the order (so `Index(0)` is the first known output),
/// and nothing when fewer than `n + 1` outputs are known.
pub proof fn lemma_index_selects_nth_known(order: Seq<u32>, known: Set<u32>, n: usize)
    ensures
        n < known_count(order, known) ==> exists|k: int|
            0 <= k < order.len() && known.contains(order[k]) && known_count(order.take(k), known) == n
                && spec_selected_outputs(order, known, WallpaperTargetMonitor::Index(n)) == Some(
                seq![order[k]],
            ),
        n >= known_count(order, known) ==> spec_selected_outputs(order, known, WallpaperTargetMonitor::Index(n))
            is None,
{
    lemma_present_len(order, known);
    if n < known_count(order, known) {
        let k = present_position(order, known, n as int);
        assert(spec_selected_outputs(order, known, WallpaperTargetMonitor::Index(n)) == Some(
            seq![order[k]],
        ));
    }
}

} // verus!
