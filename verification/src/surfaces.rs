//! Bookkeeping of the layer surfaces that the overlay keeps, one per output.
//!
//! `H` stands for the raw handles of a configured surface and `C` for the
//! camera that renders into it; the logic here never looks inside either.
use std::collections::{HashMap, HashSet};
use vstd::prelude::*;
use crate::placement::ScreenPixels;
use crate::target_monitor::{contains_u32, selected_outputs, spec_selected_outputs, WallpaperTargetMonitor};

verus! {

broadcast use vstd::std_specs::hash::group_hash_axioms;

/// A configure event of a layer surface.
#[derive(Clone, Copy, Debug)]
pub struct WaylandSurfaceConfig<H> {
    pub output: u32,
    pub handles: H,
    pub width: u32,
    pub height: u32,
    pub offset_x: i32,
    pub offset_y: i32,
}

/// Logical position and size that the compositor reports for an output.
#[derive(Clone, Copy, Debug, PartialEq, Eq)]
pub struct OutputInfo {
    pub x: i32,
    pub y: i32,
    pub width: i32,
    pub height: i32,
}

/// What the overlay knows of the surface on one output.
#[derive(Clone, Debug)]
pub struct SurfaceDescriptorEntry<H, C> {
    pub output: u32,
    pub handles: Option<H>,
    pub width: u32,
    pub height: u32,
    pub offset_x: i32,
    pub offset_y: i32,
    pub camera: C,
}

/// All surfaces, and a generation that changes whenever one of them does.
#[derive(Clone, Debug)]
pub struct WaylandSurfaceDescriptor<H, C> {
    pub surfaces: Vec<SurfaceDescriptorEntry<H, C>>,
    pub generation: u64,
}

pub open spec fn min_int(a: int, b: int) -> int {
    if a <= b { a } else { b }
}

pub open spec fn max_int(a: int, b: int) -> int {
    if a >= b { a } else { b }
}

/// Right edge of an entry, with the width read as an `i32` as the pixel math does.
pub open spec fn right_edge<H, C>(e: SurfaceDescriptorEntry<H, C>) -> int {
    e.offset_x + (e.width as i32)
}

/// Bottom edge of an entry, with the height read as an `i32`.
pub open spec fn bottom_edge<H, C>(e: SurfaceDescriptorEntry<H, C>) -> int {
    e.offset_y + (e.height as i32)
}

/// `(min_x, min_y, max_x, max_y)` over the entries that have handles.
pub open spec fn spec_bounds<H, C>(s: Seq<SurfaceDescriptorEntry<H, C>>) -> Option<(int, int, int, int)>
    decreases s.len(),
{
    if s.len() == 0 {
        None
    } else {
        let prev = spec_bounds(s.drop_last());
        let e = s.last();
        if e.handles is None {
            prev
        } else {
            match prev {
                None => Some((e.offset_x as int, e.offset_y as int, right_edge(e), bottom_edge(e))),
                Some(b) => Some(
                    (
                        min_int(b.0, e.offset_x as int),
                        min_int(b.1, e.offset_y as int),
                        max_int(b.2, right_edge(e)),
                        max_int(b.3, bottom_edge(e)),
                    ),
                ),
            }
        }
    }
}

/// A machine box equals a mathematical one.
pub open spec fn same_box(t: (i32, i32, i32, i32), b: (int, int, int, int)) -> bool {
    t.0 == b.0 && t.1 == b.1 && t.2 == b.2 && t.3 == b.3
}

/// The pixel arithmetic of the bounds stays within `i32`.
pub open spec fn bounds_fit<H, C>(s: Seq<SurfaceDescriptorEntry<H, C>>) -> bool {
    &&& forall|i: int|
        0 <= i < s.len() && (#[trigger] s[i]).handles is Some ==> i32::MIN <= right_edge(s[i])
            <= i32::MAX && i32::MIN <= bottom_edge(s[i]) <= i32::MAX
    &&& match spec_bounds(s) {
        None => true,
        Some(b) => i32::MIN <= b.2 - b.0 <= i32::MAX && i32::MIN <= b.3 - b.1 <= i32::MAX,
    }
}

/// `(min_x, min_y, width, height)` of the handled surfaces, width and height at least 1.
pub open spec fn spec_overall_bounds<H, C>(s: Seq<SurfaceDescriptorEntry<H, C>>) -> Option<(i32, i32, u32, u32)> {
    match spec_bounds(s) {
        None => None,
        Some(b) => Some(
            (b.0 as i32, b.1 as i32, max_int(b.2 - b.0, 1) as u32, max_int(b.3 - b.1, 1) as u32),
        ),
    }
}

/// `k` is the first index of `s` whose entry belongs to `output`.
pub open spec fn is_first_of_output<H, C>(s: Seq<SurfaceDescriptorEntry<H, C>>, output: u32, k: int) -> bool {
    &&& 0 <= k < s.len()
    &&& s[k].output == output
    &&& forall|j: int| 0 <= j < k ==> (#[trigger] s[j]).output != output
}

/// No entry of `s` belongs to `output`.
pub open spec fn lacks_output<H, C>(s: Seq<SurfaceDescriptorEntry<H, C>>, output: u32) -> bool {
    forall|j: int| 0 <= j < s.len() ==> (#[trigger] s[j]).output != output
}

/// An existing entry after a configure event: everything but the camera comes from the event.
pub open spec fn configured<H, C>(e: SurfaceDescriptorEntry<H, C>, config: WaylandSurfaceConfig<H>) -> SurfaceDescriptorEntry<H, C> {
    SurfaceDescriptorEntry {
        output: config.output,
        handles: Some(config.handles),
        width: config.width,
        height: config.height,
        offset_x: config.offset_x,
        offset_y: config.offset_y,
        camera: e.camera,
    }
}

/// A fresh entry for a configure event of an output not seen before.
pub open spec fn fresh_entry<H, C>(config: WaylandSurfaceConfig<H>, camera: C) -> SurfaceDescriptorEntry<H, C> {
    SurfaceDescriptorEntry {
        output: config.output,
        handles: Some(config.handles),
        width: config.width,
        height: config.height,
        offset_x: config.offset_x,
        offset_y: config.offset_y,
        camera: camera,
    }
}

/// The surfaces after a configure event.
pub open spec fn spec_upsert<H, C>(
    s: Seq<SurfaceDescriptorEntry<H, C>>,
    config: WaylandSurfaceConfig<H>,
    camera: C,
) -> Seq<SurfaceDescriptorEntry<H, C>> {
    if lacks_output(s, config.output) {
        s.push(fresh_entry(config, camera))
    } else {
        let k = choose|k: int| is_first_of_output(s, config.output, k);
        s.update(k, configured(s[k], config))
    }
}

impl<H, C> WaylandSurfaceDescriptor<H, C> {
    /// An empty descriptor at generation 0.
    pub fn new() -> (res: Self)
        ensures
            res.surfaces@.len() == 0,
            res.generation == 0,
    {
        WaylandSurfaceDescriptor { surfaces: Vec::new(), generation: 0 }
    }

    /// Records a configure event: the first entry of the output takes the
    /// event's handles, size and offset (and keeps its camera); without one a
    /// new entry with `camera` is appended.
    pub fn upsert_surface(&mut self, config: WaylandSurfaceConfig<H>, camera: C)
        ensures
            final(self).surfaces@ == spec_upsert(old(self).surfaces@, config, camera),
            final(self).generation == old(self).generation,
    {
        let ghost s0 = self.surfaces@;
        let mut k: usize = 0;
        while k < self.surfaces.len()
            invariant
                self.surfaces@ == s0,
                k <= s0.len(),
                forall|j: int| 0 <= j < k ==> (#[trigger] s0[j]).output != config.output,
            ensures
                self.surfaces@ == s0,
                k <= s0.len(),
                forall|j: int| 0 <= j < k ==> (#[trigger] s0[j]).output != config.output,
                k < s0.len() ==> s0[k as int].output == config.output,
            decreases s0.len() - k,
        {
            if self.surfaces[k].output == config.output {
                break;
            }
            k += 1;
        }
        if k < self.surfaces.len() {
            proof {
                assert(is_first_of_output(s0, config.output, k as int));
                assert(!lacks_output(s0, config.output));
                let c = choose|c: int| is_first_of_output(s0, config.output, c);
                assert(c == k) by {
                    if c < k {
                        assert(s0[c].output != config.output);
                    }
                    if k < c {
                        assert(s0[k as int].output != config.output);
                    }
                }
            }
            self.surfaces[k].handles = Some(config.handles);
            self.surfaces[k].width = config.width;
            self.surfaces[k].height = config.height;
            self.surfaces[k].offset_x = config.offset_x;
            self.surfaces[k].offset_y = config.offset_y;
            proof {
                assert(self.surfaces@ =~= s0.update(k as int, configured(s0[k as int], config)));
            }
        } else {
            self.surfaces.push(
                SurfaceDescriptorEntry {
                    output: config.output,
                    handles: Some(config.handles),
                    width: config.width,
                    height: config.height,
                    offset_x: config.offset_x,
                    offset_y: config.offset_y,
                    camera,
                },
            );
        }
    }

    /// Bounding box `(min_x, min_y, width, height)` of the surfaces that have
    /// handles, `None` when none has; width and height are at least 1.
    pub fn overall_bounds(&self) -> (res: Option<(i32, i32, u32, u32)>)
        requires
            bounds_fit(self.surfaces@),
        ensures
            res == spec_overall_bounds(self.surfaces@),
    {
        let ghost s = self.surfaces@;
        let mut acc: Option<(i32, i32, i32, i32)> = None;
        let mut i: usize = 0;
        while i < self.surfaces.len()
            invariant
                s == self.surfaces@,
                bounds_fit(s),
                i <= s.len(),
                match spec_bounds(s.take(i as int)) {
                    None => acc is None,
                    Some(b) => acc is Some && same_box(acc->0, b),
                },
            decreases s.len() - i,
        {
            proof {
                assert(s.take(i + 1).drop_last() =~= s.take(i as int));
            }
            let e = &self.surfaces[i];
            if e.handles.is_some() {
                let x1 = e.offset_x + e.width as i32;
                let y1 = e.offset_y + e.height as i32;
                acc = match acc {
                    None => Some((e.offset_x, e.offset_y, x1, y1)),
                    Some((a, b, c, d)) => Some(
                        (
                            if e.offset_x < a { e.offset_x } else { a },
                            if e.offset_y < b { e.offset_y } else { b },
                            if x1 > c { x1 } else { c },
                            if y1 > d { y1 } else { d },
                        ),
                    ),
                };
            }
            i += 1;
        }
        proof {
            assert(s.take(s.len() as int) =~= s);
        }
        match acc {
            None => None,
            Some((a, b, c, d)) => {
                let w = c - a;
                let h = d - b;
                let w = if w > 1 { w } else { 1 };
                let h = if h > 1 { h } else { 1 };
                Some((a, b, w as u32, h as u32))
            },
        }
    }

    /// Moves to the next generation, wrapping around at `u64::MAX`.
    pub fn bump_generation(&mut self)
        ensures
            final(self).generation == (if old(self).generation == u64::MAX {
                0
            } else {
                old(self).generation + 1
            }),
            final(self).surfaces@ == old(self).surfaces@,
    {
        self.generation = self.generation.wrapping_add(1);
    }
}

/// An entry after the output-info update: a dirty output with known info
/// takes its position, and its size where the reported size is positive.
pub open spec fn info_updated<H, C>(
    e: SurfaceDescriptorEntry<H, C>,
    info: Map<u32, OutputInfo>,
    dirty: Set<u32>,
) -> SurfaceDescriptorEntry<H, C> {
    if dirty.contains(e.output) && info.contains_key(e.output) {
        let i = info[e.output];
        SurfaceDescriptorEntry {
            offset_x: i.x,
            offset_y: i.y,
            width: if i.width > 0 { i.width as u32 } else { e.width },
            height: if i.height > 0 { i.height as u32 } else { e.height },
            ..e
        }
    } else {
        e
    }
}

/// Every entry after the output-info update.
pub open spec fn info_update_all<H, C>(
    s: Seq<SurfaceDescriptorEntry<H, C>>,
    info: Map<u32, OutputInfo>,
    dirty: Set<u32>,
) -> Seq<SurfaceDescriptorEntry<H, C>> {
    s.map_values(|e: SurfaceDescriptorEntry<H, C>| info_updated(e, info, dirty))
}

/// The entries whose output is listed, in order.
pub open spec fn surfaces_listed<H, C>(s: Seq<SurfaceDescriptorEntry<H, C>>, outputs: Seq<u32>) -> Seq<SurfaceDescriptorEntry<H, C>> {
    s.filter(|e: SurfaceDescriptorEntry<H, C>| outputs.contains(e.output))
}

/// The entries whose output is not listed, in order.
pub open spec fn surfaces_unlisted<H, C>(s: Seq<SurfaceDescriptorEntry<H, C>>, outputs: Seq<u32>) -> Seq<SurfaceDescriptorEntry<H, C>> {
    s.filter(|e: SurfaceDescriptorEntry<H, C>| !outputs.contains(e.output))
}

/// The output-info update changes a field of the entry.
pub open spec fn info_changes<H, C>(
    e: SurfaceDescriptorEntry<H, C>,
    info: Map<u32, OutputInfo>,
    dirty: Set<u32>,
) -> bool {
    let u = info_updated(e, info, dirty);
    u.offset_x != e.offset_x || u.offset_y != e.offset_y || u.width != e.width || u.height
        != e.height
}

/// Applies the latest logical position and size of every dirty output to its
/// surfaces, clears the dirty set, and tells whether any surface changed.
/// With no dirty output nothing happens and `false` comes back.
pub fn apply_output_info_updates<H, C>(
    descriptor: &mut WaylandSurfaceDescriptor<H, C>,
    dirty_outputs: &mut HashSet<u32>,
    output_info: &HashMap<u32, OutputInfo>,
) -> (changed_any: bool)
    ensures
        final(descriptor).generation == old(descriptor).generation,
        old(dirty_outputs)@.is_empty() ==> {
            &&& !changed_any
            &&& final(descriptor).surfaces@ == old(descriptor).surfaces@
            &&& final(dirty_outputs)@ == old(dirty_outputs)@
        },
        !old(dirty_outputs)@.is_empty() ==> {
            &&& final(descriptor).surfaces@ == info_update_all(
                old(descriptor).surfaces@,
                output_info@,
                old(dirty_outputs)@,
            )
            &&& final(dirty_outputs)@ == Set::<u32>::empty()
            &&& changed_any == exists|i: int|
                0 <= i < old(descriptor).surfaces@.len() && #[trigger] info_changes(
                    old(descriptor).surfaces@[i],
                    output_info@,
                    old(dirty_outputs)@,
                )
        },
{
    if dirty_outputs.is_empty() {
        return false;
    }
    let ghost s0 = descriptor.surfaces@;
    let ghost dirty = dirty_outputs@;
    let ghost info = output_info@;
    let mut changed_any = false;
    let mut i: usize = 0;
    while i < descriptor.surfaces.len()
        invariant
            i <= s0.len(),
            descriptor.surfaces@.len() == s0.len(),
            dirty == dirty_outputs@,
            info == output_info@,
            descriptor.generation == old(descriptor).generation,
            s0 == old(descriptor).surfaces@,
            forall|j: int| 0 <= j < i ==> descriptor.surfaces@[j] == #[trigger] info_updated(s0[j], info, dirty),
            forall|j: int| i <= j < s0.len() ==> descriptor.surfaces@[j] == #[trigger] s0[j],
            changed_any == exists|j: int| 0 <= j < i && #[trigger] info_changes(s0[j], info, dirty),
        decreases s0.len() - i,
    {
        let out = descriptor.surfaces[i].output;
        if dirty_outputs.contains(&out) {
            match output_info.get(&out) {
                Some(oi) => {
                    let mut changed = false;
                    if descriptor.surfaces[i].offset_x != oi.x {
                        descriptor.surfaces[i].offset_x = oi.x;
                        changed = true;
                    }
                    if descriptor.surfaces[i].offset_y != oi.y {
                        descriptor.surfaces[i].offset_y = oi.y;
                        changed = true;
                    }
                    if oi.width > 0 && descriptor.surfaces[i].width != oi.width as u32 {
                        descriptor.surfaces[i].width = oi.width as u32;
                        changed = true;
                    }
                    if oi.height > 0 && descriptor.surfaces[i].height != oi.height as u32 {
                        descriptor.surfaces[i].height = oi.height as u32;
                        changed = true;
                    }
                    changed_any = changed_any || changed;
                    proof {
                        assert(changed == info_changes(s0[i as int], info, dirty));
                    }
                },
                None => {},
            }
        }
        proof {
            assert(descriptor.surfaces@[i as int] == info_updated(s0[i as int], info, dirty));
            if changed_any {
                if !(exists|j: int| 0 <= j < i && #[trigger] info_changes(s0[j], info, dirty)) {
                    assert(info_changes(s0[i as int], info, dirty));
                }
            }
        }
        i += 1;
    }
    proof {
        assert(descriptor.surfaces@ =~= info_update_all(s0, info, dirty));
    }
    dirty_outputs.clear();
    changed_any
}

impl<H, C> WaylandSurfaceDescriptor<H, C> {
    /// Index of the first surface of `output`, if there is one.
    pub fn position_of_output(&self, output: u32) -> (res: Option<usize>)
        ensures
            match res {
                Some(k) => is_first_of_output(self.surfaces@, output, k as int),
                None => lacks_output(self.surfaces@, output),
            },
    {
        let mut k: usize = 0;
        while k < self.surfaces.len()
            invariant
                k <= self.surfaces@.len(),
                forall|j: int| 0 <= j < k ==> (#[trigger] self.surfaces@[j]).output != output,
            decreases self.surfaces@.len() - k,
        {
            if self.surfaces[k].output == output {
                return Some(k);
            }
            k += 1;
        }
        None
    }

    /// The output of every surface, in order.
    pub fn outputs(&self) -> (res: Vec<u32>)
        ensures
            res@ == self.surfaces@.map_values(|e: SurfaceDescriptorEntry<H, C>| e.output),
    {
        let mut res: Vec<u32> = Vec::new();
        let mut i: usize = 0;
        while i < self.surfaces.len()
            invariant
                i <= self.surfaces@.len(),
                res@ == self.surfaces@.take(i as int).map_values(|e: SurfaceDescriptorEntry<H, C>| e.output),
            decreases self.surfaces@.len() - i,
        {
            res.push(self.surfaces[i].output);
            proof {
                assert(res@ =~= self.surfaces@.take(i + 1).map_values(|e: SurfaceDescriptorEntry<H, C>| e.output));
            }
            i += 1;
        }
        proof {
            assert(self.surfaces@.take(i as int) =~= self.surfaces@);
        }
        res
    }

    /// Index of the first surface of `output` that has handles, if there is one.
    pub fn configured_entry(&self, output: u32) -> (res: Option<usize>)
        ensures
            match res {
                Some(k) => {
                    &&& k < self.surfaces@.len()
                    &&& self.surfaces@[k as int].output == output
                    &&& self.surfaces@[k as int].handles is Some
                    &&& forall|j: int| 0 <= j < k ==> !((#[trigger] self.surfaces@[j]).output == output
                        && self.surfaces@[j].handles is Some)
                },
                None => forall|j: int| 0 <= j < self.surfaces@.len() ==> !((#[trigger] self.surfaces@[j]).output
                    == output && self.surfaces@[j].handles is Some),
            },
    {
        let mut k: usize = 0;
        while k < self.surfaces.len()
            invariant
                k <= self.surfaces@.len(),
                forall|j: int| 0 <= j < k ==> !((#[trigger] self.surfaces@[j]).output == output
                    && self.surfaces@[j].handles is Some),
            decreases self.surfaces@.len() - k,
        {
            if self.surfaces[k].output == output && self.surfaces[k].handles.is_some() {
                return Some(k);
            }
            k += 1;
        }
        None
    }

    /// Number of surfaces that have handles.
    pub fn handled_count(&self) -> (n: usize)
        ensures
            n == spec_handled_count(self.surfaces@),
    {
        let ghost s = self.surfaces@;
        let mut n: usize = 0;
        let mut i: usize = 0;
        while i < self.surfaces.len()
            invariant
                s == self.surfaces@,
                i <= s.len(),
                n == spec_handled_count(s.take(i as int)),
                n <= i,
            decreases s.len() - i,
        {
            proof {
                assert(s.take(i + 1).drop_last() =~= s.take(i as int));
            }
            if self.surfaces[i].handles.is_some() {
                n += 1;
            }
            i += 1;
        }
        proof {
            assert(s.take(s.len() as int) =~= s);
        }
        n
    }

    /// Takes out, in order, every surface whose output is listed in
    /// `removed` (its output went away), and keeps the others in order.
    pub fn extract_surfaces_of_outputs(&mut self, removed: &Vec<u32>) -> (taken: Vec<SurfaceDescriptorEntry<H, C>>)
        ensures
            final(self).surfaces@ == surfaces_unlisted(old(self).surfaces@, removed@),
            taken@ == surfaces_listed(old(self).surfaces@, removed@),
            final(self).generation == old(self).generation,
    {
        let ghost s0 = self.surfaces@;
        let ghost keep = |e: SurfaceDescriptorEntry<H, C>| !removed@.contains(e.output);
        let ghost take = |e: SurfaceDescriptorEntry<H, C>| removed@.contains(e.output);
        let mut taken: Vec<SurfaceDescriptorEntry<H, C>> = Vec::new();
        let mut i: usize = 0;
        let ghost mut p: int = 0;
        while i < self.surfaces.len()
            invariant
                0 <= p <= s0.len(),
                i <= self.surfaces@.len(),
                self.surfaces@ == s0.take(p).filter(keep) + s0.skip(p),
                i == s0.take(p).filter(keep).len(),
                taken@ == s0.take(p).filter(take),
                self.generation == old(self).generation,
                s0 == old(self).surfaces@,
                keep == (|e: SurfaceDescriptorEntry<H, C>| !removed@.contains(e.output)),
                take == (|e: SurfaceDescriptorEntry<H, C>| removed@.contains(e.output)),
            decreases self.surfaces@.len() - i,
        {
            proof {
                reveal_with_fuel(Seq::<_>::filter, 1);
                assert(s0.take(p + 1).drop_last() =~= s0.take(p));
                assert(self.surfaces@[i as int] == s0[p]);
            }
            let out = self.surfaces[i].output;
            if contains_u32(removed, out) {
                let e = self.surfaces.remove(i);
                taken.push(e);
                proof {
                    assert(self.surfaces@ =~= s0.take(p + 1).filter(keep) + s0.skip(p + 1));
                }
            } else {
                proof {
                    assert(s0.take(p + 1).filter(keep) == s0.take(p).filter(keep).push(s0[p]));
                    assert(self.surfaces@ =~= s0.take(p + 1).filter(keep) + s0.skip(p + 1));
                }
                i += 1;
            }
            proof {
                p = p + 1;
            }
        }
        proof {
            assert(p == s0.len()) by {
                if p < s0.len() {
                    assert(self.surfaces@.len() > i);
                }
            }
            assert(s0.take(p) =~= s0);
            assert(s0.skip(p) =~= Seq::<SurfaceDescriptorEntry<H, C>>::empty());
            assert(self.surfaces@ =~= s0.filter(keep));
            assert(taken@ =~= s0.filter(take));
        }
        taken
    }
}

/// The pixel rectangle of a surface, for placing popups on its screen.
pub fn screen_pixels<H, C>(entry: &SurfaceDescriptorEntry<H, C>) -> (res: ScreenPixels)
    ensures
        res.min_x == entry.offset_x,
        res.min_y == entry.offset_y,
        res.width == entry.width,
        res.height == entry.height,
{
    ScreenPixels { min_x: entry.offset_x, min_y: entry.offset_y, width: entry.width, height: entry.height }
}

/// The 0 based index of a screen: the first position of its output in the
/// output order (taken modulo 2^32).
pub fn screen_index(order: &Vec<u32>, output: u32) -> (res: u32)
    requires
        order@.contains(output),
    ensures
        exists|k: int| {
            &&& 0 <= k < order@.len()
            &&& #[trigger] order@[k] == output
            &&& forall|j: int| 0 <= j < k ==> order@[j] != output
            &&& res == k as u32
        },
{
    let mut k: usize = 0;
    while k < order.len()
        invariant
            k <= order@.len(),
            order@.contains(output),
            forall|j: int| 0 <= j < k ==> order@[j] != output,
        decreases order@.len() - k,
    {
        if order[k] == output {
            return k as u32;
        }
        k += 1;
    }
    proof {
        let j = choose|j: int| 0 <= j < order@.len() && order@[j] == output;
        assert(order@[j] != output);
    }
    0
}

/// Law: the overall bounds contain every surface that has handles.
pub proof fn lemma_bounds_cover<H, C>(s: Seq<SurfaceDescriptorEntry<H, C>>, i: int)
    requires
        0 <= i < s.len(),
        s[i].handles is Some,
    ensures
        spec_bounds(s) matches Some(b) && b.0 <= s[i].offset_x && b.1 <= s[i].offset_y
            && right_edge(s[i]) <= b.2 && bottom_edge(s[i]) <= b.3,
    decreases s.len(),
{
    if i < s.len() - 1 {
        lemma_bounds_cover(s.drop_last(), i);
    }
}

/// Law: the overall bounds are tight: each side is reached by some surface
/// that has handles.
pub proof fn lemma_bounds_tight<H, C>(s: Seq<SurfaceDescriptorEntry<H, C>>)
    requires
        spec_bounds(s) is Some,
    ensures
        ({
            let b = spec_bounds(s)->0;
            &&& exists|i: int| 0 <= i < s.len() && (#[trigger] s[i]).handles is Some && s[i].offset_x == b.0
            &&& exists|i: int| 0 <= i < s.len() && (#[trigger] s[i]).handles is Some && s[i].offset_y == b.1
            &&& exists|i: int| 0 <= i < s.len() && (#[trigger] s[i]).handles is Some && right_edge(s[i]) == b.2
            &&& exists|i: int| 0 <= i < s.len() && (#[trigger] s[i]).handles is Some && bottom_edge(s[i]) == b.3
        }),
    decreases s.len(),
{
    let last = s.len() - 1;
    let p = s.drop_last();
    let b = spec_bounds(s)->0;
    if spec_bounds(p) is Some {
        lemma_bounds_tight(p);
        let pb = spec_bounds(p)->0;
        if s[last].handles is Some {
            if b.0 == s[last].offset_x { assert(s[last].handles is Some && s[last].offset_x == b.0); } else {
                let i = choose|i: int| 0 <= i < p.len() && (#[trigger] p[i]).handles is Some && p[i].offset_x == pb.0;
                assert(s[i] == p[i]);
            }
            if b.1 == s[last].offset_y { assert(s[last].handles is Some && s[last].offset_y == b.1); } else {
                let i = choose|i: int| 0 <= i < p.len() && (#[trigger] p[i]).handles is Some && p[i].offset_y == pb.1;
                assert(s[i] == p[i]);
            }
            if b.2 == right_edge(s[last]) { assert(s[last].handles is Some && right_edge(s[last]) == b.2); } else {
                let i = choose|i: int| 0 <= i < p.len() && (#[trigger] p[i]).handles is Some && right_edge(p[i]) == pb.2;
                assert(s[i] == p[i]);
            }
            if b.3 == bottom_edge(s[last]) { assert(s[last].handles is Some && bottom_edge(s[last]) == b.3); } else {
                let i = choose|i: int| 0 <= i < p.len() && (#[trigger] p[i]).handles is Some && bottom_edge(p[i]) == pb.3;
                assert(s[i] == p[i]);
            }
        } else {
            let i0 = choose|i: int| 0 <= i < p.len() && (#[trigger] p[i]).handles is Some && p[i].offset_x == pb.0;
            assert(s[i0] == p[i0]);
            let i1 = choose|i: int| 0 <= i < p.len() && (#[trigger] p[i]).handles is Some && p[i].offset_y == pb.1;
            assert(s[i1] == p[i1]);
            let i2 = choose|i: int| 0 <= i < p.len() && (#[trigger] p[i]).handles is Some && right_edge(p[i]) == pb.2;
            assert(s[i2] == p[i2]);
            let i3 = choose|i: int| 0 <= i < p.len() && (#[trigger] p[i]).handles is Some && bottom_edge(p[i]) == pb.3;
            assert(s[i3] == p[i3]);
        }
    } else {
        assert(s[last].handles is Some);
    }
}

/// Law: a configure event repeated (with any camera) changes nothing more.
pub proof fn lemma_upsert_idempotent<H, C>(
    s: Seq<SurfaceDescriptorEntry<H, C>>,
    config: WaylandSurfaceConfig<H>,
    camera: C,
    camera2: C,
)
    ensures
        spec_upsert(spec_upsert(s, config, camera), config, camera2) == spec_upsert(s, config, camera),
{
    let s1 = spec_upsert(s, config, camera);
    if lacks_output(s, config.output) {
        let k = s.len() as int;
        assert(is_first_of_output(s1, config.output, k));
        assert(!lacks_output(s1, config.output));
        let c = choose|c: int| is_first_of_output(s1, config.output, c);
        lemma_first_unique(s1, config.output, c, k);
        assert(spec_upsert(s1, config, camera2) =~= s1);
    } else {
        lemma_first_exists(s, config.output);
        let k = choose|k: int| is_first_of_output(s, config.output, k);
        assert(is_first_of_output(s1, config.output, k));
        assert(!lacks_output(s1, config.output));
        let c = choose|c: int| is_first_of_output(s1, config.output, c);
        lemma_first_unique(s1, config.output, c, k);
        assert(spec_upsert(s1, config, camera2) =~= s1);
    }
}

/// Law: after a configure event the output has a surface, its first surface
/// carries the event's handles, size and offset, and the other surfaces are
/// unchanged.
pub proof fn lemma_upsert_configures<H, C>(
    s: Seq<SurfaceDescriptorEntry<H, C>>,
    config: WaylandSurfaceConfig<H>,
    camera: C,
)
    ensures
        exists|k: int| {
            &&& #[trigger] is_first_of_output(spec_upsert(s, config, camera), config.output, k)
            &&& spec_upsert(s, config, camera)[k].handles == Some(config.handles)
            &&& spec_upsert(s, config, camera)[k].width == config.width
            &&& spec_upsert(s, config, camera)[k].height == config.height
            &&& spec_upsert(s, config, camera)[k].offset_x == config.offset_x
            &&& spec_upsert(s, config, camera)[k].offset_y == config.offset_y
            &&& forall|j: int| 0 <= j < s.len() && j != k ==> spec_upsert(s, config, camera)[j] == #[trigger] s[j]
        },
{
    let s1 = spec_upsert(s, config, camera);
    if lacks_output(s, config.output) {
        assert(is_first_of_output(s1, config.output, s.len() as int));
    } else {
        lemma_first_exists(s, config.output);
        let k = choose|k: int| is_first_of_output(s, config.output, k);
        assert(is_first_of_output(s1, config.output, k));
    }
}

/// Law: applying the same output information twice is the same as once.
pub proof fn lemma_info_update_idempotent<H, C>(
    s: Seq<SurfaceDescriptorEntry<H, C>>,
    info: Map<u32, OutputInfo>,
    dirty: Set<u32>,
)
    ensures
        info_update_all(info_update_all(s, info, dirty), info, dirty) == info_update_all(s, info, dirty),
        forall|i: int| 0 <= i < s.len() ==> !#[trigger] info_changes(info_update_all(s, info, dirty)[i], info, dirty),
{
    assert(info_update_all(info_update_all(s, info, dirty), info, dirty) =~= info_update_all(s, info, dirty));
}

/// An output with a surface has a first surface.
pub proof fn lemma_first_exists<H, C>(s: Seq<SurfaceDescriptorEntry<H, C>>, output: u32)
    requires
        !lacks_output(s, output),
    ensures
        exists|k: int| is_first_of_output(s, output, k),
{
    let j = choose|j: int| 0 <= j < s.len() && (#[trigger] s[j]).output == output;
    lemma_first_exists_below(s, output, j);
}

proof fn lemma_first_exists_below<H, C>(s: Seq<SurfaceDescriptorEntry<H, C>>, output: u32, j: int)
    requires
        0 <= j < s.len(),
        s[j].output == output,
    ensures
        exists|k: int| is_first_of_output(s, output, k),
    decreases j,
{
    if exists|i: int| 0 <= i < j && (#[trigger] s[i]).output == output {
        let i = choose|i: int| 0 <= i < j && (#[trigger] s[i]).output == output;
        lemma_first_exists_below(s, output, i);
    } else {
        assert(is_first_of_output(s, output, j));
    }
}

/// There is only one first surface of an output.
pub proof fn lemma_first_unique<H, C>(s: Seq<SurfaceDescriptorEntry<H, C>>, output: u32, k1: int, k2: int)
    requires
        is_first_of_output(s, output, k1),
        is_first_of_output(s, output, k2),
    ensures
        k1 == k2,
{
    if k1 < k2 {
        assert(s[k1].output != output);
    }
    if k2 < k1 {
        assert(s[k2].output != output);
    }
}

/// Number of entries that have handles.
pub open spec fn spec_handled_count<H, C>(s: Seq<SurfaceDescriptorEntry<H, C>>) -> nat
    decreases s.len(),
{
    if s.len() == 0 {
        0
    } else {
        spec_handled_count(s.drop_last()) + if s.last().handles is Some { 1nat } else { 0nat }
    }
}

/// The first surface of `output` is configured and has a positive size.
pub open spec fn entry_ready<H, C>(s: Seq<SurfaceDescriptorEntry<H, C>>, output: u32) -> bool {
    exists|k: int|
        #[trigger] is_first_of_output(s, output, k) && s[k].handles is Some && s[k].width > 0
            && s[k].height > 0
}

/// Every selected output has a ready surface and, when all outputs are
/// targeted, every known output has a configured surface.
pub open spec fn spec_ready<H, C>(
    s: Seq<SurfaceDescriptorEntry<H, C>>,
    order: Seq<u32>,
    known: Set<u32>,
    target: WallpaperTargetMonitor,
) -> bool {
    match spec_selected_outputs(order, known, target) {
        None => false,
        Some(sel) => {
            &&& forall|j: int| 0 <= j < sel.len() ==> entry_ready(s, #[trigger] sel[j])
            &&& !(target is All && spec_handled_count(s) < known.len())
        },
    }
}

/// Whether every selected output has a ready surface and, when all outputs
/// are targeted, every known output has a configured surface.
pub fn targets_ready<H, C, V>(
    descriptor: &WaylandSurfaceDescriptor<H, C>,
    order: &Vec<u32>,
    outputs: &HashMap<u32, V>,
    target: &WallpaperTargetMonitor,
) -> (res: bool)
    ensures
        res == spec_ready(descriptor.surfaces@, order@, outputs@.dom(), *target),
{
    let ghost s = descriptor.surfaces@;
    let selected = match selected_outputs(order, outputs, target) {
        Some(sel) => sel,
        None => return false,
    };
    assert(spec_selected_outputs(order@, outputs@.dom(), *target) == Some(selected@));
    let mut j: usize = 0;
    while j < selected.len()
        invariant
            j <= selected@.len(),
            s == descriptor.surfaces@,
            spec_selected_outputs(order@, outputs@.dom(), *target) == Some(selected@),
            forall|t: int| 0 <= t < j ==> entry_ready(s, #[trigger] selected@[t]),
        decreases selected@.len() - j,
    {
        let ready = match descriptor.position_of_output(selected[j]) {
            Some(k) => {
                let e = &descriptor.surfaces[k];
                let r = e.handles.is_some() && e.width > 0 && e.height > 0;
                proof {
                    if entry_ready(s, selected@[j as int]) {
                        let k2 = choose|k2: int|
                            #[trigger] is_first_of_output(s, selected@[j as int], k2)
                                && s[k2].handles is Some && s[k2].width > 0 && s[k2].height > 0;
                        lemma_first_unique(s, selected@[j as int], k as int, k2);
                    }
                }
                r
            },
            None => {
                proof {
                    if entry_ready(s, selected@[j as int]) {
                        let k2 = choose|k2: int|
                            #[trigger] is_first_of_output(s, selected@[j as int], k2)
                                && s[k2].handles is Some && s[k2].width > 0 && s[k2].height > 0;
                        assert(s[k2].output == selected@[j as int]);
                    }
                }
                false
            },
        };
        assert(ready || !entry_ready(s, selected@[j as int]));
        if !ready {
            assert(!spec_ready(s, order@, outputs@.dom(), *target)) by {
                if spec_ready(s, order@, outputs@.dom(), *target) {
                    let sel = spec_selected_outputs(order@, outputs@.dom(), *target)->0;
                    assert(sel == selected@);
                    assert(entry_ready(s, sel[j as int]));
                }
            }
            return false;
        }
        j += 1;
    }
    let all = match target {
        WallpaperTargetMonitor::All => true,
        _ => false,
    };
    !(all && descriptor.handled_count() < outputs.len())
}

/// The overall bounds of the surfaces once the targeted outputs are all ready,
/// else `None`.
pub fn ready_bounds<H, C, V>(
    descriptor: &WaylandSurfaceDescriptor<H, C>,
    order: &Vec<u32>,
    outputs: &HashMap<u32, V>,
    target: &WallpaperTargetMonitor,
) -> (res: Option<(i32, i32, u32, u32)>)
    requires
        spec_ready(descriptor.surfaces@, order@, outputs@.dom(), *target) ==> bounds_fit(
            descriptor.surfaces@,
        ),
    ensures
        res == (if spec_ready(descriptor.surfaces@, order@, outputs@.dom(), *target) {
            spec_overall_bounds(descriptor.surfaces@)
        } else {
            None
        }),
{
    if targets_ready(descriptor, order, outputs, target) {
        descriptor.overall_bounds()
    } else {
        None
    }
}

/// The surfaces after a batch of configure events, each with the camera
/// that was spawned for it.
pub open spec fn spec_upsert_all<H, C>(
    s: Seq<SurfaceDescriptorEntry<H, C>>,
    configs: Seq<(WaylandSurfaceConfig<H>, C)>,
) -> Seq<SurfaceDescriptorEntry<H, C>>
    decreases configs.len(),
{
    if configs.len() == 0 {
        s
    } else {
        spec_upsert_all(spec_upsert(s, configs[0].0, configs[0].1), configs.drop_first())
    }
}

/// The cameras of a run of entries.
pub open spec fn cameras_of<H, C>(s: Seq<SurfaceDescriptorEntry<H, C>>) -> Seq<C> {
    s.map_values(|e: SurfaceDescriptorEntry<H, C>| e.camera)
}

/// The surfaces after removal and configure events, before output info applies.
pub open spec fn frame_configured<H, C>(
    s0: Seq<SurfaceDescriptorEntry<H, C>>,
    removed: Seq<u32>,
    configs: Seq<(WaylandSurfaceConfig<H>, C)>,
) -> Seq<SurfaceDescriptorEntry<H, C>> {
    spec_upsert_all(if removed.len() > 0 { surfaces_unlisted(s0, removed) } else { s0 }, configs)
}

/// The output info changes some surface in this frame.
pub open spec fn frame_changed<H, C>(
    s0: Seq<SurfaceDescriptorEntry<H, C>>,
    removed: Seq<u32>,
    configs: Seq<(WaylandSurfaceConfig<H>, C)>,
    info: Map<u32, OutputInfo>,
    dirty: Set<u32>,
) -> bool {
    let s2 = frame_configured(s0, removed, configs);
    !dirty.is_empty() && exists|i: int| 0 <= i < s2.len() && #[trigger] info_changes(s2[i], info, dirty)
}

/// The surfaces at the end of the frame.
pub open spec fn frame_surfaces<H, C>(
    s0: Seq<SurfaceDescriptorEntry<H, C>>,
    removed: Seq<u32>,
    configs: Seq<(WaylandSurfaceConfig<H>, C)>,
    info: Map<u32, OutputInfo>,
    dirty: Set<u32>,
) -> Seq<SurfaceDescriptorEntry<H, C>> {
    let s2 = frame_configured(s0, removed, configs);
    if dirty.is_empty() { s2 } else { info_update_all(s2, info, dirty) }
}

/// What the frame's event handling asks the caller to do.
#[derive(Debug)]
pub struct EventFrameOutcome<C> {
    /// Cameras whose entries left the descriptor; they are despawned.
    pub despawn: Vec<C>,
    /// Output positions or sizes changed: every camera's transform is recomputed.
    pub refresh_transforms: bool,
    /// Something changed, so the generation moved on.
    pub touched: bool,
}

impl<H, C> WaylandSurfaceDescriptor<H, C> {
    /// Drops every surface and moves to the next generation, as when the
    /// connection to the compositor fails.
    pub fn close_all(&mut self)
        ensures
            final(self).surfaces@.len() == 0,
            final(self).generation == (if old(self).generation == u64::MAX {
                0
            } else {
                old(self).generation + 1
            }),
    {
        self.surfaces.clear();
        self.bump_generation();
    }

    /// Whether the pixel arithmetic of the bounds stays within `i32`.
    pub fn bounds_fit_exec(&self) -> (res: bool)
        ensures
            res == bounds_fit(self.surfaces@),
    {
        let ghost s = self.surfaces@;
        let mut acc: Option<(i32, i32, i32, i32)> = None;
        let mut i: usize = 0;
        while i < self.surfaces.len()
            invariant
                s == self.surfaces@,
                i <= s.len(),
                forall|j: int|
                    0 <= j < i && (#[trigger] s[j]).handles is Some ==> i32::MIN <= right_edge(s[j])
                        <= i32::MAX && i32::MIN <= bottom_edge(s[j]) <= i32::MAX,
                match spec_bounds(s.take(i as int)) {
                    None => acc is None,
                    Some(b) => acc is Some && same_box(acc->0, b),
                },
            decreases s.len() - i,
        {
            proof {
                assert(s.take(i + 1).drop_last() =~= s.take(i as int));
            }
            let e = &self.surfaces[i];
            if e.handles.is_some() {
                let x1 = e.offset_x as i64 + e.width as i32 as i64;
                let y1 = e.offset_y as i64 + e.height as i32 as i64;
                if x1 < i32::MIN as i64 || x1 > i32::MAX as i64 || y1 < i32::MIN as i64 || y1
                    > i32::MAX as i64 {
                    return false;
                }
                let x1 = x1 as i32;
                let y1 = y1 as i32;
                acc = match acc {
                    None => Some((e.offset_x, e.offset_y, x1, y1)),
                    Some((a, b, c, d)) => Some(
                        (
                            if e.offset_x < a { e.offset_x } else { a },
                            if e.offset_y < b { e.offset_y } else { b },
                            if x1 > c { x1 } else { c },
                            if y1 > d { y1 } else { d },
                        ),
                    ),
                };
            }
            i += 1;
        }
        proof {
            assert(s.take(s.len() as int) =~= s);
        }
        match acc {
            None => true,
            Some((a, b, c, d)) => {
                let w = c as i64 - a as i64;
                let h = d as i64 - b as i64;
                i32::MIN as i64 <= w && w <= i32::MAX as i64 && i32::MIN as i64 <= h && h
                    <= i32::MAX as i64
            },
        }
    }
}

/// Folds one frame of compositor events into the descriptor: the surfaces of
/// the outputs in `removed` (outputs that went away) are taken out and their
/// cameras handed back to be despawned, every configure event is
/// recorded with the camera spawned for it, the dirty outputs' positions and
/// sizes are applied, and the generation moves on when anything changed.
pub fn apply_event_frame<H, C>(
    descriptor: &mut WaylandSurfaceDescriptor<H, C>,
    plan_touched: bool,
    removed: &Vec<u32>,
    configs: Vec<(WaylandSurfaceConfig<H>, C)>,
    dirty_outputs: &mut HashSet<u32>,
    output_info: &HashMap<u32, OutputInfo>,
) -> (out: EventFrameOutcome<C>)
    ensures
        out.despawn@ == (if removed@.len() > 0 {
            cameras_of(surfaces_listed(old(descriptor).surfaces@, removed@))
        } else {
            Seq::empty()
        }),
        final(descriptor).surfaces@ == frame_surfaces(
            old(descriptor).surfaces@,
            removed@,
            configs@,
            output_info@,
            old(dirty_outputs)@,
        ),
        out.refresh_transforms == frame_changed(
            old(descriptor).surfaces@,
            removed@,
            configs@,
            output_info@,
            old(dirty_outputs)@,
        ),
        out.touched == (plan_touched || removed@.len() > 0 || configs@.len() > 0
            || out.refresh_transforms),
        final(descriptor).generation == (if !out.touched {
            old(descriptor).generation as int
        } else if old(descriptor).generation == u64::MAX {
            0
        } else {
            old(descriptor).generation + 1
        }),
        old(dirty_outputs)@.is_empty() ==> final(dirty_outputs)@ == old(dirty_outputs)@,
        !old(dirty_outputs)@.is_empty() ==> final(dirty_outputs)@ == Set::<u32>::empty(),
{
    let ghost s0 = descriptor.surfaces@;
    let mut touched = plan_touched;
    let mut despawn: Vec<C> = Vec::new();
    if removed.len() > 0 {
        let mut taken = descriptor.extract_surfaces_of_outputs(removed);
        let ghost t0 = taken@;
        while taken.len() > 0
            invariant
                despawn@ + cameras_of(taken@) == cameras_of(t0),
            decreases taken@.len(),
        {
            let ghost before = taken@;
            let e = taken.remove(0);
            despawn.push(e.camera);
            proof {
                assert(cameras_of(before) =~= seq![e.camera] + cameras_of(taken@));
                assert(despawn@ + cameras_of(taken@) =~= (despawn@.drop_last() + seq![e.camera])
                    + cameras_of(taken@));
            }
        }
        proof {
            assert(despawn@ + cameras_of(taken@) =~= despawn@);
        }
        touched = true;
    }
    let ghost s1 = descriptor.surfaces@;
    let ghost c0 = configs@;
    let mut configs = configs;
    if configs.len() > 0 {
        touched = true;
    }
    while configs.len() > 0
        invariant
            spec_upsert_all(descriptor.surfaces@, configs@) == spec_upsert_all(s1, c0),
            descriptor.generation == old(descriptor).generation,
        decreases configs@.len(),
    {
        let ghost before = configs@;
        let (config, camera) = configs.remove(0);
        proof {
            assert(configs@ =~= before.drop_first());
        }
        descriptor.upsert_surface(config, camera);
    }
    proof {
        assert(spec_upsert_all(descriptor.surfaces@, configs@) == descriptor.surfaces@);
    }
    let ghost s2 = descriptor.surfaces@;
    assert(s2 == frame_configured(s0, removed@, c0));
    let changed = apply_output_info_updates(descriptor, dirty_outputs, output_info);
    assert(changed == frame_changed(s0, removed@, c0, output_info@, old(dirty_outputs)@));
    if changed {
        touched = true;
    }
    if touched {
        descriptor.bump_generation();
    }
    EventFrameOutcome { despawn, refresh_transforms: changed, touched }
}

/// Law: a frame that removes outputs, with no configure event and no output
/// information to apply, leaves no surface of a removed output, keeps every
/// surface of the other outputs, and hands back exactly the cameras of the
/// surfaces it dropped.
pub proof fn lemma_frame_drops_removed_outputs<H, C>(
    s0: Seq<SurfaceDescriptorEntry<H, C>>,
    removed: Seq<u32>,
    info: Map<u32, OutputInfo>,
)
    requires
        removed.len() > 0,
    ensures
        ({
            let s = frame_surfaces(s0, removed, Seq::empty(), info, Set::empty());
            &&& forall|i: int| 0 <= i < s.len() ==> !removed.contains(#[trigger] s[i].output)
            &&& forall|i: int|
                0 <= i < s0.len() && !removed.contains(s0[i].output) ==> s.contains(#[trigger] s0[i])
            &&& forall|i: int|
                0 <= i < s0.len() && removed.contains(s0[i].output) ==> !s.contains(#[trigger] s0[i])
        }),
        forall|i: int|
            0 <= i < s0.len() && removed.contains(s0[i].output) ==> surfaces_listed(s0, removed).contains(
                #[trigger] s0[i],
            ),
{
    broadcast use Seq::lemma_filter_pred, Seq::lemma_filter_contains;

    let keep = |e: SurfaceDescriptorEntry<H, C>| !removed.contains(e.output);
    let take = |e: SurfaceDescriptorEntry<H, C>| removed.contains(e.output);
    let s = frame_surfaces(s0, removed, Seq::empty(), info, Set::empty());
    assert(s == s0.filter(keep));
    assert forall|i: int| 0 <= i < s.len() implies !removed.contains(#[trigger] s[i].output) by {
        assert(keep(s0.filter(keep)[i]));
    }
    assert forall|i: int| 0 <= i < s0.len() && !removed.contains(s0[i].output) implies s.contains(
        #[trigger] s0[i],
    ) by {
        assert(keep(s0[i]));
    }
    assert forall|i: int| 0 <= i < s0.len() && removed.contains(s0[i].output) implies !s.contains(
        #[trigger] s0[i],
    ) by {
        if s.contains(s0[i]) {
            let j = choose|j: int| 0 <= j < s.len() && s[j] == s0[i];
            assert(keep(s0.filter(keep)[j]));
        }
    }
    assert forall|i: int| 0 <= i < s0.len() && removed.contains(s0[i].output) implies surfaces_listed(
        s0,
        removed,
    ).contains(#[trigger] s0[i]) by {
        assert(take(s0[i]));
        assert(surfaces_listed(s0, removed) == s0.filter(take));
    }
}

/// Law: when the targets are ready, the first surface of every selected
/// output is configured (it has handles) and has a positive width and
/// height, so no empty surface is ever counted as ready.
pub proof fn lemma_ready_surfaces_are_sized<H, C>(
    s: Seq<SurfaceDescriptorEntry<H, C>>,
    order: Seq<u32>,
    known: Set<u32>,
    target: WallpaperTargetMonitor,
    output: u32,
    k: int,
)
    requires
        spec_ready(s, order, known, target),
        spec_selected_outputs(order, known, target) matches Some(sel) && sel.contains(output),
        0 <= k < s.len(),
        s[k].output == output,
        forall|j: int| 0 <= j < k ==> s[j].output != output,
    ensures
        s[k].handles is Some,
        s[k].width > 0,
        s[k].height > 0,
{
    let sel = spec_selected_outputs(order, known, target)->0;
    let j = choose|j: int| 0 <= j < sel.len() && sel[j] == output;
    assert(entry_ready(s, sel[j]));
    let k2 = choose|k2: int|
        #[trigger] is_first_of_output(s, output, k2) && s[k2].handles is Some && s[k2].width > 0
            && s[k2].height > 0;
    assert(is_first_of_output(s, output, k));
    lemma_first_unique(s, output, k, k2);
}

/// Law: bounds are only published for ready targets, and then the first
/// surface of every selected output has handles and a positive size.
pub proof fn lemma_published_bounds_have_sized_surfaces<H, C>(
    s: Seq<SurfaceDescriptorEntry<H, C>>,
    order: Seq<u32>,
    known: Set<u32>,
    target: WallpaperTargetMonitor,
    output: u32,
    k: int,
)
    requires
        (if spec_ready(s, order, known, target) { spec_overall_bounds(s) } else { None::<(i32, i32, u32, u32)> }) is Some,
        spec_selected_outputs(order, known, target) matches Some(sel) && sel.contains(output),
        0 <= k < s.len(),
        s[k].output == output,
        forall|j: int| 0 <= j < k ==> s[j].output != output,
    ensures
        s[k].handles is Some,
        s[k].width > 0,
        s[k].height > 0,
{
    lemma_ready_surfaces_are_sized(s, order, known, target, output, k);
}

} // verus!
