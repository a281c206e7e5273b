use std::collections::{HashMap, HashSet};

use wayland_overlay_media_viewer::surfaces::{
    apply_event_frame, apply_output_info_updates, ready_bounds, OutputInfo, SurfaceDescriptorEntry,
    WaylandSurfaceConfig, WaylandSurfaceDescriptor,
};
use wayland_overlay_media_viewer::placement::ScreenPixels;
use wayland_overlay_media_viewer::surfaces::{screen_index, screen_pixels, targets_ready};
use wayland_overlay_media_viewer::target_monitor::WallpaperTargetMonitor;

type Desc = WaylandSurfaceDescriptor<u8, &'static str>;

fn config(output: u32, w: u32, h: u32, x: i32, y: i32) -> WaylandSurfaceConfig<u8> {
    WaylandSurfaceConfig { output, handles: output as u8, width: w, height: h, offset_x: x, offset_y: y }
}

fn entry(output: u32, handles: Option<u8>, w: u32, h: u32, x: i32, y: i32, cam: &'static str) -> SurfaceDescriptorEntry<u8, &'static str> {
    SurfaceDescriptorEntry { output, handles, width: w, height: h, offset_x: x, offset_y: y, camera: cam }
}

fn desc(entries: Vec<SurfaceDescriptorEntry<u8, &'static str>>) -> Desc {
    WaylandSurfaceDescriptor { surfaces: entries, generation: 5 }
}

#[test]
fn new_descriptor_is_empty() {
    let d: Desc = WaylandSurfaceDescriptor::new();
    assert!(d.surfaces.is_empty());
    assert_eq!(d.generation, 0);
}

#[test]
fn upsert_appends_new_output() {
    let mut d: Desc = WaylandSurfaceDescriptor::new();
    d.upsert_surface(config(3, 800, 600, 10, 20), "cam3");
    assert_eq!(d.surfaces.len(), 1);
    let e = &d.surfaces[0];
    assert_eq!((e.output, e.handles, e.width, e.height, e.offset_x, e.offset_y, e.camera), (3, Some(3), 800, 600, 10, 20, "cam3"));
    assert_eq!(d.generation, 0);
}

#[test]
fn upsert_updates_first_entry_and_keeps_camera() {
    let mut d = desc(vec![entry(1, None, 1, 1, 0, 0, "a"), entry(2, None, 1, 1, 0, 0, "b"), entry(2, None, 9, 9, 9, 9, "c")]);
    d.upsert_surface(config(2, 1024, 768, -5, 7), "new");
    assert_eq!(d.surfaces.len(), 3);
    let e = &d.surfaces[1];
    assert_eq!((e.handles, e.width, e.height, e.offset_x, e.offset_y, e.camera), (Some(2), 1024, 768, -5, 7, "b"));
    assert_eq!(d.surfaces[2].width, 9);
    assert_eq!(d.surfaces[0].camera, "a");
}

#[test]
fn repeated_configure_changes_nothing() {
    let mut d = desc(vec![entry(1, None, 1, 1, 0, 0, "a")]);
    d.upsert_surface(config(4, 10, 20, 1, 2), "x");
    let once: Vec<_> = d.surfaces.iter().map(|e| (e.output, e.handles, e.width, e.height, e.offset_x, e.offset_y, e.camera)).collect();
    d.upsert_surface(config(4, 10, 20, 1, 2), "y");
    let twice: Vec<_> = d.surfaces.iter().map(|e| (e.output, e.handles, e.width, e.height, e.offset_x, e.offset_y, e.camera)).collect();
    assert_eq!(once, twice);
}

#[test]
fn overall_bounds_of_two_screens() {
    let d = desc(vec![entry(1, Some(1), 1920, 1080, 0, 0, "a"), entry(2, Some(2), 1280, 1024, 1920, -100, "b")]);
    assert_eq!(d.overall_bounds(), Some((0, -100, 3200, 1180)));
}

#[test]
fn overall_bounds_skip_unconfigured_surfaces() {
    let d = desc(vec![entry(1, None, 5000, 5000, -9000, -9000, "a"), entry(2, Some(2), 100, 50, 10, 20, "b")]);
    assert_eq!(d.overall_bounds(), Some((10, 20, 100, 50)));
    let none = desc(vec![entry(1, None, 5, 5, 0, 0, "a")]);
    assert_eq!(none.overall_bounds(), None);
}

#[test]
fn overall_bounds_are_at_least_one_pixel() {
    let d = desc(vec![entry(1, Some(1), 0, 0, 4, 4, "a")]);
    assert_eq!(d.overall_bounds(), Some((4, 4, 1, 1)));
}

#[test]
fn bounds_cover_every_configured_surface() {
    let d = desc(vec![
        entry(1, Some(1), 300, 200, 50, 60, "a"),
        entry(2, Some(2), 10, 500, -20, 0, "b"),
        entry(3, Some(3), 700, 10, 100, 900, "c"),
    ]);
    let (x, y, w, h) = d.overall_bounds().unwrap();
    for e in &d.surfaces {
        assert!(x <= e.offset_x && y <= e.offset_y);
        assert!(e.offset_x + e.width as i32 <= x + w as i32);
        assert!(e.offset_y + e.height as i32 <= y + h as i32);
    }
    assert_eq!((x, y, w, h), (-20, 0, 820, 910));
}

#[test]
fn bounds_fit_detects_overflow() {
    let ok = desc(vec![entry(1, Some(1), 100, 100, 0, 0, "a")]);
    assert!(ok.bounds_fit_exec());
    let right = desc(vec![entry(1, Some(1), 100, 100, i32::MAX - 10, 0, "a")]);
    assert!(!right.bounds_fit_exec());
    let wide = desc(vec![entry(1, Some(1), 10, 10, i32::MIN, 0, "a"), entry(2, Some(2), 10, 10, i32::MAX - 20, 0, "b")]);
    assert!(!wide.bounds_fit_exec());
    let unconfigured = desc(vec![entry(1, None, 100, 100, i32::MAX, 0, "a")]);
    assert!(unconfigured.bounds_fit_exec());
}

#[test]
fn bump_generation_wraps() {
    let mut d = desc(vec![]);
    d.bump_generation();
    assert_eq!(d.generation, 6);
    d.generation = u64::MAX;
    d.bump_generation();
    assert_eq!(d.generation, 0);
}

#[test]
fn close_all_drops_surfaces() {
    let mut d = desc(vec![entry(1, Some(1), 1, 1, 0, 0, "a")]);
    d.close_all();
    assert!(d.surfaces.is_empty());
    assert_eq!(d.generation, 6);
}

#[test]
fn output_info_without_dirty_outputs_changes_nothing() {
    let mut d = desc(vec![entry(1, Some(1), 10, 10, 0, 0, "a")]);
    let mut dirty = HashSet::new();
    let info: HashMap<u32, OutputInfo> = [(1, OutputInfo { x: 5, y: 5, width: 20, height: 20 })].into_iter().collect();
    assert!(!apply_output_info_updates(&mut d, &mut dirty, &info));
    assert_eq!((d.surfaces[0].offset_x, d.surfaces[0].width), (0, 10));
}

#[test]
fn output_info_updates_dirty_outputs() {
    let mut d = desc(vec![entry(1, Some(1), 10, 10, 0, 0, "a"), entry(2, Some(2), 10, 10, 0, 0, "b"), entry(3, Some(3), 10, 10, 0, 0, "c")]);
    let mut dirty: HashSet<u32> = [1, 2].into_iter().collect();
    let info: HashMap<u32, OutputInfo> = [
        (1, OutputInfo { x: 100, y: 200, width: 0, height: 30 }),
        (3, OutputInfo { x: 9, y: 9, width: 9, height: 9 }),
    ]
    .into_iter()
    .collect();
    assert!(apply_output_info_updates(&mut d, &mut dirty, &info));
    assert!(dirty.is_empty());
    let e = &d.surfaces[0];
    assert_eq!((e.offset_x, e.offset_y, e.width, e.height), (100, 200, 10, 30));
    assert_eq!((d.surfaces[1].offset_x, d.surfaces[1].width), (0, 10));
    assert_eq!((d.surfaces[2].offset_x, d.surfaces[2].width), (0, 10));
    assert_eq!(d.generation, 5);
}

#[test]
fn output_info_with_same_values_reports_no_change() {
    let mut d = desc(vec![entry(1, Some(1), 10, 20, 3, 4, "a")]);
    let mut dirty: HashSet<u32> = [1].into_iter().collect();
    let info: HashMap<u32, OutputInfo> = [(1, OutputInfo { x: 3, y: 4, width: 10, height: -1 })].into_iter().collect();
    assert!(!apply_output_info_updates(&mut d, &mut dirty, &info));
    assert!(dirty.is_empty());
}

#[test]
fn output_info_applied_twice_is_applied_once() {
    let info: HashMap<u32, OutputInfo> = [(1, OutputInfo { x: 7, y: 8, width: 30, height: 40 })].into_iter().collect();
    let mut d = desc(vec![entry(1, Some(1), 10, 20, 3, 4, "a")]);
    let mut dirty: HashSet<u32> = [1].into_iter().collect();
    assert!(apply_output_info_updates(&mut d, &mut dirty, &info));
    let mut dirty: HashSet<u32> = [1].into_iter().collect();
    assert!(!apply_output_info_updates(&mut d, &mut dirty, &info));
    let e = &d.surfaces[0];
    assert_eq!((e.offset_x, e.offset_y, e.width, e.height), (7, 8, 30, 40));
}

#[test]
fn extract_takes_surfaces_of_removed_outputs() {
    let mut d = desc(vec![entry(1, None, 1, 1, 0, 0, "a"), entry(2, None, 1, 1, 0, 0, "b"), entry(3, None, 1, 1, 0, 0, "c")]);
    let taken = d.extract_surfaces_of_outputs(&vec![2]);
    let taken: Vec<_> = taken.iter().map(|e| e.camera).collect();
    assert_eq!(taken, vec!["b"]);
    let kept: Vec<_> = d.surfaces.iter().map(|e| e.camera).collect();
    assert_eq!(kept, vec!["a", "c"]);
    assert_eq!(d.generation, 5);
}

#[test]
fn removing_vanished_outputs_keeps_live_ones() {
    let mut d = desc(vec![entry(1, Some(1), 10, 10, 0, 0, "a"), entry(2, Some(2), 10, 10, 10, 0, "b"), entry(3, Some(3), 10, 10, 20, 0, "c")]);
    let mut dirty = HashSet::new();
    let info = HashMap::new();
    let out = apply_event_frame(&mut d, false, &vec![1, 3], vec![], &mut dirty, &info);
    assert_eq!(out.despawn, vec!["a", "c"]);
    assert!(d.surfaces.iter().all(|e| e.output != 1 && e.output != 3));
    let kept: Vec<_> = d.surfaces.iter().map(|e| e.output).collect();
    assert_eq!(kept, vec![2]);
    assert!(out.touched);
    assert_eq!(d.generation, 6);
}

#[test]
fn lookups_by_output() {
    let d = desc(vec![entry(1, None, 1, 1, 0, 0, "a"), entry(1, Some(1), 1, 1, 0, 0, "b"), entry(2, None, 1, 1, 0, 0, "c")]);
    assert_eq!(d.position_of_output(1), Some(0));
    assert_eq!(d.position_of_output(9), None);
    assert_eq!(d.configured_entry(1), Some(1));
    assert_eq!(d.configured_entry(2), None);
    assert_eq!(d.handled_count(), 1);
    assert_eq!(d.outputs(), vec![1, 1, 2]);
}

fn known(ids: &[u32]) -> HashMap<u32, ()> {
    ids.iter().map(|i| (*i, ())).collect()
}

#[test]
fn ready_bounds_when_all_selected_are_ready() {
    let d = desc(vec![entry(1, Some(1), 100, 100, 0, 0, "a"), entry(2, Some(2), 50, 50, 100, 0, "b")]);
    assert_eq!(ready_bounds(&d, &vec![1, 2], &known(&[1, 2]), &WallpaperTargetMonitor::All), Some((0, 0, 150, 100)));
    assert_eq!(ready_bounds(&d, &vec![1, 2], &known(&[1, 2]), &WallpaperTargetMonitor::Index(1)), Some((0, 0, 150, 100)));
}

#[test]
fn ready_bounds_wait_for_missing_or_empty_surfaces() {
    let d = desc(vec![entry(1, Some(1), 100, 100, 0, 0, "a"), entry(2, Some(2), 0, 50, 100, 0, "b")]);
    assert_eq!(ready_bounds(&d, &vec![1, 2], &known(&[1, 2]), &WallpaperTargetMonitor::All), None);
    assert_eq!(ready_bounds(&d, &vec![1, 2], &known(&[1, 2]), &WallpaperTargetMonitor::Primary), Some((0, 0, 100, 100)));
    let d = desc(vec![entry(1, Some(1), 100, 100, 0, 0, "a")]);
    assert_eq!(ready_bounds(&d, &vec![1, 2], &known(&[1, 2]), &WallpaperTargetMonitor::All), None);
    assert_eq!(ready_bounds(&d, &vec![1, 2], &known(&[1, 2]), &WallpaperTargetMonitor::Index(5)), None);
}

#[test]
fn ready_bounds_for_all_need_every_output_configured() {
    let d = desc(vec![entry(1, Some(1), 100, 100, 0, 0, "a")]);
    assert_eq!(ready_bounds(&d, &vec![1], &known(&[1, 2]), &WallpaperTargetMonitor::All), None);
    assert_eq!(ready_bounds(&d, &vec![1], &known(&[1, 2]), &WallpaperTargetMonitor::Primary), Some((0, 0, 100, 100)));
}

#[test]
fn event_frame_removes_configures_and_bumps() {
    let mut d = desc(vec![entry(1, Some(1), 10, 10, 0, 0, "a"), entry(2, Some(2), 10, 10, 0, 0, "b")]);
    let mut dirty = HashSet::new();
    let info = HashMap::new();
    let out = apply_event_frame(&mut d, false, &vec![2], vec![(config(3, 30, 30, 5, 5), "c")], &mut dirty, &info);
    assert_eq!(out.despawn, vec!["b"]);
    assert!(out.touched);
    assert!(!out.refresh_transforms);
    let cams: Vec<_> = d.surfaces.iter().map(|e| e.camera).collect();
    assert_eq!(cams, vec!["a", "c"]);
    assert_eq!(d.generation, 6);
}

#[test]
fn quiet_event_frame_keeps_generation() {
    let mut d = desc(vec![entry(1, Some(1), 10, 10, 0, 0, "a")]);
    let mut dirty = HashSet::new();
    let info = HashMap::new();
    let out = apply_event_frame(&mut d, false, &vec![], vec![], &mut dirty, &info);
    assert!(out.despawn.is_empty() && !out.touched && !out.refresh_transforms);
    assert_eq!(d.generation, 5);
    assert_eq!(d.surfaces.len(), 1);
    let out = apply_event_frame(&mut d, true, &vec![], vec![], &mut dirty, &info);
    assert!(out.touched);
    assert_eq!(d.generation, 6);
}

#[test]
fn event_frame_output_info_refreshes_transforms() {
    let mut d = desc(vec![entry(1, Some(1), 10, 10, 0, 0, "a")]);
    let mut dirty: HashSet<u32> = [1].into_iter().collect();
    let info: HashMap<u32, OutputInfo> = [(1, OutputInfo { x: 40, y: 0, width: 10, height: 10 })].into_iter().collect();
    let out = apply_event_frame(&mut d, false, &vec![], vec![], &mut dirty, &info);
    assert!(out.refresh_transforms && out.touched);
    assert_eq!(d.surfaces[0].offset_x, 40);
    assert_eq!(d.generation, 6);
}

#[test]
fn screen_index_is_first_position_in_order() {
    assert_eq!(screen_index(&vec![7, 3, 9, 3], 3), 1);
    assert_eq!(screen_index(&vec![7, 3, 9], 7), 0);
    assert_eq!(screen_index(&vec![7, 3, 9], 9), 2);
}

#[test]
fn screen_pixels_of_entry() {
    let e = entry(2, Some(2), 1280, 720, -1280, 40, "b");
    assert_eq!(screen_pixels(&e), ScreenPixels { min_x: -1280, min_y: 40, width: 1280, height: 720 });
}

#[test]
fn targets_ready_matches_ready_bounds() {
    let d = desc(vec![entry(1, Some(1), 100, 100, 0, 0, "a"), entry(2, None, 50, 50, 100, 0, "b")]);
    assert!(targets_ready(&d, &vec![1, 2], &known(&[1, 2]), &WallpaperTargetMonitor::Primary));
    assert!(!targets_ready(&d, &vec![1, 2], &known(&[1, 2]), &WallpaperTargetMonitor::Index(1)));
    assert!(!targets_ready(&d, &vec![1, 2], &known(&[1, 2]), &WallpaperTargetMonitor::All));
}
