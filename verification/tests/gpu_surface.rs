use wayland_overlay_media_viewer::gpu_surface::{
    after_acquire, choose_surface_config, finish_prepare, plan_prepare, preferred_or_first, AcquireOutcome,
    ChosenConfig, GpuSurfaceStatus, PreparePlan,
};

#[test]
fn fresh_surface_is_created_and_configured() {
    let s = GpuSurfaceStatus::new();
    let p = plan_prepare(&s, 0, 768, 3);
    assert_eq!(p, PreparePlan { recreate: true, configure: true, width: 1, height: 768 });
}

#[test]
fn prepared_surface_is_left_alone() {
    let s = GpuSurfaceStatus { has_surface: true, config_size: Some((800, 600)), last_applied_generation: 3 };
    let p = plan_prepare(&s, 800, 600, 3);
    assert!(!p.recreate && !p.configure);
    let p = plan_prepare(&s, 800, 601, 3);
    assert!(!p.recreate && p.configure);
    let p = plan_prepare(&s, 800, 600, 4);
    assert!(p.recreate && p.configure);
}

#[test]
fn preferred_candidate_wins_else_first() {
    assert_eq!(preferred_or_first(&vec![false, true, true]), Some(1));
    assert_eq!(preferred_or_first(&vec![false, false]), Some(0));
    assert_eq!(preferred_or_first(&vec![]), None);
}

#[test]
fn chosen_configuration() {
    let c = choose_surface_config(&vec![false, true], &vec![false, false, true], &vec![false], true);
    assert_eq!(c, Some(ChosenConfig { format: 1, present_mode: 2, alpha_mode: 0, copy_dst: true }));
    assert_eq!(choose_surface_config(&vec![], &vec![], &vec![], false), None);
}

#[test]
fn prepare_records_configuration() {
    let mut s = GpuSurfaceStatus::new();
    let p = plan_prepare(&s, 640, 480, 7);
    finish_prepare(&mut s, &p, Some(ChosenConfig { format: 0, present_mode: 0, alpha_mode: 0, copy_dst: false }), 7);
    assert_eq!(s, GpuSurfaceStatus { has_surface: true, config_size: Some((640, 480)), last_applied_generation: 7 });
}

#[test]
fn prepare_without_formats_drops_surface() {
    let mut s = GpuSurfaceStatus::new();
    let p = plan_prepare(&s, 640, 480, 7);
    finish_prepare(&mut s, &p, None, 7);
    assert_eq!(s, GpuSurfaceStatus::new());
}

#[test]
fn acquire_outcomes() {
    let ready = GpuSurfaceStatus { has_surface: true, config_size: Some((1, 1)), last_applied_generation: 9 };
    let mut s = ready;
    assert!(after_acquire(&mut s, AcquireOutcome::Success));
    assert!(after_acquire(&mut s, AcquireOutcome::Suboptimal));
    assert_eq!(s, ready);
    assert!(!after_acquire(&mut s, AcquireOutcome::Timeout));
    assert!(!after_acquire(&mut s, AcquireOutcome::Occluded));
    assert!(!after_acquire(&mut s, AcquireOutcome::Validation));
    assert_eq!(s, ready);
    assert!(!after_acquire(&mut s, AcquireOutcome::Outdated));
    assert_eq!(s, GpuSurfaceStatus { has_surface: true, config_size: None, last_applied_generation: 0 });
    let mut s = ready;
    assert!(!after_acquire(&mut s, AcquireOutcome::Lost));
    assert_eq!(s, GpuSurfaceStatus::new());
}

#[test]
fn surface_without_formats_is_retried_next_frame() {
    let mut s = GpuSurfaceStatus { has_surface: true, config_size: Some((10, 10)), last_applied_generation: 2 };
    let p = plan_prepare(&s, 20, 10, 2);
    assert!(p.configure && !p.recreate);
    finish_prepare(&mut s, &p, None, 2);
    let next = plan_prepare(&s, 20, 10, 2);
    assert!(next.recreate && next.configure);
}

#[test]
fn prepared_surface_stays_prepared() {
    let mut s = GpuSurfaceStatus::new();
    let p = plan_prepare(&s, 300, 200, 4);
    finish_prepare(&mut s, &p, Some(ChosenConfig { format: 0, present_mode: 0, alpha_mode: 0, copy_dst: true }), 4);
    let next = plan_prepare(&s, 300, 200, 4);
    assert!(!next.recreate && !next.configure);
}

#[test]
fn outdated_and_lost_surfaces_are_repaired() {
    let ready = GpuSurfaceStatus { has_surface: true, config_size: Some((8, 8)), last_applied_generation: 3 };
    let mut s = ready;
    after_acquire(&mut s, AcquireOutcome::Outdated);
    assert!(plan_prepare(&s, 8, 8, 3).configure);
    let mut s = ready;
    after_acquire(&mut s, AcquireOutcome::Lost);
    let p = plan_prepare(&s, 8, 8, 3);
    assert!(p.recreate && p.configure);
}
