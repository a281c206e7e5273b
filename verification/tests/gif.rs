use wayland_overlay_media_viewer::gif::{GifAdvance, GifPlayback};

#[test]
fn playback_starts_at_first_frame() {
    let p = GifPlayback::start(Some(2));
    assert_eq!(p, GifPlayback { current: 0, remaining: Some(2) });
    assert_eq!(GifPlayback::default(), GifPlayback { current: 0, remaining: None });
}

#[test]
fn same_frame_changes_nothing() {
    let mut p = GifPlayback { current: 3, remaining: Some(1) };
    assert_eq!(p.advance(3), GifAdvance { frame_changed: false, finished: false });
    assert_eq!(p, GifPlayback { current: 3, remaining: Some(1) });
}

#[test]
fn loop_end_uses_a_repetition() {
    let mut p = GifPlayback { current: 3, remaining: Some(1) };
    assert_eq!(p.advance(0), GifAdvance { frame_changed: true, finished: false });
    assert_eq!(p, GifPlayback { current: 0, remaining: Some(0) });
    assert_eq!(p.advance(1), GifAdvance { frame_changed: true, finished: false });
    assert_eq!(p.advance(0), GifAdvance { frame_changed: true, finished: true });
    assert_eq!(p, GifPlayback { current: 0, remaining: Some(0) });
}

#[test]
fn endless_animation_never_finishes() {
    let mut p = GifPlayback::default();
    for _ in 0..5 {
        assert!(!p.advance(2).finished);
        assert!(!p.advance(0).finished);
    }
    assert_eq!(p.remaining, None);
}

#[test]
fn gif_repeating_twice_finishes_on_third_loop_end() {
    let mut p = GifPlayback::start(Some(2));
    let mut ends = 0;
    let mut finished_at = None;
    for _ in 0..5 {
        p.advance(1);
        ends += 1;
        if p.advance(0).finished && finished_at.is_none() {
            finished_at = Some(ends);
        }
    }
    assert_eq!(finished_at, Some(3));
}
