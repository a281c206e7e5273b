use wayland_overlay_media_viewer::video::{
    next_frame_timing, playing_next_state, video_step, FrameTiming, PipelineStatus, VideoState,
};

const READY: PipelineStatus = PipelineStatus::Present { ready: true };
const NOT_READY: PipelineStatus = PipelineStatus::Present { ready: false };

#[test]
fn init_starts_pipeline_and_waits() {
    let s = video_step(VideoState::Init, PipelineStatus::Absent, false);
    assert_eq!(s.next, VideoState::Ready);
    assert!(s.init_pipeline && !s.again && !s.play);
    let s = video_step(VideoState::Ready, READY, false);
    assert_eq!(s.next, VideoState::Ready);
    assert!(!s.init_pipeline && !s.play);
}

#[test]
fn start_without_pipeline_starts_one_and_steps_again() {
    let s = video_step(VideoState::Start, PipelineStatus::Absent, false);
    assert_eq!(s.next, VideoState::Start);
    assert!(s.init_pipeline && s.again);
    let s2 = video_step(s.next, NOT_READY, false);
    assert_eq!(s2.next, VideoState::Loading);
    assert!(!s2.again && !s2.play);
}

#[test]
fn start_with_ready_pipeline_plays() {
    let s = video_step(VideoState::Start, READY, false);
    assert_eq!(s.next, VideoState::Playing);
    assert!(s.play && !s.init_pipeline);
}

#[test]
fn loading_waits_for_ready() {
    let s = video_step(VideoState::Loading, NOT_READY, false);
    assert_eq!(s.next, VideoState::Loading);
    assert!(!s.play);
    let s = video_step(VideoState::Loading, PipelineStatus::Absent, false);
    assert_eq!(s.next, VideoState::Loading);
    let s = video_step(VideoState::Loading, READY, false);
    assert_eq!(s.next, VideoState::Playing);
    assert!(s.play);
}

#[test]
fn playing_polls_frames() {
    let s = video_step(VideoState::Playing, READY, true);
    assert_eq!(s.next, VideoState::Playing);
    assert!(s.poll_frame && !s.close);
}

#[test]
fn paused_and_stopped_talk_to_pipeline() {
    let s = video_step(VideoState::Paused, READY, false);
    assert!(s.pause && s.next == VideoState::Paused);
    let s = video_step(VideoState::Paused, PipelineStatus::Absent, false);
    assert!(!s.pause);
    let s = video_step(VideoState::Stop, NOT_READY, false);
    assert!(s.destroy && s.next == VideoState::Stop);
    let s = video_step(VideoState::Stop, PipelineStatus::Absent, false);
    assert!(!s.destroy);
}

#[test]
fn finished_destroys_and_closes_once() {
    let s = video_step(VideoState::Finished, READY, false);
    assert!(s.destroy && s.close && s.next == VideoState::Finished);
    let s = video_step(VideoState::Finished, READY, true);
    assert!(s.destroy && !s.close);
    let s = video_step(VideoState::Finished, PipelineStatus::Absent, false);
    assert!(!s.destroy && s.close);
}

#[test]
fn playing_finishes_when_pipeline_ends() {
    assert_eq!(playing_next_state(false, true), VideoState::Finished);
    assert_eq!(playing_next_state(true, true), VideoState::Playing);
    assert_eq!(playing_next_state(false, false), VideoState::Playing);
}

#[test]
fn first_frame_runs_at_thirty_fps() {
    assert_eq!(next_frame_timing(0, 5_000), FrameTiming { previous_pts: 5_000, frame_ms: Some(33) });
}

#[test]
fn later_frames_follow_timestamps() {
    assert_eq!(next_frame_timing(1_000_000_000, 1_016_000_000), FrameTiming { previous_pts: 1_016_000_000, frame_ms: Some(16) });
    assert_eq!(next_frame_timing(1_000, 1_500), FrameTiming { previous_pts: 1_500, frame_ms: Some(1) });
    assert_eq!(next_frame_timing(1, 5_000_000_000), FrameTiming { previous_pts: 5_000_000_000, frame_ms: Some(100) });
    assert_eq!(next_frame_timing(9_000, 8_000), FrameTiming { previous_pts: 8_000, frame_ms: None });
    assert_eq!(next_frame_timing(9_000, 9_000), FrameTiming { previous_pts: 9_000, frame_ms: None });
}
