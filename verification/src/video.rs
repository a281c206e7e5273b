//! The playback state machine of a video popup and its frame pacing.
use vstd::prelude::*;

verus! {

/// Where a video popup is in its life.
#[derive(Clone, Copy, Debug, PartialEq, Eq, Structural)]
pub enum VideoState {
    Init,
    Playing,
    Paused,
    Start,
    Ready,
    Loading,
    Finished,
    Stop,
}

/// What the decoding pipeline of a video looks like from outside.
#[derive(Clone, Copy, Debug, PartialEq, Eq, Structural)]
pub enum PipelineStatus {
    /// No pipeline was started.
    Absent,
    /// A pipeline exists; `ready` once it can play.
    Present { ready: bool },
}

/// One step of the state machine: the next state and what to do.
#[derive(Clone, Copy, Debug, PartialEq, Eq, Structural)]
pub struct VideoStep {
    pub next: VideoState,
    /// Start a decoding pipeline.
    pub init_pipeline: bool,
    /// Tell the pipeline to play.
    pub play: bool,
    /// Tell the pipeline to pause.
    pub pause: bool,
    /// Tear the pipeline down.
    pub destroy: bool,
    /// Start closing the popup.
    pub close: bool,
    /// Take the next decoded frame when its time has come.
    pub poll_frame: bool,
    /// Step again in the same frame with the pipeline just started.
    pub again: bool,
}

/// A step that keeps `state` and does nothing.
pub open spec fn idle(state: VideoState) -> VideoStep {
    VideoStep {
        next: state,
        init_pipeline: false,
        play: false,
        pause: false,
        destroy: false,
        close: false,
        poll_frame: false,
        again: false,
    }
}

/// Plays once the pipeline is ready, else waits in `Loading`.
pub open spec fn start_or_wait(p: PipelineStatus) -> VideoStep {
    match p {
        PipelineStatus::Present { ready: true } => VideoStep { next: VideoState::Playing, play: true, ..idle(VideoState::Playing) },
        _ => idle(VideoState::Loading),
    }
}

/// The state machine.
pub open spec fn spec_video_step(state: VideoState, p: PipelineStatus, is_closing: bool) -> VideoStep {
    let present = p is Present;
    match state {
        VideoState::Playing => VideoStep { poll_frame: true, ..idle(VideoState::Playing) },
        VideoState::Init => VideoStep { init_pipeline: true, ..idle(VideoState::Ready) },
        VideoState::Start => if !present {
            VideoStep { init_pipeline: true, again: true, ..idle(VideoState::Start) }
        } else {
            start_or_wait(p)
        },
        VideoState::Loading => match p {
            PipelineStatus::Present { ready: true } => start_or_wait(p),
            _ => idle(VideoState::Loading),
        },
        VideoState::Paused => VideoStep { pause: present, ..idle(VideoState::Paused) },
        VideoState::Stop => VideoStep { destroy: present, ..idle(VideoState::Stop) },
        VideoState::Finished => VideoStep { destroy: present, close: !is_closing, ..idle(VideoState::Finished) },
        VideoState::Ready => idle(VideoState::Ready),
    }
}

/// Decides what a video in `state` does this frame, given its pipeline and
/// whether the popup is already closing.
pub fn video_step(state: VideoState, pipeline: PipelineStatus, is_closing: bool) -> (step: VideoStep)
    ensures
        step == spec_video_step(state, pipeline, is_closing),
        step.poll_frame == (state == VideoState::Playing),
{
    let none = VideoStep {
        next: state,
        init_pipeline: false,
        play: false,
        pause: false,
        destroy: false,
        close: false,
        poll_frame: false,
        again: false,
    };
    let present = match pipeline {
        PipelineStatus::Present { .. } => true,
        PipelineStatus::Absent => false,
    };
    let ready = match pipeline {
        PipelineStatus::Present { ready } => ready,
        PipelineStatus::Absent => false,
    };
    match state {
        VideoState::Playing => VideoStep { poll_frame: true, ..none },
        VideoState::Init => VideoStep { next: VideoState::Ready, init_pipeline: true, ..none },
        VideoState::Start => {
            if !present {
                VideoStep { init_pipeline: true, again: true, ..none }
            } else if ready {
                VideoStep { next: VideoState::Playing, play: true, ..none }
            } else {
                VideoStep { next: VideoState::Loading, ..none }
            }
        },
        VideoState::Loading => {
            if ready {
                VideoStep { next: VideoState::Playing, play: true, ..none }
            } else {
                none
            }
        },
        VideoState::Paused => VideoStep { pause: present, ..none },
        VideoState::Stop => VideoStep { destroy: present, ..none },
        VideoState::Finished => VideoStep { destroy: present, close: !is_closing, ..none },
        VideoState::Ready => none,
    }
}

/// Law: a finished video stays finished, tears its pipeline down whenever it
/// has one, and asks to close until it is closing.
pub proof fn lemma_finished_is_final(p: PipelineStatus, is_closing: bool)
    ensures
        spec_video_step(VideoState::Finished, p, is_closing).next == VideoState::Finished,
        spec_video_step(VideoState::Finished, p, is_closing).destroy == (p is Present),
        spec_video_step(VideoState::Finished, p, is_closing).close == !is_closing,
{
}

/// Law: stepping again after starting a pipeline never asks for a further
/// step, so one frame takes at most two steps.
pub proof fn lemma_again_once(state: VideoState, is_closing: bool, ready: bool)
    requires
        spec_video_step(state, PipelineStatus::Absent, is_closing).again,
    ensures
        !spec_video_step(
            spec_video_step(state, PipelineStatus::Absent, is_closing).next,
            PipelineStatus::Present { ready },
            is_closing,
        ).again,
{
}

/// Law: a video only starts playing with a ready pipeline, and then it is
/// told to play.
pub proof fn lemma_plays_only_when_ready(state: VideoState, p: PipelineStatus, is_closing: bool)
    requires
        state != VideoState::Playing,
        spec_video_step(state, p, is_closing).next == VideoState::Playing,
    ensures
        p == (PipelineStatus::Present { ready: true }),
        spec_video_step(state, p, is_closing).play,
{
}

/// The state after polling a playing video: it is finished when no frame was
/// left and the pipeline reported the end.
pub fn playing_next_state(frame_taken: bool, pipeline_finished: bool) -> (next: VideoState)
    ensures
        next == (if !frame_taken && pipeline_finished {
            VideoState::Finished
        } else {
            VideoState::Playing
        }),
{
    if !frame_taken && pipeline_finished {
        VideoState::Finished
    } else {
        VideoState::Playing
    }
}

/// Pacing after showing a frame with presentation timestamp `pts`.
#[derive(Clone, Copy, Debug, PartialEq, Eq, Structural)]
pub struct FrameTiming {
    /// The timestamp to compare the next frame with.
    pub previous_pts: u64,
    /// New frame interval in milliseconds, if it changes.
    pub frame_ms: Option<u64>,
}

/// Clamps a frame interval to 1..=100 milliseconds.
pub open spec fn clamp_ms(v: int) -> int {
    if v < 1 {
        1
    } else if v > 100 {
        100
    } else {
        v
    }
}

/// The first frame starts at about 30 frames per second; a later frame sets
/// the interval to the timestamp difference in milliseconds (timestamps count
/// nanoseconds), clamped to 1..=100; a frame that does not move forward keeps
/// the interval. The timestamp is remembered in every case.
pub open spec fn spec_frame_timing(previous_pts: u64, pts: u64) -> FrameTiming {
    if previous_pts == 0 {
        FrameTiming { previous_pts: pts, frame_ms: Some(33) }
    } else if pts > previous_pts {
        FrameTiming { previous_pts: pts, frame_ms: Some(clamp_ms((pts - previous_pts) / 1_000_000) as u64) }
    } else {
        FrameTiming { previous_pts: pts, frame_ms: None }
    }
}

/// Computes the pacing after a frame with timestamp `pts`.
pub fn next_frame_timing(previous_pts: u64, pts: u64) -> (t: FrameTiming)
    ensures
        t == spec_frame_timing(previous_pts, pts),
{
    if previous_pts == 0 {
        FrameTiming { previous_pts: pts, frame_ms: Some(33) }
    } else if pts > previous_pts {
        let dt = (pts - previous_pts) / 1_000_000;
        let dt = if dt < 1 {
            1
        } else if dt > 100 {
            100
        } else {
            dt
        };
        FrameTiming { previous_pts: pts, frame_ms: Some(dt) }
    } else {
        FrameTiming { previous_pts: pts, frame_ms: None }
    }
}

/// Law: the frame interval always stays between 1 and 100 milliseconds.
pub proof fn lemma_frame_interval_bounded(previous_pts: u64, pts: u64)
    ensures
        spec_frame_timing(previous_pts, pts).frame_ms matches Some(ms) ==> 1 <= ms <= 100,
        spec_frame_timing(previous_pts, pts).previous_pts == pts,
{
}

/// Law: a playing video takes its next frame on every step, whatever its
/// pipeline and whether it is closing, keeps playing and sends its pipeline
/// nothing; no other state ever takes a frame.
pub proof fn lemma_playing_polls_every_step(state: VideoState, p: PipelineStatus, is_closing: bool)
    ensures
        spec_video_step(state, p, is_closing).poll_frame <==> state == VideoState::Playing,
        state == VideoState::Playing ==> {
            let st = spec_video_step(state, p, is_closing);
            &&& st.next == VideoState::Playing
            &&& !st.init_pipeline && !st.play && !st.pause && !st.destroy && !st.close && !st.again
        },
{
}

} // verus!
