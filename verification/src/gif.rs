//! Frame and loop bookkeeping of an animated image (GIF or WebP).
use vstd::prelude::*;

verus! {

/// Current frame and remaining repetitions of an animated image.
///
/// `remaining == None` repeats forever; `Some(0)` plays the current loop and
/// stops; `Some(n)` repeats `n` more times after the current loop.
#[derive(Clone, Copy, Debug, PartialEq, Eq, Structural)]
pub struct GifPlayback {
    pub current: usize,
    pub remaining: Option<u32>,
}

/// What advancing to a frame did.
#[derive(Clone, Copy, Debug, PartialEq, Eq, Structural)]
pub struct GifAdvance {
    /// The frame changed, so the shown image is replaced.
    pub frame_changed: bool,
    /// The last repetition just ended: the timer pauses and popups that
    /// despawn with their animation go away.
    pub finished: bool,
}

impl GifPlayback {
    /// Playback from the first frame with the asset's repeat count.
    pub fn start(times: Option<u32>) -> (res: Self)
        ensures
            res.current == 0,
            res.remaining == times,
    {
        GifPlayback { current: 0, remaining: times }
    }

    /// Moves to `frame`, the frame that the elapsed time falls in. Coming
    /// back to frame 0 ends a loop: with no repetition left the animation
    /// finishes, otherwise one repetition is used up (never for an endless
    /// animation).
    pub fn advance(&mut self, frame: usize) -> (res: GifAdvance)
        ensures
            *final(self) == spec_advance(*old(self), frame).0,
            res == spec_advance(*old(self), frame).1,
            final(self).current == frame,
            res.frame_changed == (old(self).current != frame),
    {
        if self.current == frame {
            return GifAdvance { frame_changed: false, finished: false };
        }
        self.current = frame;
        let mut finished = false;
        if frame == 0 {
            match self.remaining {
                Some(r) => {
                    if r == 0 {
                        finished = true;
                    } else {
                        self.remaining = Some(r - 1);
                    }
                },
                None => {},
            }
        }
        GifAdvance { frame_changed: true, finished }
    }
}

impl Default for GifPlayback {
    fn default() -> (res: Self)
        ensures
            res.current == 0,
            res.remaining is None,
    {
        GifPlayback { current: 0, remaining: None }
    }
}

/// Playback and outcome of advancing to `frame`.
pub open spec fn spec_advance(p: GifPlayback, frame: usize) -> (GifPlayback, GifAdvance) {
    if p.current == frame {
        (p, GifAdvance { frame_changed: false, finished: false })
    } else if frame == 0 {
        match p.remaining {
            Some(r) => if r == 0 {
                (GifPlayback { current: 0, ..p }, GifAdvance { frame_changed: true, finished: true })
            } else {
                (
                    GifPlayback { current: 0, remaining: Some((r - 1) as u32) },
                    GifAdvance { frame_changed: true, finished: false },
                )
            },
            None => (GifPlayback { current: 0, ..p }, GifAdvance { frame_changed: true, finished: false }),
        }
    } else {
        (GifPlayback { current: frame, ..p }, GifAdvance { frame_changed: true, finished: false })
    }
}

/// Law: an endless animation never finishes.
pub proof fn lemma_endless_never_finishes(p: GifPlayback, frame: usize)
    requires
        p.remaining is None,
    ensures
        !spec_advance(p, frame).1.finished,
        spec_advance(p, frame).0.remaining is None,
{
}

/// Law: each loop end uses up exactly one repetition, and the animation
/// finishes exactly at the loop end that finds none left.
pub proof fn lemma_loop_end(p: GifPlayback)
    requires
        p.current != 0,
    ensures
        p.remaining matches Some(r) ==> (r > 0 ==> spec_advance(p, 0).0.remaining == Some((r - 1) as u32)
            && !spec_advance(p, 0).1.finished),
        p.remaining == Some(0u32) ==> spec_advance(p, 0).1.finished,
{
}

/// Law: moving within a loop neither finishes nor uses up a repetition.
pub proof fn lemma_within_loop(p: GifPlayback, frame: usize)
    requires
        frame != 0,
    ensures
        !spec_advance(p, frame).1.finished,
        spec_advance(p, frame).0.remaining == p.remaining,
        spec_advance(p, frame).0.current == frame,
{
}

/// Law: advancing always lands on the requested frame, the shown image is
/// replaced exactly when that frame differs from the current one, and the
/// animation only finishes when a loop ends (a move back to frame 0) with no
/// repetition left, keeping its count at zero.
pub proof fn lemma_advance_shows_requested_frame(p: GifPlayback, frame: usize)
    ensures
        spec_advance(p, frame).0.current == frame,
        spec_advance(p, frame).1.frame_changed == (p.current != frame),
        spec_advance(p, frame).1.finished <==> (p.current != frame && frame == 0 && p.remaining == Some(0u32)),
        spec_advance(p, frame).1.finished ==> spec_advance(p, frame).0.remaining == Some(0u32),
        p.current == frame ==> spec_advance(p, frame).0 == p,
{
}

} // verus!
