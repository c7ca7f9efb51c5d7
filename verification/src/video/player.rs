//! Playback state of a video.

use vstd::prelude::*;

verus! {

/// Whether a video is playing, paused, stopped or has reached its end.
#[derive(Debug, Clone, Copy, PartialEq, Eq, Structural)]
pub enum VideoPlayState {
    Playing,
    Paused,
    Stopped,
    Ended,
}

} // verus!
