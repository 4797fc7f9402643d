//! Transport state and the playhead's movement.

use vstd::prelude::*;

verus! {

/// Transport playback state
#[derive(Debug, Clone, Copy, PartialEq, Eq, Structural)]
pub enum TransportState {
    Stopped,
    Playing,
    Recording,
    Paused,
}

impl Default for TransportState {
    fn default() -> (r: Self)
        ensures
            r == TransportState::Stopped,
    {
        TransportState::Stopped
    }
}

impl TransportState {
    /// Whether time moves on: playing or recording.
    pub fn is_playing(self) -> (r: bool)
        ensures
            r == (self == TransportState::Playing || self == TransportState::Recording),
    {
        match self {
            TransportState::Playing | TransportState::Recording => true,
            _ => false,
        }
    }
}

/// The loop settings of the transport.
#[derive(Debug, Clone, Copy)]
pub struct LoopRegion {
    pub enabled: bool,
    pub start: u64,
    pub end: u64,
}

/// The playhead after moving `samples` on from `position`: when looping over a
/// non-empty region and the playhead reaches the loop end, it jumps back to
/// the loop start.
pub open spec fn advanced_position(position: u64, samples: u64, lp: LoopRegion) -> int {
    let moved = position + samples;
    if lp.enabled && moved >= lp.end && lp.end > lp.start {
        lp.start as int
    } else {
        moved
    }
}

/// Advance the playhead by `samples`, handling the loop.
pub fn advance_position(position: u64, samples: u64, lp: LoopRegion) -> (r: u64)
    requires
        position + samples <= u64::MAX,
    ensures
        r == advanced_position(position, samples, lp),
{
    let moved = position + samples;
    if lp.enabled && moved >= lp.end && lp.end > lp.start {
        lp.start
    } else {
        moved
    }
}

/// While looping over a region, a playhead inside the region stays inside it
/// however far it moves in one step that is shorter than the region.
pub proof fn lemma_loop_keeps_playhead(position: u64, samples: u64, lp: LoopRegion)
    requires
        lp.enabled,
        lp.start < lp.end,
        lp.start <= position < lp.end,
        position + samples <= u64::MAX,
    ensures
        lp.start <= advanced_position(position, samples, lp) < lp.end,
{
}

} // verus!
