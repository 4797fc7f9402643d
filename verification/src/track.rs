//! Track identities and kinds.

use vstd::prelude::*;

verus! {

/// Unique identifier for tracks
#[derive(Debug, Clone, Copy, PartialEq, Eq, Hash, Structural)]
pub struct TrackId(pub u64);

/// Track type
#[derive(Debug, Clone, Copy, PartialEq, Eq, Structural)]
pub enum TrackKind {
    Audio,
    Midi,
    Master,
}

/// The source of fresh track ids: ids are handed out counting up, so none is
/// handed out twice.
#[derive(Debug, Clone, Copy)]
pub struct TrackIdCounter {
    pub next: u64,
}

impl TrackIdCounter {
    /// A counter whose first id is 1.
    pub fn new() -> (r: Self)
        ensures
            r.next == 1,
    {
        TrackIdCounter { next: 1 }
    }

    /// Hand out the next id.
    pub fn allocate(&mut self) -> (r: TrackId)
        requires
            old(self).next < u64::MAX,
        ensures
            r.0 == old(self).next,
            final(self).next == old(self).next + 1,
    {
        let id = TrackId(self.next);
        self.next = self.next + 1;
        id
    }
}


/// The first position of `id` among `ids`, if it is there.
pub fn position_of(ids: &Vec<u64>, id: u64) -> (r: Option<usize>)
    ensures
        match r {
            Some(i) => i < ids@.len() && ids@[i as int] == id && forall|k: int| 0 <= k < i ==> ids@[k] != id,
            None => !ids@.contains(id),
        },
{
    for i in 0..ids.len()
        invariant
            forall|k: int| 0 <= k < i ==> ids@[k] != id,
    {
        if ids[i] == id {
            return Some(i);
        }
    }
    None
}

/// The latest of the given end positions, or 0 when there are none.
pub fn latest_end(ends: &Vec<u64>) -> (r: u64)
    ensures
        forall|k: int| 0 <= k < ends@.len() ==> ends@[k] <= r,
        ends@.len() == 0 ==> r == 0,
        ends@.len() > 0 ==> ends@.contains(r),
{
    let mut best: u64 = 0;
    for i in 0..ends.len()
        invariant
            forall|k: int| 0 <= k < i ==> ends@[k] <= best,
            i == 0 ==> best == 0,
            i > 0 ==> exists|k: int| 0 <= k < i && ends@[k] == best,
    {
        if i == 0 || ends[i] > best {
            best = ends[i];
        }
    }
    proof {
        if ends@.len() > 0 {
            let k = choose|k: int| 0 <= k < ends@.len() && ends@[k] == best;
            assert(ends@[k] == best);
        }
    }
    best
}

/// The track a finished recording goes to: the first armed track, else the
/// first track, else none (`armed[i]` tells whether track `i` is armed).
pub fn recording_track(armed: &Vec<bool>) -> (r: Option<usize>)
    ensures
        match r {
            Some(i) => i < armed@.len() && ((armed@[i as int] && (forall|k: int| 0 <= k < i ==> !armed@[k]))
                || (i == 0 && (forall|k: int| 0 <= k < armed@.len() ==> !armed@[k]))),
            None => armed@.len() == 0,
        },
{
    for i in 0..armed.len()
        invariant
            forall|k: int| 0 <= k < i ==> !armed@[k],
    {
        if armed[i] {
            return Some(i);
        }
    }
    if armed.len() == 0 {
        None
    } else {
        Some(0)
    }
}

} // verus!
