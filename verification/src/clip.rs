//! MIDI clips and their notes.

use vstd::prelude::*;

verus! {

/// Unique identifier for clips
#[derive(Debug, Clone, Copy, PartialEq, Eq, Hash, Structural)]
pub struct ClipId(pub u64);

/// A single MIDI note event
#[derive(Debug, Clone, Copy)]
pub struct MidiNote {
    /// MIDI note number (0-127, 60 = middle C)
    pub pitch: u8,
    /// Velocity (0-127)
    pub velocity: u8,
    /// Start position in ticks (PPQ-based)
    pub start_tick: u64,
    /// Duration in ticks
    pub duration_ticks: u64,
}

impl MidiNote {
    pub fn new(pitch: u8, velocity: u8, start_tick: u64, duration_ticks: u64) -> (r: Self)
        ensures
            r == (MidiNote { pitch, velocity, start_tick, duration_ticks }),
    {
        MidiNote { pitch, velocity, start_tick, duration_ticks }
    }

    /// End tick (start + duration)
    pub fn end_tick(&self) -> (r: u64)
        requires
            self.start_tick + self.duration_ticks <= u64::MAX,
        ensures
            r == self.start_tick + self.duration_ticks,
    {
        self.start_tick + self.duration_ticks
    }
}

/// What a MIDI clip holds, with its name and notes as sequences.
pub struct MidiClipView {
    pub id: ClipId,
    pub start_sample: u64,
    pub length_samples: u64,
    pub name: Seq<char>,
    pub notes: Seq<MidiNote>,
    pub ppq: u16,
}

/// MIDI clip containing note events
#[derive(Debug)]
pub struct MidiClip {
    pub id: ClipId,
    /// Start position in samples (timeline position)
    pub start_sample: u64,
    /// Length in samples
    pub length_samples: u64,
    /// Clip name/label
    pub name: String,
    /// Notes sorted by start_tick
    pub notes: Vec<MidiNote>,
    /// Pulses per quarter note (default 480)
    pub ppq: u16,
}

impl View for MidiClip {
    type V = MidiClipView;

    open spec fn view(&self) -> MidiClipView {
        MidiClipView {
            id: self.id,
            start_sample: self.start_sample,
            length_samples: self.length_samples,
            name: self.name@,
            notes: self.notes@,
            ppq: self.ppq,
        }
    }
}

/// Notes ordered by start tick.
pub open spec fn notes_sorted(notes: Seq<MidiNote>) -> bool {
    forall|i: int, j: int|
        0 <= i < j < notes.len() ==> #[trigger] notes[i].start_tick <= #[trigger] notes[j].start_tick
}

/// The place where `add_note` puts a note starting at `tick`: after every note
/// that starts no later, before the first note that starts later.
pub open spec fn is_insert_position(notes: Seq<MidiNote>, tick: u64, idx: int) -> bool {
    &&& 0 <= idx <= notes.len()
    &&& forall|i: int| 0 <= i < idx ==> #[trigger] notes[i].start_tick <= tick
    &&& idx < notes.len() ==> notes[idx].start_tick > tick
}

/// Adding a note to notes that are ordered by start tick keeps them ordered.
pub proof fn lemma_insert_keeps_sorted(notes: Seq<MidiNote>, note: MidiNote, idx: int)
    requires
        notes_sorted(notes),
        is_insert_position(notes, note.start_tick, idx),
    ensures
        notes_sorted(notes.insert(idx, note)),
{
    let r = notes.insert(idx, note);
    assert forall|i: int, j: int| 0 <= i < j < r.len() implies #[trigger] r[i].start_tick
        <= #[trigger] r[j].start_tick by {
        if j < idx {
            assert(r[i] == notes[i] && r[j] == notes[j]);
        } else if j == idx {
            assert(r[i] == notes[i]);
        } else if i < idx {
            assert(r[i] == notes[i] && r[j] == notes[j - 1]);
            assert(notes[i].start_tick <= notes[j - 1].start_tick);
        } else if i == idx {
            assert(r[j] == notes[j - 1]);
            if j - 1 > idx {
                assert(notes[idx].start_tick <= notes[j - 1].start_tick);
            }
        } else {
            assert(r[i] == notes[i - 1] && r[j] == notes[j - 1]);
            assert(notes[i - 1].start_tick <= notes[j - 1].start_tick);
        }
    }
}

impl Clone for MidiClip {
    fn clone(&self) -> (r: Self)
        ensures
            r@ == self@,
    {
        MidiClip {
            id: self.id,
            start_sample: self.start_sample,
            length_samples: self.length_samples,
            name: self.name.clone(),
            notes: self.notes.clone(),
            ppq: self.ppq,
        }
    }
}

impl MidiClip {
    /// An empty clip at the timeline start, 480 pulses per quarter note.
    pub fn new(id: ClipId, length_samples: u64) -> (r: Self)
        ensures
            r@ == (MidiClipView {
                id,
                start_sample: 0,
                length_samples,
                name: Seq::empty(),
                notes: Seq::empty(),
                ppq: 480,
            }),
    {
        MidiClip {
            id,
            start_sample: 0,
            length_samples,
            name: String::new(),
            notes: Vec::new(),
            ppq: 480,
        }
    }

    /// End position in samples
    pub fn end_sample(&self) -> (r: u64)
        requires
            self.start_sample + self.length_samples <= u64::MAX,
        ensures
            r == self.start_sample + self.length_samples,
    {
        self.start_sample + self.length_samples
    }

    /// Add a note, keeping notes sorted by start_tick: it goes after every note
    /// that starts no later than it does.
    pub fn add_note(&mut self, note: MidiNote)
        ensures
            exists|idx: int|
                is_insert_position(old(self).notes@, note.start_tick, idx) && final(self)@
                    == (MidiClipView { notes: old(self).notes@.insert(idx, note), ..old(self)@ }),
    {
        let mut idx: usize = 0;
        while idx < self.notes.len() && self.notes[idx].start_tick <= note.start_tick
            invariant
                idx <= self.notes.len(),
                forall|i: int| 0 <= i < idx ==> #[trigger] self.notes@[i].start_tick <= note.start_tick,
            decreases self.notes.len() - idx,
        {
            idx = idx + 1;
        }
        let ghost pos = idx as int;
        self.notes.insert(idx, note);
        assert(is_insert_position(old(self).notes@, note.start_tick, pos));
    }

    /// Remove note at index
    pub fn remove_note(&mut self, index: usize) -> (r: Option<MidiNote>)
        ensures
            index < old(self).notes@.len() ==> r == Some(old(self).notes@[index as int])
                && final(self)@ == (MidiClipView {
                notes: old(self).notes@.remove(index as int),
                ..old(self)@
            }),
            index >= old(self).notes@.len() ==> r is None && final(self)@ == old(self)@,
    {
        if index < self.notes.len() {
            return Some(self.notes.remove(index));
        }
        None
    }
}


// ---------------------------------------------------------------------------
// Drum roll
// ---------------------------------------------------------------------------

/// A note of `pitch` that starts less than a sixteenth (a quarter of
/// `ppq` ticks, rounded down) away from `tick`: clicking there hits it.
pub open spec fn hits_note(n: MidiNote, pitch: u8, tick: u64, ppq: u16) -> bool {
    &&& n.pitch == pitch
    &&& (if n.start_tick >= tick {
        n.start_tick - tick
    } else {
        tick - n.start_tick
    }) < (ppq / 4) as int
}

/// A click on the drum roll at `tick` in the lane of `pitch`: the first note it
/// hits is removed (and `true` returned); if it hits none, a note of that pitch
/// with velocity 100 and the given duration is added as `add_note` adds it
/// (and `false` returned).
pub fn toggle_drum_note(clip: &mut MidiClip, pitch: u8, tick: u64, duration: u64) -> (removed: bool)
    ensures
        removed <==> exists|i: int| 0 <= i < old(clip).notes@.len() && hits_note(
            #[trigger] old(clip).notes@[i],
            pitch,
            tick,
            old(clip).ppq,
        ),
        removed ==> exists|i: int|
            0 <= i < old(clip).notes@.len() && hits_note(old(clip).notes@[i], pitch, tick, old(clip).ppq)
                && (forall|k: int|
                0 <= k < i ==> !hits_note(#[trigger] old(clip).notes@[k], pitch, tick, old(clip).ppq))
                && final(clip)@ == (MidiClipView { notes: old(clip).notes@.remove(i), ..old(clip)@ }),
        !removed ==> exists|idx: int|
            is_insert_position(old(clip).notes@, tick, idx) && final(clip)@ == (MidiClipView {
                notes: old(clip).notes@.insert(
                    idx,
                    MidiNote { pitch, velocity: 100, start_tick: tick, duration_ticks: duration },
                ),
                ..old(clip)@
            }),
{
    let reach = clip.ppq / 4;
    let mut i: usize = 0;
    while i < clip.notes.len()
        invariant
            i <= clip.notes@.len(),
            reach == clip.ppq / 4,
            clip@ == old(clip)@,
            forall|k: int| 0 <= k < i ==> !hits_note(#[trigger] clip.notes@[k], pitch, tick, clip.ppq),
        decreases clip.notes@.len() - i,
    {
        let n = clip.notes[i];
        let dist: u64 = if n.start_tick >= tick {
            n.start_tick - tick
        } else {
            tick - n.start_tick
        };
        if n.pitch == pitch && dist < reach as u64 {
            let ghost pos = i as int;
            assert(hits_note(old(clip).notes@[pos], pitch, tick, old(clip).ppq));
            clip.notes.remove(i);
            return true;
        }
        i = i + 1;
    }
    clip.add_note(MidiNote::new(pitch, 100, tick, duration));
    false
}

// ---------------------------------------------------------------------------
// Audio clip frames
// ---------------------------------------------------------------------------

/// The number of whole frames in `data_len` interleaved samples of `channels`
/// channels.
pub fn frame_count(data_len: usize, channels: u16) -> (r: u64)
    requires
        channels > 0,
    ensures
        r == (data_len as int) / (channels as int),
{
    data_len as u64 / channels as u64
}

/// Where, in the interleaved data of an audio clip that starts at `start` and
/// lasts `length` frames, the frame heard at timeline sample `t` begins; none
/// when `t` lies outside the clip or past the end of its data.
pub open spec fn frame_start(start: u64, length: u64, channels: u16, data_len: usize, t: u64) -> Option<int> {
    if t < start || t - start >= length {
        None
    } else if (t - start) * channels >= data_len {
        None
    } else {
        Some((t - start) * channels)
    }
}

/// The index of the first sample of the frame that a clip plays at
/// `timeline_sample`, if the clip plays one there.
pub fn frame_index(start_sample: u64, length_samples: u64, channels: u16, data_len: usize, timeline_sample: u64) -> (r: Option<usize>)
    requires
        start_sample <= timeline_sample && timeline_sample - start_sample < length_samples
            ==> (timeline_sample - start_sample) * channels <= usize::MAX,
    ensures
        r is Some <==> frame_start(start_sample, length_samples, channels, data_len, timeline_sample) is Some,
        r is Some ==> r->0 == frame_start(start_sample, length_samples, channels, data_len, timeline_sample)->0,
{
    if timeline_sample < start_sample {
        return None;
    }
    let offset = timeline_sample - start_sample;
    if offset >= length_samples {
        return None;
    }
    let idx: usize = if channels == 0 {
        0
    } else {
        assert(offset <= usize::MAX) by (nonlinear_arith)
            requires
                offset * channels <= usize::MAX,
                channels >= 1,
        ;
        assert((offset as usize) as int * (channels as usize) as int == offset * channels);
        (offset as usize) * (channels as usize)
    };
    if idx >= data_len {
        return None;
    }
    Some(idx)
}

} // verus!
