//! Pattern bank for Factory Rat-style sequencing.

use vstd::prelude::*;

use crate::clip::{MidiClip, MidiClipView};

verus! {

/// The number of pattern slots in a bank.
pub const PATTERN_COUNT: usize = 16;

/// What a pattern slot holds.
pub struct PatternSlotView {
    pub clip: Option<MidiClipView>,
    pub length_bars: u8,
    pub name: Seq<char>,
}

/// A single pattern slot in the bank
#[derive(Debug)]
pub struct PatternSlot {
    /// Optional MIDI clip data for this pattern
    pub clip: Option<MidiClip>,
    /// Length in bars (1-64)
    pub length_bars: u8,
    /// Pattern name (e.g., "Intro", "Verse")
    pub name: String,
}

impl View for PatternSlot {
    type V = PatternSlotView;

    open spec fn view(&self) -> PatternSlotView {
        PatternSlotView {
            clip: match self.clip {
                Some(c) => Some(c@),
                None => None,
            },
            length_bars: self.length_bars,
            name: self.name@,
        }
    }
}

/// An empty slot of the given length.
pub open spec fn empty_slot(length_bars: u8) -> PatternSlotView {
    PatternSlotView { clip: None, length_bars, name: Seq::empty() }
}

/// A slot is empty when it has no clip or its clip has no notes.
pub open spec fn slot_is_empty(s: PatternSlotView) -> bool {
    match s.clip {
        Some(c) => c.notes.len() == 0,
        None => true,
    }
}

impl Clone for PatternSlot {
    fn clone(&self) -> (r: Self)
        ensures
            r@ == self@,
    {
        let clip = match &self.clip {
            Some(c) => Some(c.clone()),
            None => None,
        };
        PatternSlot { clip, length_bars: self.length_bars, name: self.name.clone() }
    }
}

impl Default for PatternSlot {
    fn default() -> (r: Self)
        ensures
            r@ == empty_slot(0),
    {
        PatternSlot { clip: None, length_bars: 0, name: String::new() }
    }
}

impl PatternSlot {
    pub fn new(length_bars: u8) -> (r: Self)
        ensures
            r@ == empty_slot(length_bars),
    {
        PatternSlot { clip: None, length_bars, name: String::new() }
    }

    pub fn with_clip(clip: MidiClip, length_bars: u8) -> (r: Self)
        ensures
            r@ == (PatternSlotView { clip: Some(clip@), length_bars, name: Seq::empty() }),
    {
        PatternSlot { clip: Some(clip), length_bars, name: String::new() }
    }

    /// True when there is no clip, or the clip has no notes.
    pub fn is_empty(&self) -> (r: bool)
        ensures
            r == slot_is_empty(self@),
    {
        match &self.clip {
            Some(c) => c.notes.len() == 0,
            None => true,
        }
    }
}

/// What a pattern bank holds.
pub struct PatternBankView {
    pub patterns: Seq<PatternSlotView>,
    pub active_pattern: usize,
    pub queued_pattern: Option<usize>,
}

/// Pattern bank holding 16 patterns per track
#[derive(Debug)]
pub struct PatternBank {
    /// 16 pattern slots
    pub patterns: [PatternSlot; 16],
    /// Currently active pattern index for editing
    pub active_pattern: usize,
    /// Pattern queued for next bar (None = no change)
    pub queued_pattern: Option<usize>,
}

impl View for PatternBank {
    type V = PatternBankView;

    open spec fn view(&self) -> PatternBankView {
        PatternBankView {
            patterns: self.patterns@.map_values(|s: PatternSlot| s@),
            active_pattern: self.active_pattern,
            queued_pattern: self.queued_pattern,
        }
    }
}

/// `i` limited to the last slot index.
pub open spec fn clamp_slot(i: usize) -> usize {
    if i < 15 {
        i
    } else {
        15
    }
}

/// The bank after `set_active(index)`.
pub open spec fn after_set_active(b: PatternBankView, index: usize) -> PatternBankView {
    PatternBankView { active_pattern: clamp_slot(index), ..b }
}

/// The bank after `queue_pattern(index)`.
pub open spec fn after_queue(b: PatternBankView, index: usize) -> PatternBankView {
    PatternBankView { queued_pattern: Some(clamp_slot(index)), ..b }
}

/// The bank after `process_queue()` at a bar boundary.
pub open spec fn after_process(b: PatternBankView) -> PatternBankView {
    match b.queued_pattern {
        Some(q) => PatternBankView { active_pattern: q, queued_pattern: None, ..b },
        None => b,
    }
}

/// The active and the queued pattern index name slots of the bank.
pub open spec fn indices_in_range(b: PatternBankView) -> bool {
    &&& b.active_pattern < 16
    &&& (b.queued_pattern matches Some(q) ==> q < 16)
}

/// A pattern queued now is the active one after the next bar boundary, the
/// queue is then empty, and no pattern's contents change.
pub proof fn lemma_queued_pattern_plays_next(b: PatternBankView, index: usize)
    ensures
        after_process(after_queue(b, index)).active_pattern == clamp_slot(index),
        after_process(after_queue(b, index)).queued_pattern is None,
        after_process(after_queue(b, index)).patterns == b.patterns,
{
}

/// Selecting, queueing and switching patterns never leaves the 16 slots.
pub proof fn lemma_indices_stay_in_range(b: PatternBankView, index: usize)
    requires
        indices_in_range(b),
    ensures
        indices_in_range(after_set_active(b, index)),
        indices_in_range(after_queue(b, index)),
        indices_in_range(after_process(b)),
{
}

impl Clone for PatternBank {
    fn clone(&self) -> (r: Self)
        ensures
            r@ == self@,
    {
        let r = PatternBank {
            patterns: [
                self.patterns[0].clone(),
                self.patterns[1].clone(),
                self.patterns[2].clone(),
                self.patterns[3].clone(),
                self.patterns[4].clone(),
                self.patterns[5].clone(),
                self.patterns[6].clone(),
                self.patterns[7].clone(),
                self.patterns[8].clone(),
                self.patterns[9].clone(),
                self.patterns[10].clone(),
                self.patterns[11].clone(),
                self.patterns[12].clone(),
                self.patterns[13].clone(),
                self.patterns[14].clone(),
                self.patterns[15].clone(),
            ],
            active_pattern: self.active_pattern,
            queued_pattern: self.queued_pattern,
        };
        assert(r@.patterns =~= self@.patterns);
        r
    }
}

impl Default for PatternBank {
    fn default() -> (r: Self)
        ensures
            r@ == (PatternBankView {
                patterns: Seq::new(16, |i: int| empty_slot(4)),
                active_pattern: 0,
                queued_pattern: None,
            }),
    {
        let r = PatternBank {
            patterns: [
                PatternSlot::new(4),
                PatternSlot::new(4),
                PatternSlot::new(4),
                PatternSlot::new(4),
                PatternSlot::new(4),
                PatternSlot::new(4),
                PatternSlot::new(4),
                PatternSlot::new(4),
                PatternSlot::new(4),
                PatternSlot::new(4),
                PatternSlot::new(4),
                PatternSlot::new(4),
                PatternSlot::new(4),
                PatternSlot::new(4),
                PatternSlot::new(4),
                PatternSlot::new(4),
            ],
            active_pattern: 0,
            queued_pattern: None,
        };
        assert(r@.patterns =~= Seq::new(16, |i: int| empty_slot(4)));
        r
    }
}

impl PatternBank {
    /// A bank of 16 empty four-bar patterns, the first one active.
    pub fn new() -> (r: Self)
        ensures
            r@ == (PatternBankView {
                patterns: Seq::new(16, |i: int| empty_slot(4)),
                active_pattern: 0,
                queued_pattern: None,
            }),
    {
        Self::default()
    }

    /// Get the currently active pattern slot
    pub fn active(&self) -> (r: &PatternSlot)
        requires
            self.active_pattern < 16,
        ensures
            r@ == self@.patterns[self.active_pattern as int],
    {
        &self.patterns[self.active_pattern]
    }

    /// Get mutable reference to active pattern
    pub fn active_mut(&mut self) -> (r: &mut PatternSlot)
        requires
            old(self).active_pattern < 16,
        ensures
            *r == old(self).patterns@[old(self).active_pattern as int],
            final(self).patterns@ == old(self).patterns@.update(
                old(self).active_pattern as int,
                *final(r),
            ),
            final(self).active_pattern == old(self).active_pattern,
            final(self).queued_pattern == old(self).queued_pattern,
    {
        &mut self.patterns[self.active_pattern]
    }

    /// Set active pattern index (clamped to 0-15)
    pub fn set_active(&mut self, index: usize)
        ensures
            final(self)@ == after_set_active(old(self)@, index),
    {
        self.active_pattern = if index < 15 {
            index
        } else {
            15
        };
    }

    /// Queue pattern change for next bar boundary
    pub fn queue_pattern(&mut self, index: usize)
        ensures
            final(self)@ == after_queue(old(self)@, index),
    {
        self.queued_pattern = Some(
            if index < 15 {
                index
            } else {
                15
            },
        );
    }

    /// Process queued pattern change (call at bar boundary): the queued pattern
    /// becomes the active one and the queue empties. Returns whether one was queued.
    pub fn process_queue(&mut self) -> (r: bool)
        ensures
            r == old(self).queued_pattern is Some,
            final(self)@ == after_process(old(self)@),
    {
        match self.queued_pattern.take() {
            Some(queued) => {
                self.active_pattern = queued;
                true
            },
            None => false,
        }
    }

    /// Copy pattern from one slot to another (nothing happens for an index out
    /// of range or a copy onto itself)
    pub fn copy_pattern(&mut self, from: usize, to: usize)
        ensures
            from < 16 && to < 16 && from != to ==> final(self)@ == (PatternBankView {
                patterns: old(self)@.patterns.update(to as int, old(self)@.patterns[from as int]),
                ..old(self)@
            }),
            !(from < 16 && to < 16 && from != to) ==> final(self)@ == old(self)@,
    {
        if from >= 16 || to >= 16 || from == to {
            return ;
        }
        let copy = self.patterns[from].clone();
        self.patterns[to] = copy;
        assert(self@.patterns =~= old(self)@.patterns.update(to as int, old(self)@.patterns[from as int]));
    }

    /// Clear a pattern slot back to an empty four-bar pattern
    pub fn clear_pattern(&mut self, index: usize)
        ensures
            index < 16 ==> final(self)@ == (PatternBankView {
                patterns: old(self)@.patterns.update(index as int, empty_slot(4)),
                ..old(self)@
            }),
            index >= 16 ==> final(self)@ == old(self)@,
    {
        if index >= 16 {
            return ;
        }
        self.patterns[index] = PatternSlot::new(4);
        assert(self@.patterns =~= old(self)@.patterns.update(index as int, empty_slot(4)));
    }
}

} // verus!
