//! The data model of the keyboard step sequencer: drum steps with their sample
//! layers, the rows that keyboard input can go to, note-repeat rates, and the
//! pitch of each step of a melodic row.

use vstd::arithmetic::power2::{lemma2_to64, lemma_pow2_unfold, pow2};
use vstd::bits::lemma_u16_shl_is_mul;
use vstd::prelude::*;

use crate::scales::{scale_intervals, ScaleMode};

verus! {

/// The number of sample layers in a drum step.
pub const LAYER_COUNT: usize = 12;

/// A single layer within a drum step
#[derive(Clone)]
pub struct DrumLayer {
    pub sample_name: Option<String>,
    pub active: bool,
}

impl Default for DrumLayer {
    fn default() -> (r: Self)
        ensures
            r.sample_name is None,
            !r.active,
    {
        DrumLayer { sample_name: None, active: false }
    }
}

/// A single drum step with up to 12 sample layers
#[derive(Clone)]
pub struct DrumStep {
    pub active: bool,
    pub layers: [DrumLayer; 12],
}

/// Bit `i` set for each active layer `i` among the first `n` layers.
pub open spec fn layer_mask(layers: Seq<DrumLayer>, n: int) -> nat
    decreases n,
{
    if n <= 0 {
        0
    } else {
        layer_mask(layers, n - 1) + if layers[n - 1].active {
            pow2((n - 1) as nat)
        } else {
            0
        }
    }
}

proof fn lemma_layer_mask_bound(layers: Seq<DrumLayer>, n: int)
    requires
        0 <= n,
    ensures
        layer_mask(layers, n) < pow2(n as nat),
    decreases n,
{
    if n > 0 {
        lemma_layer_mask_bound(layers, n - 1);
        lemma_pow2_unfold(n as nat);
    } else {
        lemma2_to64();
    }
}

proof fn lemma_or_disjoint(m: u16, i: u16)
    requires
        i < 16,
        m < (1u16 << i),
    ensures
        m | (1u16 << i) == m + (1u16 << i),
{
    assert(m < (1u16 << i) ==> (m | (1u16 << i)) == m + (1u16 << i)) by (bit_vector)
        requires
            i < 16,
    ;
}

impl Default for DrumStep {
    fn default() -> (r: Self)
        ensures
            !r.active,
            forall|i: int| 0 <= i < 12 ==> (#[trigger] r.layers@[i]).sample_name is None
                && !r.layers@[i].active,
    {
        DrumStep {
            active: false,
            layers: [
                DrumLayer::default(),
                DrumLayer::default(),
                DrumLayer::default(),
                DrumLayer::default(),
                DrumLayer::default(),
                DrumLayer::default(),
                DrumLayer::default(),
                DrumLayer::default(),
                DrumLayer::default(),
                DrumLayer::default(),
                DrumLayer::default(),
                DrumLayer::default(),
            ],
        }
    }
}

impl DrumStep {
    /// Returns true if any layer has a sample loaded
    pub fn has_any_sample(&self) -> (r: bool)
        ensures
            r == exists|i: int| 0 <= i < 12 && (#[trigger] self.layers@[i]).sample_name is Some,
    {
        for i in 0..12
            invariant
                forall|k: int| 0 <= k < i ==> (#[trigger] self.layers@[k]).sample_name is None,
        {
            if self.layers[i].sample_name.is_some() {
                return true;
            }
        }
        false
    }

    /// Bitmask of which layers are active (bit N = layer N)
    pub fn active_layer_mask(&self) -> (r: u16)
        ensures
            r == layer_mask(self.layers@, 12),
    {
        let mut mask: u16 = 0;
        for i in 0..12
            invariant
                mask == layer_mask(self.layers@, i as int),
        {
            proof {
                lemma2_to64();
                lemma_layer_mask_bound(self.layers@, i as int);
                lemma_u16_shl_is_mul(1, i as u16);
                lemma_pow2_unfold((i + 1) as nat);
            }
            let bit: u16 = if self.layers[i].active {
                1
            } else {
                0
            };
            let shifted: u16 = bit << (i as u16);
            proof {
                if bit == 1 {
                    lemma_or_disjoint(mask, i as u16);
                } else {
                    assert(0u16 << (i as u16) == 0) by (bit_vector);
                    assert(mask | 0u16 == mask) by (bit_vector);
                }
            }
            mask = mask | shifted;
        }
        mask
    }
}

/// Which row of the sequencer is active for keyboard input
#[derive(Clone, Copy, Debug, PartialEq, Eq, Structural)]
pub enum SequencerRow {
    /// Drum layer in expanded grid (0-11, displayed as 1-12)
    DrumLayer(usize),
    Drum,
    Octave3,
    Octave4,
    Octave5,
}

impl Default for SequencerRow {
    fn default() -> (r: Self)
        ensures
            r == SequencerRow::Drum,
    {
        SequencerRow::Drum
    }
}

/// The row after `r` when tabbing forward: drum layers count down to the drum
/// row, then the octave rows; the last octave row leads to the top drum layer
/// when the drum grid is expanded, else back to the drum row.
pub open spec fn next_row(r: SequencerRow, drum_expanded: bool) -> SequencerRow {
    match r {
        SequencerRow::DrumLayer(layer) => if layer > 0 {
            SequencerRow::DrumLayer((layer - 1) as usize)
        } else {
            SequencerRow::Drum
        },
        SequencerRow::Drum => SequencerRow::Octave3,
        SequencerRow::Octave3 => SequencerRow::Octave4,
        SequencerRow::Octave4 => SequencerRow::Octave5,
        SequencerRow::Octave5 => if drum_expanded {
            SequencerRow::DrumLayer(11)
        } else {
            SequencerRow::Drum
        },
    }
}

/// The row before `r` when tabbing backward (the reverse cycle).
pub open spec fn prev_row(r: SequencerRow, drum_expanded: bool) -> SequencerRow {
    match r {
        SequencerRow::DrumLayer(layer) => if layer < 11 {
            SequencerRow::DrumLayer((layer + 1) as usize)
        } else {
            SequencerRow::Octave5
        },
        SequencerRow::Drum => if drum_expanded {
            SequencerRow::DrumLayer(0)
        } else {
            SequencerRow::Octave5
        },
        SequencerRow::Octave3 => SequencerRow::Drum,
        SequencerRow::Octave4 => SequencerRow::Octave3,
        SequencerRow::Octave5 => SequencerRow::Octave4,
    }
}

/// A row that the cycle visits: drum layers only while the drum grid is
/// expanded, and only layers 0 to 11.
pub open spec fn row_in_cycle(r: SequencerRow, drum_expanded: bool) -> bool {
    match r {
        SequencerRow::DrumLayer(layer) => drum_expanded && layer <= 11,
        _ => true,
    }
}

/// Tabbing forward then back, or back then forward, returns to the same row,
/// and both stay within the cycle.
pub proof fn lemma_row_cycle(r: SequencerRow, drum_expanded: bool)
    requires
        row_in_cycle(r, drum_expanded),
    ensures
        row_in_cycle(next_row(r, drum_expanded), drum_expanded),
        row_in_cycle(prev_row(r, drum_expanded), drum_expanded),
        prev_row(next_row(r, drum_expanded), drum_expanded) == r,
        next_row(prev_row(r, drum_expanded), drum_expanded) == r,
{
}

/// The number of rows the Tab cycle visits: twelve drum layers, the drum row
/// and three octave rows while the drum grid is expanded, else those four.
pub open spec fn cycle_length(drum_expanded: bool) -> int {
    if drum_expanded {
        16
    } else {
        4
    }
}

/// Where a row stands in the Tab cycle, counting from the top drum layer when
/// the grid is expanded and from the drum row otherwise.
pub open spec fn row_position(r: SequencerRow, drum_expanded: bool) -> int {
    let base = if drum_expanded {
        12int
    } else {
        0int
    };
    match r {
        SequencerRow::DrumLayer(layer) => 11 - layer,
        SequencerRow::Drum => base,
        SequencerRow::Octave3 => base + 1,
        SequencerRow::Octave4 => base + 2,
        SequencerRow::Octave5 => base + 3,
    }
}

/// The row reached from `r` after tabbing forward `k` times.
pub open spec fn next_rows(r: SequencerRow, drum_expanded: bool, k: nat) -> SequencerRow
    decreases k,
{
    if k == 0 {
        r
    } else {
        next_row(next_rows(r, drum_expanded, (k - 1) as nat), drum_expanded)
    }
}

proof fn lemma_row_position_injective(a: SequencerRow, b: SequencerRow, drum_expanded: bool)
    requires
        row_in_cycle(a, drum_expanded),
        row_in_cycle(b, drum_expanded),
        row_position(a, drum_expanded) == row_position(b, drum_expanded),
    ensures
        a == b,
{
}

proof fn lemma_row_positions(r: SequencerRow, drum_expanded: bool, k: nat)
    requires
        row_in_cycle(r, drum_expanded),
    ensures
        row_in_cycle(next_rows(r, drum_expanded, k), drum_expanded),
        row_position(next_rows(r, drum_expanded, k), drum_expanded) == (row_position(r, drum_expanded)
            + k) % cycle_length(drum_expanded),
    decreases k,
{
    let p = row_position(r, drum_expanded);
    let n = cycle_length(drum_expanded);
    if k == 0 {
        assert(0 <= p < n);
        vstd::arithmetic::div_mod::lemma_small_mod(p as nat, n as nat);
    } else {
        lemma_row_positions(r, drum_expanded, (k - 1) as nat);
        let prev = next_rows(r, drum_expanded, (k - 1) as nat);
        lemma_row_cycle(prev, drum_expanded);
        assert(row_position(next_row(prev, drum_expanded), drum_expanded) == (row_position(
            prev,
            drum_expanded,
        ) + 1) % n);
        vstd::arithmetic::div_mod::lemma_add_mod_noop(p + k - 1, 1, n);
        vstd::arithmetic::div_mod::lemma_small_mod(1, n as nat);
    }
}

/// Tabbing forward steps once around the cycle: a row returns to itself after
/// exactly 16 presses while the drum grid is expanded and 4 otherwise, and
/// never before.
pub proof fn lemma_row_period(r: SequencerRow, drum_expanded: bool, k: nat)
    requires
        row_in_cycle(r, drum_expanded),
    ensures
        row_in_cycle(next_rows(r, drum_expanded, k), drum_expanded),
        row_position(next_rows(r, drum_expanded, k), drum_expanded) == (row_position(r, drum_expanded)
            + k) % cycle_length(drum_expanded),
        (next_rows(r, drum_expanded, k) == r) <==> (k as int) % cycle_length(drum_expanded) == 0,
{
    lemma_row_positions(r, drum_expanded, k);
    let p = row_position(r, drum_expanded);
    let n = cycle_length(drum_expanded);
    let q = next_rows(r, drum_expanded, k);
    assert(0 <= p < n);
    vstd::arithmetic::div_mod::lemma_add_mod_noop(p, k as int, n);
    vstd::arithmetic::div_mod::lemma_small_mod(p as nat, n as nat);
    vstd::arithmetic::div_mod::lemma_mod_bound(k as int, n);
    let m = (k as int) % n;
    if m == 0 {
        vstd::arithmetic::div_mod::lemma_small_mod(p as nat, n as nat);
        lemma_row_position_injective(q, r, drum_expanded);
    } else {
        if p + m < n {
            vstd::arithmetic::div_mod::lemma_small_mod((p + m) as nat, n as nat);
        } else {
            vstd::arithmetic::div_mod::lemma_mod_sub_multiples_vanish(p + m, n);
            vstd::arithmetic::div_mod::lemma_small_mod((p + m - n) as nat, n as nat);
        }
    }
}

impl SequencerRow {
    /// Cycle to the next row (Tab). When drum_expanded, includes drum layers.
    pub fn next(self, drum_expanded: bool) -> (r: Self)
        ensures
            r == next_row(self, drum_expanded),
    {
        match self {
            SequencerRow::DrumLayer(layer) => if layer > 0 {
                SequencerRow::DrumLayer(layer - 1)
            } else {
                SequencerRow::Drum
            },
            SequencerRow::Drum => SequencerRow::Octave3,
            SequencerRow::Octave3 => SequencerRow::Octave4,
            SequencerRow::Octave4 => SequencerRow::Octave5,
            SequencerRow::Octave5 => if drum_expanded {
                SequencerRow::DrumLayer(11)
            } else {
                SequencerRow::Drum
            },
        }
    }

    /// Cycle to the previous row (Shift+Tab). When drum_expanded, includes drum layers.
    pub fn prev(self, drum_expanded: bool) -> (r: Self)
        ensures
            r == prev_row(self, drum_expanded),
    {
        match self {
            SequencerRow::DrumLayer(layer) => if layer < 11 {
                SequencerRow::DrumLayer(layer + 1)
            } else {
                SequencerRow::Octave5
            },
            SequencerRow::Drum => if drum_expanded {
                SequencerRow::DrumLayer(0)
            } else {
                SequencerRow::Octave5
            },
            SequencerRow::Octave3 => SequencerRow::Drum,
            SequencerRow::Octave4 => SequencerRow::Octave3,
            SequencerRow::Octave5 => SequencerRow::Octave4,
        }
    }

    /// Returns the drum layer index if this is a DrumLayer row
    pub fn drum_layer(self) -> (r: Option<usize>)
        ensures
            r == match self {
                SequencerRow::DrumLayer(layer) => Some(layer),
                _ => None,
            },
    {
        match self {
            SequencerRow::DrumLayer(layer) => Some(layer),
            _ => None,
        }
    }
}

/// Note repeat rate for MPC/Maschine-style triggering
#[derive(Clone, Copy, Debug, PartialEq, Eq, Structural)]
pub enum RepeatRate {
    Off,
    /// 1/4 note
    Quarter,
    /// 1/8 note
    Eighth,
    /// 1/8 triplet
    EighthTriplet,
    /// 1/16 note
    Sixteenth,
    /// 1/16 triplet
    SixteenthTriplet,
    /// 1/32 note
    ThirtySecond,
}

impl Default for RepeatRate {
    fn default() -> (r: Self)
        ensures
            r == RepeatRate::Off,
    {
        RepeatRate::Off
    }
}

/// The label shown for each repeat rate.
pub open spec fn repeat_rate_name(r: RepeatRate) -> Seq<char> {
    match r {
        RepeatRate::Off => "Off"@,
        RepeatRate::Quarter => "1/4"@,
        RepeatRate::Eighth => "1/8"@,
        RepeatRate::EighthTriplet => "1/8T"@,
        RepeatRate::Sixteenth => "1/16"@,
        RepeatRate::SixteenthTriplet => "1/16T"@,
        RepeatRate::ThirtySecond => "1/32"@,
    }
}

/// The length of a repeat in beats as a fraction (numerator, denominator), or
/// `None` when repeating is off.
pub open spec fn repeat_rate_fraction(r: RepeatRate) -> Option<(u8, u8)> {
    match r {
        RepeatRate::Off => None,
        RepeatRate::Quarter => Some((1u8, 1u8)),
        RepeatRate::Eighth => Some((1u8, 2u8)),
        RepeatRate::EighthTriplet => Some((1u8, 3u8)),
        RepeatRate::Sixteenth => Some((1u8, 4u8)),
        RepeatRate::SixteenthTriplet => Some((1u8, 6u8)),
        RepeatRate::ThirtySecond => Some((1u8, 8u8)),
    }
}

impl RepeatRate {
    /// Display name for UI
    pub fn name(self) -> (r: &'static str)
        ensures
            r@ == repeat_rate_name(self),
    {
        match self {
            RepeatRate::Off => "Off",
            RepeatRate::Quarter => "1/4",
            RepeatRate::Eighth => "1/8",
            RepeatRate::EighthTriplet => "1/8T",
            RepeatRate::Sixteenth => "1/16",
            RepeatRate::SixteenthTriplet => "1/16T",
            RepeatRate::ThirtySecond => "1/32",
        }
    }

    /// Repeat interval in beats as a fraction (numerator, denominator), or
    /// None if Off
    pub fn beat_fraction(self) -> (r: Option<(u8, u8)>)
        ensures
            r == repeat_rate_fraction(self),
    {
        match self {
            RepeatRate::Off => None,
            RepeatRate::Quarter => Some((1, 1)),
            RepeatRate::Eighth => Some((1, 2)),
            RepeatRate::EighthTriplet => Some((1, 3)),
            RepeatRate::Sixteenth => Some((1, 4)),
            RepeatRate::SixteenthTriplet => Some((1, 6)),
            RepeatRate::ThirtySecond => Some((1, 8)),
        }
    }
}

// ---------------------------------------------------------------------------
// Melodic rows
// ---------------------------------------------------------------------------

/// Each row spans one octave of the scale; a non-chromatic row also has the
/// octave note at its end.
pub open spec fn step_count_spec(mode: ScaleMode) -> nat {
    if mode == ScaleMode::Chromatic {
        scale_intervals(mode).len()
    } else {
        scale_intervals(mode).len() + 1
    }
}

/// The root used for a row: the chosen root note, or C for the chromatic row.
pub open spec fn row_root(mode: ScaleMode, root_note: u8) -> int {
    if mode == ScaleMode::Chromatic {
        0
    } else {
        root_note as int
    }
}

/// The pitch of step `step` of a row starting at `base_pitch`: the scale tone
/// of that step, or the octave above the root past the last tone.
pub open spec fn step_pitch(mode: ScaleMode, root_note: u8, base_pitch: u8, step: int) -> int {
    let iv = scale_intervals(mode);
    base_pitch + row_root(mode, root_note) + if step >= iv.len() {
        12
    } else {
        iv[step] as int
    }
}

/// The pitch class (0 = C) named on step `step` of a row.
pub open spec fn step_pitch_class(mode: ScaleMode, root_note: u8, step: int) -> int {
    let iv = scale_intervals(mode);
    (row_root(mode, root_note) + if step >= iv.len() {
        0
    } else {
        iv[step] as int
    }) % 12
}

/// The black keys of the piano among the twelve pitch classes.
pub open spec fn black_key(pc: int) -> bool {
    pc == 1 || pc == 3 || pc == 6 || pc == 8 || pc == 10
}

/// The number of steps in a melodic row.
pub fn step_count(mode: ScaleMode) -> (r: usize)
    ensures
        r == step_count_spec(mode),
{
    let len = mode.intervals().len();
    if mode == ScaleMode::Chromatic {
        return len;
    }
    len + 1
}

/// The pitch played by step `step` of a row starting at `base_pitch`.
pub fn pitch_for_step(mode: ScaleMode, root_note: u8, base_pitch: u8, step: usize) -> (r: u8)
    requires
        step_pitch(mode, root_note, base_pitch, step as int) <= u8::MAX,
        base_pitch + row_root(mode, root_note) <= u8::MAX,
    ensures
        r == step_pitch(mode, root_note, base_pitch, step as int),
{
    let intervals = mode.intervals();
    let root = if mode == ScaleMode::Chromatic {
        0
    } else {
        root_note
    };
    if step >= intervals.len() {
        return base_pitch + root + 12;
    }
    base_pitch + root + intervals[step]
}

/// The pitch class (an index into the twelve note names, 0 = C) and the
/// octave number of a row's first pitch, `base_pitch` above the row's root;
/// octave -1 holds MIDI notes 0 to 11.
pub fn row_start(mode: ScaleMode, root_note: u8, base_pitch: u8) -> (r: (usize, i32))
    requires
        base_pitch + row_root(mode, root_note) <= u8::MAX,
    ensures
        r.0 == (base_pitch + row_root(mode, root_note)) % 12,
        r.1 == (base_pitch + row_root(mode, root_note)) / 12 - 1,
{
    let root = if mode == ScaleMode::Chromatic {
        0
    } else {
        root_note
    };
    let start = base_pitch + root;
    ((start as usize) % 12, (start as i32) / 12 - 1)
}

/// The pitch class named on step `step` of a row (an index into the twelve
/// note names, 0 = C).
pub fn pitch_class_for_step(mode: ScaleMode, root_note: u8, step: usize) -> (r: usize)
    requires
        row_root(mode, root_note) + (if step >= scale_intervals(mode).len() {
            0
        } else {
            scale_intervals(mode)[step as int] as int
        }) <= u8::MAX,
    ensures
        r == step_pitch_class(mode, root_note, step as int),
        r < 12,
{
    let intervals = mode.intervals();
    let root = if mode == ScaleMode::Chromatic {
        0
    } else {
        root_note
    };
    proof {
        crate::scales::lemma_scale_intervals_shape(mode);
    }
    let semitone = if step >= intervals.len() {
        0
    } else {
        intervals[step]
    };
    ((root + semitone) as usize) % 12
}

/// The name of a pitch class (0 = C).
pub fn note_name(pc: usize) -> (r: &'static str)
    requires
        pc < 12,
    ensures
        r@ == (match pc {
            0 => "C"@,
            1 => "C#"@,
            2 => "D"@,
            3 => "D#"@,
            4 => "E"@,
            5 => "F"@,
            6 => "F#"@,
            7 => "G"@,
            8 => "G#"@,
            9 => "A"@,
            10 => "A#"@,
            _ => "B"@,
        }),
{
    match pc {
        0 => "C",
        1 => "C#",
        2 => "D",
        3 => "D#",
        4 => "E",
        5 => "F",
        6 => "F#",
        7 => "G",
        8 => "G#",
        9 => "A",
        10 => "A#",
        _ => "B",
    }
}

/// Whether step `step` is drawn as a black key: only on the chromatic row,
/// where steps are semitones from C.
pub fn is_step_accidental(mode: ScaleMode, step: usize) -> (r: bool)
    ensures
        r == (mode == ScaleMode::Chromatic && black_key(step as int % 12)),
{
    if mode != ScaleMode::Chromatic {
        return false;
    }
    let pc = step % 12;
    pc == 1 || pc == 3 || pc == 6 || pc == 8 || pc == 10
}

} // verus!
