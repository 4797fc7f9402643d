//! Scales and quantizing notes to a scale.

use vstd::prelude::*;

verus! {

/// Scale/mode types
#[derive(Debug, Clone, Copy, PartialEq, Eq, Structural)]
pub enum ScaleMode {
    Major,
    Minor,
    Dorian,
    Phrygian,
    Lydian,
    Mixolydian,
    Locrian,
    HarmonicMinor,
    MelodicMinor,
    Pentatonic,
    Blues,
    Chromatic,
}

/// The semitone offsets from the root that make up each scale.
pub open spec fn scale_intervals(mode: ScaleMode) -> Seq<u8> {
    match mode {
        ScaleMode::Major => seq![0u8, 2, 4, 5, 7, 9, 11],
        ScaleMode::Minor => seq![0u8, 2, 3, 5, 7, 8, 10],
        ScaleMode::Dorian => seq![0u8, 2, 3, 5, 7, 9, 10],
        ScaleMode::Phrygian => seq![0u8, 1, 3, 5, 7, 8, 10],
        ScaleMode::Lydian => seq![0u8, 2, 4, 6, 7, 9, 11],
        ScaleMode::Mixolydian => seq![0u8, 2, 4, 5, 7, 9, 10],
        ScaleMode::Locrian => seq![0u8, 1, 3, 5, 6, 8, 10],
        ScaleMode::HarmonicMinor => seq![0u8, 2, 3, 5, 7, 8, 11],
        ScaleMode::MelodicMinor => seq![0u8, 2, 3, 5, 7, 9, 11],
        ScaleMode::Pentatonic => seq![0u8, 2, 4, 7, 9],
        ScaleMode::Blues => seq![0u8, 3, 5, 6, 7, 10],
        ScaleMode::Chromatic => seq![0u8, 1, 2, 3, 4, 5, 6, 7, 8, 9, 10, 11],
    }
}

/// The display name of each scale.
pub open spec fn scale_name(mode: ScaleMode) -> Seq<char> {
    match mode {
        ScaleMode::Major => "Major"@,
        ScaleMode::Minor => "Minor"@,
        ScaleMode::Dorian => "Dorian"@,
        ScaleMode::Phrygian => "Phrygian"@,
        ScaleMode::Lydian => "Lydian"@,
        ScaleMode::Mixolydian => "Mixolydian"@,
        ScaleMode::Locrian => "Locrian"@,
        ScaleMode::HarmonicMinor => "Harmonic Minor"@,
        ScaleMode::MelodicMinor => "Melodic Minor"@,
        ScaleMode::Pentatonic => "Pentatonic"@,
        ScaleMode::Blues => "Blues"@,
        ScaleMode::Chromatic => "Chromatic"@,
    }
}

/// Every scale starts on its root, climbs strictly, and stays within one octave.
pub proof fn lemma_scale_intervals_shape(mode: ScaleMode)
    ensures
        scale_intervals(mode).len() >= 5,
        scale_intervals(mode)[0] == 0,
        forall|i: int, j: int|
            0 <= i < j < scale_intervals(mode).len() ==> scale_intervals(mode)[i]
                < scale_intervals(mode)[j],
        forall|i: int| 0 <= i < scale_intervals(mode).len() ==> scale_intervals(mode)[i] < 12,
{
}

impl ScaleMode {
    /// Get scale intervals (semitones from root)
    pub fn intervals(&self) -> (r: &'static [u8])
        ensures
            r@ == scale_intervals(*self),
    {
        match self {
            ScaleMode::Major => &[0, 2, 4, 5, 7, 9, 11],
            ScaleMode::Minor => &[0, 2, 3, 5, 7, 8, 10],
            ScaleMode::Dorian => &[0, 2, 3, 5, 7, 9, 10],
            ScaleMode::Phrygian => &[0, 1, 3, 5, 7, 8, 10],
            ScaleMode::Lydian => &[0, 2, 4, 6, 7, 9, 11],
            ScaleMode::Mixolydian => &[0, 2, 4, 5, 7, 9, 10],
            ScaleMode::Locrian => &[0, 1, 3, 5, 6, 8, 10],
            ScaleMode::HarmonicMinor => &[0, 2, 3, 5, 7, 8, 11],
            ScaleMode::MelodicMinor => &[0, 2, 3, 5, 7, 9, 11],
            ScaleMode::Pentatonic => &[0, 2, 4, 7, 9],
            ScaleMode::Blues => &[0, 3, 5, 6, 7, 10],
            ScaleMode::Chromatic => &[0, 1, 2, 3, 4, 5, 6, 7, 8, 9, 10, 11],
        }
    }

    /// Display name of the scale
    pub fn name(&self) -> (r: &'static str)
        ensures
            r@ == scale_name(*self),
    {
        match self {
            ScaleMode::Major => "Major",
            ScaleMode::Minor => "Minor",
            ScaleMode::Dorian => "Dorian",
            ScaleMode::Phrygian => "Phrygian",
            ScaleMode::Lydian => "Lydian",
            ScaleMode::Mixolydian => "Mixolydian",
            ScaleMode::Locrian => "Locrian",
            ScaleMode::HarmonicMinor => "Harmonic Minor",
            ScaleMode::MelodicMinor => "Melodic Minor",
            ScaleMode::Pentatonic => "Pentatonic",
            ScaleMode::Blues => "Blues",
            ScaleMode::Chromatic => "Chromatic",
        }
    }
}

// ---------------------------------------------------------------------------
// Scale notes
// ---------------------------------------------------------------------------

/// `a + b` capped at the top MIDI note 127.
pub open spec fn cap_note(v: int) -> u8 {
    if v > 127 {
        127u8
    } else {
        v as u8
    }
}

/// The notes of one octave of `mode` starting at `root`, each capped at 127.
pub open spec fn scale_notes_spec(root: u8, mode: ScaleMode) -> Seq<u8> {
    scale_intervals(mode).map_values(|iv: u8| cap_note(root + iv))
}

/// Get scale notes in an octave
pub fn scale_notes(root: u8, mode: ScaleMode) -> (r: Vec<u8>)
    requires
        forall|i: int|
            0 <= i < scale_intervals(mode).len() ==> root + #[trigger] scale_intervals(mode)[i]
                <= u8::MAX,
    ensures
        r@ == scale_notes_spec(root, mode),
{
    let intervals = mode.intervals();
    let mut r: Vec<u8> = Vec::new();
    for i in 0..intervals.len()
        invariant
            intervals@ == scale_intervals(mode),
            forall|k: int|
                0 <= k < scale_intervals(mode).len() ==> root + #[trigger] scale_intervals(mode)[k]
                    <= u8::MAX,
            r@ == scale_notes_spec(root, mode).take(i as int),
    {
        let v = root + intervals[i];
        let n = if v > 127 {
            127
        } else {
            v
        };
        r.push(n);
        assert(r@ =~= scale_notes_spec(root, mode).take(i + 1));
    }
    assert(r@ =~= scale_notes_spec(root, mode));
    r
}

// ---------------------------------------------------------------------------
// Quantizing
// ---------------------------------------------------------------------------

/// MIDI note `m` belongs to the scale of `mode` on `root`: its distance above
/// the root, taken within the octave, is one of the scale's intervals.
pub open spec fn in_scale(m: int, root: u8, mode: ScaleMode) -> bool {
    scale_intervals(mode).contains(((m - root) % 12) as u8)
}

/// The distance in semitones between two notes.
pub open spec fn note_distance(a: int, b: int) -> int {
    if a >= b {
        a - b
    } else {
        b - a
    }
}

/// The scale degree a note would take: its distance above the root within
/// the octave.
pub open spec fn degree_of(m: int, root: u8) -> int {
    (m - root) % 12
}

/// `r` is at least as near to `note` as `m` is; when both are equally near,
/// `r` is the one whose degree comes first in the scale (the lower note if
/// the degrees agree).
pub open spec fn nearer_or_tied_first(r: int, m: int, note: int, root: u8) -> bool {
    ||| note_distance(r, note) < note_distance(m, note)
    ||| note_distance(r, note) == note_distance(m, note) && degree_of(r, root) < degree_of(m, root)
    ||| note_distance(r, note) == note_distance(m, note) && degree_of(r, root) == degree_of(m, root)
        && r <= m
}

/// `r` is the note that `note` is quantized to: the scale note within the MIDI
/// range 0..=127 nearest to `note`; of two equally near, the one whose degree
/// comes first in the scale.
pub open spec fn nearest_scale_note(note: u8, root: u8, mode: ScaleMode, r: int) -> bool {
    &&& 0 <= r <= 127
    &&& in_scale(r, root, mode)
    &&& forall|m: int|
        0 <= m <= 127 && #[trigger] in_scale(m, root, mode) ==> nearer_or_tied_first(r, m, note as int, root)
}

/// Only one note is the nearest scale note: quantizing has one answer.
pub proof fn lemma_nearest_scale_note_unique(note: u8, root: u8, mode: ScaleMode, r1: int, r2: int)
    requires
        nearest_scale_note(note, root, mode, r1),
        nearest_scale_note(note, root, mode, r2),
    ensures
        r1 == r2,
{
    assert(nearer_or_tied_first(r1, r2, note as int, root));
    assert(nearer_or_tied_first(r2, r1, note as int, root));
}

/// A note of the MIDI range that already lies on the scale is left where it is.
pub proof fn lemma_quantize_keeps_scale_notes(note: u8, root: u8, mode: ScaleMode, r: int)
    requires
        note <= 127,
        in_scale(note as int, root, mode),
        nearest_scale_note(note, root, mode, r),
    ensures
        r == note,
{
    assert(nearer_or_tied_first(r, note as int, note as int, root));
}

/// Whether `c` is one of the intervals in `scale`.
fn interval_in(scale: &[u8], c: u8) -> (r: bool)
    ensures
        r == scale@.contains(c),
{
    for i in 0..scale.len()
        invariant
            forall|k: int| 0 <= k < i ==> scale@[k] != c,
    {
        if scale[i] == c {
            return true;
        }
    }
    false
}

/// Quantize a note to the nearest scale note within the MIDI range; when two
/// are equally near, the first scale degree found wins.
pub fn quantize_to_scale(note: u8, root: u8, mode: ScaleMode) -> (r: u8)
    ensures
        nearest_scale_note(note, root, mode, r as int),
{
    let scale = mode.intervals();
    let root_class = root % 12;
    let mut best: u8 = 0;
    let mut best_dist: u8 = 0;
    let mut best_class: u8 = 0;
    let mut found = false;
    proof {
        lemma_scale_intervals_shape(mode);
    }
    for m in 0..128u8
        invariant
            scale@ == scale_intervals(mode),
            scale_intervals(mode)[0] == 0,
            scale_intervals(mode).len() >= 5,
            root_class == root % 12,
            found ==> best < m && in_scale(best as int, root, mode) && best_dist == note_distance(
                best as int,
                note as int,
            ) && best_class == degree_of(best as int, root),
            found ==> forall|k: int|
                0 <= k < m && #[trigger] in_scale(k, root, mode) ==> nearer_or_tied_first(
                    best as int,
                    k,
                    note as int,
                    root,
                ),
            !found ==> forall|k: int| 0 <= k < m ==> !#[trigger] in_scale(k, root, mode),
    {
        let class: u8 = ((m as u16 + 12 - root_class as u16) % 12) as u8;
        assert(class as int == degree_of(m as int, root)) by (nonlinear_arith)
            requires
                root_class == root % 12,
                class == (m + 12 - root_class) % 12,
        ;
        if interval_in(scale, class) {
            let d: u8 = if m >= note {
                m - note
            } else {
                note - m
            };
            if !found || d < best_dist || (d == best_dist && class < best_class) {
                best = m;
                best_dist = d;
                best_class = class;
                found = true;
            }
        }
    }
    proof {
        if !found {
            let k = (root % 12) as int;
            assert((k - root) % 12 == 0) by (nonlinear_arith)
                requires
                    k == root % 12,
            ;
            assert(scale_intervals(mode)[0] == 0);
            assert(in_scale(k, root, mode));
        }
    }
    best
}

} // verus!
