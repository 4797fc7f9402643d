//! Chord qualities, voicings and the chord generator.

use vstd::arithmetic::div_mod::{lemma_mod_add_multiples_vanish, lemma_small_mod};
use vstd::prelude::*;
use vstd::relations::{sorted_by, total_ordering};
use vstd::seq_lib::lemma_sorted_unique;

use crate::scales::{lemma_scale_intervals_shape, scale_intervals, ScaleMode};

verus! {

broadcast use vstd::seq_lib::group_to_multiset_ensures;

/// Chord voicing types
#[derive(Debug, Clone, Copy, PartialEq, Eq, Structural)]
pub enum Voicing {
    /// Notes stacked in order
    Close,
    /// Every other note an octave up
    Open,
    /// Second voice from the top dropped an octave
    Drop2,
    /// Third voice from the top dropped an octave
    Drop3,
    /// Root in the bass, the rest voiced freely
    RootBass,
}

/// Chord quality
#[derive(Debug, Clone, Copy, PartialEq, Eq, Structural)]
pub enum ChordQuality {
    Major,
    Minor,
    Diminished,
    Augmented,
    Major7,
    Minor7,
    Dominant7,
    Diminished7,
    HalfDiminished7,
    Sus2,
    Sus4,
    Add9,
}

/// The semitone offsets from the root that make up each chord.
pub open spec fn chord_intervals(q: ChordQuality) -> Seq<u8> {
    match q {
        ChordQuality::Major => seq![0u8, 4, 7],
        ChordQuality::Minor => seq![0u8, 3, 7],
        ChordQuality::Diminished => seq![0u8, 3, 6],
        ChordQuality::Augmented => seq![0u8, 4, 8],
        ChordQuality::Major7 => seq![0u8, 4, 7, 11],
        ChordQuality::Minor7 => seq![0u8, 3, 7, 10],
        ChordQuality::Dominant7 => seq![0u8, 4, 7, 10],
        ChordQuality::Diminished7 => seq![0u8, 3, 6, 9],
        ChordQuality::HalfDiminished7 => seq![0u8, 3, 6, 10],
        ChordQuality::Sus2 => seq![0u8, 2, 7],
        ChordQuality::Sus4 => seq![0u8, 5, 7],
        ChordQuality::Add9 => seq![0u8, 4, 7, 14],
    }
}

/// The short display name of each chord quality.
pub open spec fn chord_name(q: ChordQuality) -> Seq<char> {
    match q {
        ChordQuality::Major => "Major"@,
        ChordQuality::Minor => "Minor"@,
        ChordQuality::Diminished => "Dim"@,
        ChordQuality::Augmented => "Aug"@,
        ChordQuality::Major7 => "Maj7"@,
        ChordQuality::Minor7 => "Min7"@,
        ChordQuality::Dominant7 => "Dom7"@,
        ChordQuality::Diminished7 => "Dim7"@,
        ChordQuality::HalfDiminished7 => "m7b5"@,
        ChordQuality::Sus2 => "Sus2"@,
        ChordQuality::Sus4 => "Sus4"@,
        ChordQuality::Add9 => "Add9"@,
    }
}

impl ChordQuality {
    /// Get chord intervals from root
    pub fn intervals(&self) -> (r: &'static [u8])
        ensures
            r@ == chord_intervals(*self),
    {
        match self {
            ChordQuality::Major => &[0, 4, 7],
            ChordQuality::Minor => &[0, 3, 7],
            ChordQuality::Diminished => &[0, 3, 6],
            ChordQuality::Augmented => &[0, 4, 8],
            ChordQuality::Major7 => &[0, 4, 7, 11],
            ChordQuality::Minor7 => &[0, 3, 7, 10],
            ChordQuality::Dominant7 => &[0, 4, 7, 10],
            ChordQuality::Diminished7 => &[0, 3, 6, 9],
            ChordQuality::HalfDiminished7 => &[0, 3, 6, 10],
            ChordQuality::Sus2 => &[0, 2, 7],
            ChordQuality::Sus4 => &[0, 5, 7],
            ChordQuality::Add9 => &[0, 4, 7, 14],
        }
    }

    /// Short display name of the quality
    pub fn name(&self) -> (r: &'static str)
        ensures
            r@ == chord_name(*self),
    {
        match self {
            ChordQuality::Major => "Major",
            ChordQuality::Minor => "Minor",
            ChordQuality::Diminished => "Dim",
            ChordQuality::Augmented => "Aug",
            ChordQuality::Major7 => "Maj7",
            ChordQuality::Minor7 => "Min7",
            ChordQuality::Dominant7 => "Dom7",
            ChordQuality::Diminished7 => "Dim7",
            ChordQuality::HalfDiminished7 => "m7b5",
            ChordQuality::Sus2 => "Sus2",
            ChordQuality::Sus4 => "Sus4",
            ChordQuality::Add9 => "Add9",
        }
    }
}

// ---------------------------------------------------------------------------
// Model of a generated chord
// ---------------------------------------------------------------------------

/// `v` clamped to the MIDI note range 0..=127.
pub open spec fn clamp_note(v: int) -> u8 {
    if v < 0 {
        0u8
    } else if v > 127 {
        127u8
    } else {
        v as u8
    }
}

/// `x` an octave down, or 0 where that would go below 0.
pub open spec fn octave_down(x: u8) -> u8 {
    if x >= 12 {
        (x - 12) as u8
    } else {
        0u8
    }
}

/// The order on notes.
pub open spec fn note_leq(a: u8, b: u8) -> bool {
    a <= b
}

/// `s` in ascending order.
pub open spec fn sort_notes(s: Seq<u8>) -> Seq<u8> {
    s.sort_by(|a: u8, b: u8| note_leq(a, b))
}

/// The chord tones before inversion and voicing: each interval above the root,
/// shifted by whole octaves and clamped to the MIDI range.
pub open spec fn base_notes(root: u8, quality: ChordQuality, octave: i8) -> Seq<u8> {
    chord_intervals(quality).map_values(
        |iv: u8| clamp_note(root as int + iv as int + (octave as int) * 12),
    )
}

/// The `k`-th inversion: the lowest `k` notes moved up an octave, after the others.
pub open spec fn invert(s: Seq<u8>, k: int) -> Seq<u8> {
    s.skip(k) + s.take(k).map_values(|x: u8| (x + 12) as u8)
}

/// Open voicing: every note at an odd position goes up an octave, capped at 127.
pub open spec fn open_voicing(s: Seq<u8>) -> Seq<u8> {
    Seq::new(
        s.len(),
        |i: int|
            if i % 2 == 1 {
                if s[i] + 12 > 127 {
                    127u8
                } else {
                    (s[i] + 12) as u8
                }
            } else {
                s[i]
            },
    )
}

/// Drop voicing: the `d`-th note from the top goes an octave down, then the
/// notes are sorted; chords with fewer than `d` notes are left alone.
pub open spec fn drop_voicing(s: Seq<u8>, d: int) -> Seq<u8> {
    if s.len() >= d {
        sort_notes(s.update(s.len() - d, octave_down(s[s.len() - d])))
    } else {
        s
    }
}

/// The first index at or after `i` whose note has pitch class `pc`.
pub open spec fn find_class(t: Seq<u8>, pc: int, i: int) -> Option<int>
    decreases t.len() - i,
{
    if i < 0 || i >= t.len() {
        None
    } else if t[i] % 12 == pc {
        Some(i)
    } else {
        find_class(t, pc, i + 1)
    }
}

/// Root-in-bass voicing: sort, then move the first note with the root's pitch
/// class to the bottom, an octave down, unless it is already the lowest.
pub open spec fn root_bass_voicing(s: Seq<u8>, root: u8) -> Seq<u8> {
    let t = sort_notes(s);
    match find_class(t, (root % 12) as int, 0) {
        Some(j) => if j > 0 {
            seq![octave_down(t[j])] + t.remove(j)
        } else {
            t
        },
        None => t,
    }
}

/// Chord generator
#[derive(Debug, Clone)]
pub struct ChordGenerator {
    pub root: u8,
    pub quality: ChordQuality,
    pub voicing: Voicing,
    pub octave: i8,
    pub inversion: u8,
}

/// The notes that `generate` returns for a generator.
pub open spec fn chord_spec(g: ChordGenerator) -> Seq<u8> {
    let base = base_notes(g.root, g.quality, g.octave);
    let inv = invert(base, (g.inversion as int) % (base.len() as int));
    match g.voicing {
        Voicing::Close => inv,
        Voicing::Open => open_voicing(inv),
        Voicing::Drop2 => drop_voicing(inv, 2),
        Voicing::Drop3 => drop_voicing(inv, 3),
        Voicing::RootBass => root_bass_voicing(inv, g.root),
    }
}

/// The quality of the chord built on a scale degree when none is given:
/// the diatonic triad for major and natural minor, a major triad otherwise.
pub open spec fn degree_quality(scale: ScaleMode, degree: u8) -> ChordQuality {
    match scale {
        ScaleMode::Major => if degree == 1 || degree == 4 || degree == 5 {
            ChordQuality::Major
        } else if degree == 2 || degree == 3 || degree == 6 {
            ChordQuality::Minor
        } else if degree == 7 {
            ChordQuality::Diminished
        } else {
            ChordQuality::Major
        },
        ScaleMode::Minor => if degree == 2 {
            ChordQuality::Diminished
        } else if degree == 3 || degree == 6 || degree == 7 {
            ChordQuality::Major
        } else {
            ChordQuality::Minor
        },
        _ => ChordQuality::Major,
    }
}

/// The root of the chord on scale degree `degree` (counted from 1, wrapping
/// around the scale).
pub open spec fn degree_root(scale_root: u8, scale: ScaleMode, degree: u8) -> int {
    let iv = scale_intervals(scale);
    scale_root + iv[((degree - 1) as int) % (iv.len() as int)]
}

// ---------------------------------------------------------------------------
// Lemmas
// ---------------------------------------------------------------------------

pub(crate) proof fn lemma_note_leq_total()
    ensures
        total_ordering(|a: u8, b: u8| note_leq(a, b)),
{
}

/// A sorted sequence with the same elements as `s` is the sorted `s`.
proof fn lemma_is_sorted_notes(out: Seq<u8>, s: Seq<u8>)
    requires
        sorted_by(out, |a: u8, b: u8| note_leq(a, b)),
        out.to_multiset() == s.to_multiset(),
    ensures
        out == sort_notes(s),
{
    let leq = |a: u8, b: u8| note_leq(a, b);
    lemma_note_leq_total();
    s.lemma_sort_by_ensures(leq);
    lemma_sorted_unique(out, sort_notes(s), leq);
}

proof fn lemma_find_class_in_range(t: Seq<u8>, pc: int, i: int)
    requires
        0 <= i,
    ensures
        find_class(t, pc, i) matches Some(j) ==> i <= j < t.len(),
    decreases t.len() - i,
{
    if i < t.len() && t[i] % 12 != pc {
        lemma_find_class_in_range(t, pc, i + 1);
    }
}

proof fn lemma_find_class_skip(t: Seq<u8>, pc: int, i: int)
    requires
        0 <= i < t.len(),
        t[i] % 12 != pc,
    ensures
        find_class(t, pc, i) == find_class(t, pc, i + 1),
{
}

pub(crate) proof fn lemma_sort_notes_len(s: Seq<u8>)
    ensures
        sort_notes(s).len() == s.len(),
        forall|i: int, j: int| 0 <= i < j < sort_notes(s).len() ==> #[trigger] sort_notes(s)[i] <= #[trigger] sort_notes(s)[j],
{
    let leq = |a: u8, b: u8| note_leq(a, b);
    lemma_note_leq_total();
    s.lemma_sort_by_ensures(leq);
    s.to_multiset_ensures();
    sort_notes(s).to_multiset_ensures();
    let t = sort_notes(s);
    assert forall|i: int, j: int| 0 <= i < j < t.len() implies #[trigger] t[i] <= #[trigger] t[j] by {
        assert(leq(t[i], t[j]));
    }
}

/// A chord has one note per interval of its quality, whatever the inversion
/// and voicing; the drop voicings list their notes from low to high.
pub proof fn lemma_chord_shape(g: ChordGenerator)
    ensures
        chord_spec(g).len() == chord_intervals(g.quality).len(),
        g.voicing == Voicing::Drop2 || g.voicing == Voicing::Drop3 ==> forall|i: int, j: int|
            0 <= i < j < chord_spec(g).len() ==> #[trigger] chord_spec(g)[i] <= #[trigger] chord_spec(g)[j],
{
    let base = base_notes(g.root, g.quality, g.octave);
    assert(base.len() == chord_intervals(g.quality).len());
    assert(base.len() >= 3);
    let inv = invert(base, (g.inversion as int) % (base.len() as int));
    assert(inv.len() == base.len());
    match g.voicing {
        Voicing::Drop2 => {
            let u = inv.update(inv.len() - 2, octave_down(inv[inv.len() - 2]));
            assert(chord_spec(g) == sort_notes(u));
            lemma_sort_notes_len(u);
        },
        Voicing::Drop3 => {
            let u = inv.update(inv.len() - 3, octave_down(inv[inv.len() - 3]));
            assert(chord_spec(g) == sort_notes(u));
            lemma_sort_notes_len(u);
        },
        Voicing::RootBass => {
            lemma_sort_notes_len(inv);
            let t = sort_notes(inv);
            match find_class(t, (g.root % 12) as int, 0) {
                Some(j) => {
                    lemma_find_class_in_range(t, (g.root % 12) as int, 0);
                },
                None => {},
            }
        },
        _ => {},
    }
}

/// The chord tone for interval `j` of the generator's quality: that many
/// semitones above the root, shifted by the generator's octaves and clamped to
/// the MIDI range.
pub open spec fn chord_tone(g: ChordGenerator, j: int) -> u8 {
    clamp_note(g.root as int + chord_intervals(g.quality)[j] as int + (g.octave as int) * 12)
}

/// Inversion of a close-voiced chord of `n` notes: with `k` the inversion taken
/// modulo `n`, the chord starts on tone `k` and rises through the upper tones,
/// then the lowest `k` tones follow an octave higher. So an inversion between
/// 1 and `n - 1` never gives the root-position chord back.
pub proof fn lemma_close_inversion(g: ChordGenerator)
    requires
        g.voicing == Voicing::Close,
    ensures
        ({
            let n = chord_intervals(g.quality).len() as int;
            let k = (g.inversion as int) % n;
            &&& chord_spec(g).len() == n
            &&& 0 <= k < n
            &&& forall|i: int| 0 <= i < n - k ==> #[trigger] chord_spec(g)[i] == chord_tone(g, i + k)
            &&& forall|i: int|
                n - k <= i < n ==> #[trigger] chord_spec(g)[i] == chord_tone(g, i - (n - k)) + 12
        }),
{
    let base = base_notes(g.root, g.quality, g.octave);
    let n = chord_intervals(g.quality).len() as int;
    assert(n >= 3);
    let k = (g.inversion as int) % n;
    assert(0 <= k < n);
    let inv = invert(base, k);
    assert(chord_spec(g) == inv);
    assert forall|i: int| 0 <= i < n - k implies #[trigger] chord_spec(g)[i] == chord_tone(g, i + k) by {
        assert(inv[i] == base[i + k]);
    }
    assert forall|i: int| n - k <= i < n implies #[trigger] chord_spec(g)[i] == chord_tone(g, i - (n - k))
        + 12 by {
        assert(inv[i] == base.take(k)[i - (n - k)] + 12);
        assert(base[i - (n - k)] <= 127);
    }
}

/// The same generator with voicing `v`.
pub open spec fn with_voicing(g: ChordGenerator, v: Voicing) -> ChordGenerator {
    ChordGenerator {
        root: g.root,
        quality: g.quality,
        voicing: v,
        octave: g.octave,
        inversion: g.inversion,
    }
}

/// Open voicing takes the close-voiced chord and raises every other note,
/// starting from the second, by an octave, capped at 127.
pub proof fn lemma_open_voicing(g: ChordGenerator)
    ensures
        ({
            let close = chord_spec(with_voicing(g, Voicing::Close));
            let open = chord_spec(with_voicing(g, Voicing::Open));
            &&& open.len() == close.len()
            &&& forall|i: int|
                0 <= i < close.len() ==> #[trigger] open[i] == if i % 2 == 1 {
                    if close[i] + 12 > 127 {
                        127
                    } else {
                        close[i] + 12
                    }
                } else {
                    close[i] as int
                }
        }),
{
}

/// The drop voicings take the close-voiced chord, lower its second (Drop 2) or
/// third (Drop 3) note from the top by an octave (to 0 at the lowest), and list
/// the notes from low to high.
pub proof fn lemma_drop_voicing(g: ChordGenerator)
    ensures
        ({
            let close = chord_spec(with_voicing(g, Voicing::Close));
            let n = close.len() as int;
            let drop2 = chord_spec(with_voicing(g, Voicing::Drop2));
            let drop3 = chord_spec(with_voicing(g, Voicing::Drop3));
            let lowered2 = if close[n - 2] >= 12 {
                (close[n - 2] - 12) as u8
            } else {
                0u8
            };
            let lowered3 = if close[n - 3] >= 12 {
                (close[n - 3] - 12) as u8
            } else {
                0u8
            };
            &&& n >= 3
            &&& drop2.to_multiset() == close.update(n - 2, lowered2).to_multiset()
            &&& drop3.to_multiset() == close.update(n - 3, lowered3).to_multiset()
            &&& forall|i: int, j: int| 0 <= i < j < n ==> #[trigger] drop2[i] <= #[trigger] drop2[j]
            &&& forall|i: int, j: int| 0 <= i < j < n ==> #[trigger] drop3[i] <= #[trigger] drop3[j]
        }),
{
    let close = chord_spec(with_voicing(g, Voicing::Close));
    let n = close.len() as int;
    lemma_chord_shape(with_voicing(g, Voicing::Close));
    lemma_chord_shape(with_voicing(g, Voicing::Drop2));
    lemma_chord_shape(with_voicing(g, Voicing::Drop3));
    let leq = |a: u8, b: u8| note_leq(a, b);
    lemma_note_leq_total();
    let u2 = close.update(n - 2, octave_down(close[n - 2]));
    let u3 = close.update(n - 3, octave_down(close[n - 3]));
    assert(chord_spec(with_voicing(g, Voicing::Drop2)) == sort_notes(u2));
    assert(chord_spec(with_voicing(g, Voicing::Drop3)) == sort_notes(u3));
    u2.lemma_sort_by_ensures(leq);
    u3.lemma_sort_by_ensures(leq);
}

proof fn lemma_find_class_first(t: Seq<u8>, pc: int, i: int, j: int)
    requires
        0 <= i <= j < t.len(),
        t[j] % 12 == pc,
        forall|k: int| i <= k < j ==> #[trigger] t[k] % 12 != pc,
    ensures
        find_class(t, pc, i) == Some(j),
    decreases j - i,
{
    if i < j {
        lemma_find_class_first(t, pc, i + 1, j);
    }
}

proof fn lemma_find_class_none(t: Seq<u8>, pc: int, i: int)
    requires
        0 <= i,
        forall|k: int| 0 <= k < t.len() ==> #[trigger] t[k] % 12 != pc,
    ensures
        find_class(t, pc, i) is None,
    decreases t.len() - i,
{
    if i < t.len() {
        lemma_find_class_none(t, pc, i + 1);
    }
}

/// Root-in-bass voicing takes the notes of the close-voiced chord from low to
/// high; if the lowest note with the root's pitch class is not the lowest note,
/// it moves to the bottom an octave down (to 0 at the lowest) and the others
/// keep their order.
pub proof fn lemma_root_bass_voicing(g: ChordGenerator)
    ensures
        ({
            let close = chord_spec(with_voicing(g, Voicing::Close));
            let t = sort_notes(close);
            let rb = chord_spec(with_voicing(g, Voicing::RootBass));
            let pc = (g.root % 12) as int;
            let n = close.len() as int;
            &&& t.len() == n
            &&& t.to_multiset() == close.to_multiset()
            &&& forall|a: int, b: int| 0 <= a < b < n ==> #[trigger] t[a] <= #[trigger] t[b]
            &&& (forall|k: int| 0 <= k < n ==> #[trigger] t[k] % 12 != pc) ==> rb == t
            &&& forall|j: int|
                0 <= j < n && #[trigger] t[j] % 12 == pc && (forall|k: int|
                    0 <= k < j ==> #[trigger] t[k] % 12 != pc) ==> {
                    &&& j == 0 ==> rb == t
                    &&& j > 0 ==> rb.len() == n
                    &&& j > 0 ==> rb[0] == if t[j] >= 12 {
                        t[j] - 12
                    } else {
                        0
                    }
                    &&& j > 0 ==> rb.subrange(1, n) == t.remove(j)
                }
        }),
{
    let close = chord_spec(with_voicing(g, Voicing::Close));
    let t = sort_notes(close);
    let pc = (g.root % 12) as int;
    let n = close.len() as int;
    lemma_sort_notes_len(close);
    lemma_note_leq_total();
    close.lemma_sort_by_ensures(|a: u8, b: u8| note_leq(a, b));
    assert(chord_spec(with_voicing(g, Voicing::RootBass)) == root_bass_voicing(close, g.root));
    if forall|k: int| 0 <= k < n ==> #[trigger] t[k] % 12 != pc {
        lemma_find_class_none(t, pc, 0);
    }
    assert forall|j: int|
        0 <= j < n && #[trigger] t[j] % 12 == pc && (forall|k: int|
            0 <= k < j ==> #[trigger] t[k] % 12 != pc) implies {
        let rb = chord_spec(with_voicing(g, Voicing::RootBass));
        &&& j == 0 ==> rb == t
        &&& j > 0 ==> rb.len() == n
        &&& j > 0 ==> rb[0] == if t[j] >= 12 {
            t[j] - 12
        } else {
            0
        }
        &&& j > 0 ==> rb.subrange(1, n) == t.remove(j)
    } by {
        lemma_find_class_first(t, pc, 0, j);
        let rb = chord_spec(with_voicing(g, Voicing::RootBass));
        if j > 0 {
            assert(rb == seq![octave_down(t[j])] + t.remove(j));
            assert(rb.subrange(1, n) =~= t.remove(j));
        }
    }
}

/// The chord roots walk up the scale: degree 1 is the scale root, each root is
/// the scale root plus one of the scale's intervals, each degree below the
/// scale's length has a lower root than the next, and past the last degree the
/// roots start over from the first.
pub proof fn lemma_degree_roots(scale_root: u8, scale: ScaleMode, degree: u8)
    requires
        degree >= 1,
    ensures
        degree_root(scale_root, scale, 1) == scale_root,
        scale_intervals(scale).contains(
            (degree_root(scale_root, scale, degree) - scale_root) as u8,
        ),
        0 <= degree_root(scale_root, scale, degree) - scale_root < 12,
        degree < scale_intervals(scale).len() ==> degree_root(scale_root, scale, degree)
            < degree_root(scale_root, scale, (degree + 1) as u8),
        degree + scale_intervals(scale).len() <= u8::MAX ==> degree_root(
            scale_root,
            scale,
            (degree + scale_intervals(scale).len()) as u8,
        ) == degree_root(scale_root, scale, degree),
{
    let iv = scale_intervals(scale);
    let n = iv.len() as int;
    lemma_scale_intervals_shape(scale);
    let idx = ((degree - 1) as int) % n;
    assert(0 <= idx < n);
    assert(iv[idx] == degree_root(scale_root, scale, degree) - scale_root);
    assert(iv.contains((degree_root(scale_root, scale, degree) - scale_root) as u8));
    lemma_small_mod(0, n as nat);
    if degree < n {
        lemma_small_mod((degree - 1) as nat, n as nat);
        lemma_small_mod(degree as nat, n as nat);
        assert(iv[degree - 1] < iv[degree as int]);
    }
    lemma_mod_add_multiples_vanish(degree - 1, n);
}

/// The third and the fifth that a scale supplies above its degree `degree`
/// (counted from 1): the scale notes two and four degrees up, in semitones
/// above the degree's own note.
pub open spec fn diatonic_triad(scale: ScaleMode, degree: u8) -> Seq<u8> {
    let iv = scale_intervals(scale);
    let k = degree - 1;
    seq![
        0u8,
        ((iv[(k + 2) % 7] + 12 - iv[k]) % 12) as u8,
        ((iv[(k + 4) % 7] + 12 - iv[k]) % 12) as u8,
    ]
}

/// In the major and the natural minor scale, the chord a degree gets when no
/// quality is given is the triad of scale notes on that degree: its third and
/// fifth are the scale notes two and four degrees up.
pub proof fn lemma_degree_quality_is_diatonic(scale: ScaleMode, degree: u8)
    requires
        scale == ScaleMode::Major || scale == ScaleMode::Minor,
        1 <= degree <= 7,
    ensures
        chord_intervals(degree_quality(scale, degree)) == diatonic_triad(scale, degree),
{
    let t = diatonic_triad(scale, degree);
    if scale == ScaleMode::Major {
        if degree == 1 { assert(t =~= seq![0u8, 4, 7]); }
        else if degree == 2 { assert(t =~= seq![0u8, 3, 7]); }
        else if degree == 3 { assert(t =~= seq![0u8, 3, 7]); }
        else if degree == 4 { assert(t =~= seq![0u8, 4, 7]); }
        else if degree == 5 { assert(t =~= seq![0u8, 4, 7]); }
        else if degree == 6 { assert(t =~= seq![0u8, 3, 7]); }
        else { assert(t =~= seq![0u8, 3, 6]); }
    } else {
        if degree == 1 { assert(t =~= seq![0u8, 3, 7]); }
        else if degree == 2 { assert(t =~= seq![0u8, 3, 6]); }
        else if degree == 3 { assert(t =~= seq![0u8, 4, 7]); }
        else if degree == 4 { assert(t =~= seq![0u8, 3, 7]); }
        else if degree == 5 { assert(t =~= seq![0u8, 3, 7]); }
        else if degree == 6 { assert(t =~= seq![0u8, 4, 7]); }
        else { assert(t =~= seq![0u8, 4, 7]); }
    }
}

// ---------------------------------------------------------------------------
// Executable code
// ---------------------------------------------------------------------------

/// Sort notes ascending (insertion into a sorted vector).
pub(crate) fn sort_u8(v: &Vec<u8>) -> (r: Vec<u8>)
    ensures
        r@ == sort_notes(v@),
{
    let mut out: Vec<u8> = Vec::new();
    for i in 0..v.len()
        invariant
            forall|a: int, b: int| 0 <= a < b < out@.len() ==> #[trigger] out@[a] <= #[trigger] out@[b],
            out@.to_multiset() == v@.take(i as int).to_multiset(),
    {
        let x = v[i];
        let mut pos: usize = 0;
        while pos < out.len() && out[pos] <= x
            invariant
                pos <= out.len(),
                forall|k: int| 0 <= k < pos ==> out@[k] <= x,
            decreases out.len() - pos,
        {
            pos = pos + 1;
        }
        proof {
            assert(pos < out.len() ==> x < out@[pos as int]);
            vstd::seq_lib::to_multiset_insert(out@, pos as int, x);
            vstd::seq_lib::to_multiset_build(v@.take(i as int), x);
            assert(v@.take(i + 1) =~= v@.take(i as int).push(x));
        }
        let ghost before = out@;
        out.insert(pos, x);
        proof {
            assert forall|a: int, b: int| 0 <= a < b < out@.len() implies #[trigger] out@[a] <= #[trigger] out@[b] by {
                if b < pos {
                    assert(out@[a] == before[a] && out@[b] == before[b]);
                    assert(before[a] <= before[b]);
                } else if b == pos {
                    assert(out@[a] == before[a]);
                    assert(before[a] <= x);
                } else if a < pos {
                    assert(out@[a] == before[a] && out@[b] == before[b - 1]);
                    assert(before[a] <= before[b - 1]);
                } else if a == pos {
                    assert(out@[b] == before[b - 1]);
                    if b - 1 > pos {
                        assert(before[pos as int] <= before[b - 1]);
                    }
                    assert(before[pos as int] > x);
                } else {
                    assert(out@[a] == before[a - 1] && out@[b] == before[b - 1]);
                    assert(before[a - 1] <= before[b - 1]);
                }
            }
        }
    }
    assert(v@.take(v.len() as int) =~= v@);
    proof {
        assert(sorted_by(out@, |a: u8, b: u8| note_leq(a, b)));
        lemma_is_sorted_notes(out@, v@);
    }
    out
}

impl Default for ChordGenerator {
    fn default() -> (r: Self)
        ensures
            r.root == 60,
            r.quality == ChordQuality::Major,
            r.voicing == Voicing::Close,
            r.octave == 0,
            r.inversion == 0,
    {
        ChordGenerator {
            root: 60,
            quality: ChordQuality::Major,
            voicing: Voicing::Close,
            octave: 0,
            inversion: 0,
        }
    }
}

impl ChordGenerator {
    /// A close-voiced, root-position chord in the root octave.
    pub fn new(root: u8, quality: ChordQuality) -> (r: Self)
        ensures
            r.root == root,
            r.quality == quality,
            r.voicing == Voicing::Close,
            r.octave == 0,
            r.inversion == 0,
    {
        ChordGenerator { root, quality, voicing: Voicing::Close, octave: 0, inversion: 0 }
    }

    /// Generate chord MIDI notes
    pub fn generate(&self) -> (r: Vec<u8>)
        ensures
            r@ == chord_spec(*self),
    {
        let intervals = self.quality.intervals();
        let mut notes: Vec<u8> = Vec::new();
        let ghost base = base_notes(self.root, self.quality, self.octave);
        for i in 0..intervals.len()
            invariant
                intervals@ == chord_intervals(self.quality),
                base == base_notes(self.root, self.quality, self.octave),
                notes@ == base.take(i as int),
        {
            let note: i16 = self.root as i16 + intervals[i] as i16 + (self.octave as i16 * 12);
            let clamped: u8 = if note < 0 {
                0
            } else if note > 127 {
                127
            } else {
                note as u8
            };
            notes.push(clamped);
            assert(notes@ =~= base.take(i + 1));
        }
        assert(notes@ =~= base);
        // Apply inversion: move the lowest notes up an octave, one at a time.
        let inv = (self.inversion as usize) % notes.len();
        let mut k: usize = 0;
        while k < inv
            invariant
                inv < base.len(),
                k <= inv,
                base.len() >= 3,
                forall|j: int| 0 <= j < base.len() ==> base[j] <= 127,
                notes@ == invert(base, k as int),
            decreases inv - k,
        {
            let first = notes[0];
            assert(first == base[k as int]);
            notes.remove(0);
            notes.push(first + 12);
            assert(notes@ =~= invert(base, (k + 1) as int));
            k = k + 1;
        }
        let ghost inverted = notes@;
        assert(forall|j: int| 0 <= j < inverted.len() ==> inverted[j] <= 139);
        match self.voicing {
            Voicing::Close => {},
            Voicing::Open => {
                let mut i: usize = 0;
                while i < notes.len()
                    invariant
                        notes.len() == inverted.len(),
                        forall|j: int| 0 <= j < inverted.len() ==> inverted[j] <= 139,
                        forall|j: int|
                            0 <= j < notes.len() ==> #[trigger] notes@[j] == if j < i {
                                open_voicing(inverted)[j]
                            } else {
                                inverted[j]
                            },
                    decreases notes.len() - i,
                {
                    if i % 2 == 1 {
                        let raised = notes[i] + 12;
                        notes[i] = if raised > 127 {
                            127
                        } else {
                            raised
                        };
                    }
                    i = i + 1;
                }
                assert(notes@ =~= open_voicing(inverted));
            },
            Voicing::Drop2 => {
                if notes.len() >= 2 {
                    let idx = notes.len() - 2;
                    let x = notes[idx];
                    notes[idx] = if x >= 12 {
                        x - 12
                    } else {
                        0
                    };
                    notes = sort_u8(&notes);
                }
            },
            Voicing::Drop3 => {
                if notes.len() >= 3 {
                    let idx = notes.len() - 3;
                    let x = notes[idx];
                    notes[idx] = if x >= 12 {
                        x - 12
                    } else {
                        0
                    };
                    notes = sort_u8(&notes);
                }
            },
            Voicing::RootBass => {
                notes = sort_u8(&notes);
                let pc = self.root % 12;
                let mut j: usize = 0;
                while j < notes.len() && notes[j] % 12 != pc
                    invariant
                        j <= notes.len(),
                        find_class(notes@, pc as int, 0) == find_class(notes@, pc as int, j as int),
                    decreases notes.len() - j,
                {
                    proof {
                        lemma_find_class_skip(notes@, pc as int, j as int);
                    }
                    j = j + 1;
                }
                if j < notes.len() && j > 0 {
                    let root_note = notes.remove(j);
                    let low = if root_note >= 12 {
                        root_note - 12
                    } else {
                        0
                    };
                    notes.insert(0, low);
                }
                proof {
                    let t = sort_notes(inverted);
                    if j < t.len() && j > 0 {
                        assert(notes@ =~= seq![octave_down(t[j as int])] + t.remove(j as int));
                    }
                }
            },
        }
        notes
    }

    /// The chord on a degree (counted from 1) of a scale; without a quality,
    /// the quality that the scale gives that degree.
    pub fn from_scale_degree(
        scale_root: u8,
        scale: ScaleMode,
        degree: u8,
        quality: Option<ChordQuality>,
    ) -> (r: Self)
        requires
            degree >= 1,
            degree_root(scale_root, scale, degree) <= u8::MAX,
        ensures
            r.root == degree_root(scale_root, scale, degree),
            r.quality == match quality {
                Some(q) => q,
                None => degree_quality(scale, degree),
            },
            r.voicing == Voicing::Close,
            r.octave == 0,
            r.inversion == 0,
    {
        let intervals = scale.intervals();
        let degree_idx = ((degree - 1) as usize) % intervals.len();
        let root = scale_root + intervals[degree_idx];
        let quality = match quality {
            Some(q) => q,
            None => match scale {
                ScaleMode::Major => match degree {
                    1 | 4 | 5 => ChordQuality::Major,
                    2 | 3 | 6 => ChordQuality::Minor,
                    7 => ChordQuality::Diminished,
                    _ => ChordQuality::Major,
                },
                ScaleMode::Minor => match degree {
                    1 | 4 => ChordQuality::Minor,
                    2 => ChordQuality::Diminished,
                    3 | 6 | 7 => ChordQuality::Major,
                    5 => ChordQuality::Minor,
                    _ => ChordQuality::Minor,
                },
                _ => ChordQuality::Major,
            },
        };
        Self::new(root, quality)
    }
}

} // verus!
