use hallucinator_core::chords::{ChordGenerator, ChordQuality, Voicing};
use hallucinator_core::euclid::euclidean_rhythm;
use hallucinator_core::scales::{quantize_to_scale, scale_notes, ScaleMode};

#[test]
fn test_euclidean_rhythm() {
    // Classic patterns
    assert_eq!(euclidean_rhythm(8, 3, 0), vec![true, false, false, true, false, false, true, false]);
    assert_eq!(euclidean_rhythm(8, 5, 0), vec![true, false, true, true, false, true, true, false]);
    assert_eq!(
        euclidean_rhythm(16, 4, 0),
        vec![
            true, false, false, false, true, false, false, false, true, false, false, false, true,
            false, false, false
        ]
    );
}

#[test]
fn test_chord_generator() {
    let chord = ChordGenerator::new(60, ChordQuality::Major);
    assert_eq!(chord.generate(), vec![60, 64, 67]); // C major
}

#[test]
fn test_quantize_to_scale() {
    // C major scale: C D E F G A B (0, 2, 4, 5, 7, 9, 11)
    // When equidistant, algorithm picks first scale degree found
    assert_eq!(quantize_to_scale(61, 60, ScaleMode::Major), 60); // C# -> C (equidist C/D)
    assert_eq!(quantize_to_scale(63, 60, ScaleMode::Major), 62); // D# -> D (equidist D/E)
    assert_eq!(quantize_to_scale(66, 60, ScaleMode::Major), 65); // F# -> F (equidist F/G)
    assert_eq!(quantize_to_scale(60, 60, ScaleMode::Major), 60); // C stays C
    assert_eq!(quantize_to_scale(64, 60, ScaleMode::Major), 64); // E stays E
}

#[test]
fn euclid_doc_example() {
    assert_eq!(euclidean_rhythm(8, 3, 0), vec![true, false, false, true, false, false, true, false]);
}

#[test]
fn euclid_edge_cases() {
    assert_eq!(euclidean_rhythm(0, 3, 1), Vec::<bool>::new());
    assert_eq!(euclidean_rhythm(4, 0, 2), vec![false; 4]);
    assert_eq!(euclidean_rhythm(4, 4, 1), vec![true; 4]);
    // more hits than steps: every step is a hit
    assert_eq!(euclidean_rhythm(5, 9, 0), vec![true; 5]);
}

#[test]
fn euclid_rotation() {
    // rotating left by one step
    assert_eq!(euclidean_rhythm(8, 3, 1), vec![false, false, true, false, false, true, false, true]);
    // rotation wraps around the pattern length
    assert_eq!(euclidean_rhythm(8, 3, 9), euclidean_rhythm(8, 3, 1));
    assert_eq!(euclidean_rhythm(8, 3, 8), euclidean_rhythm(8, 3, 0));
}

#[test]
fn euclid_length_and_hits() {
    for steps in 0u8..=24 {
        for hits in 0u8..=26 {
            for rotation in [0u8, 1, 5, 200] {
                let p = euclidean_rhythm(steps, hits, rotation);
                assert_eq!(p.len(), steps as usize);
                let count = p.iter().filter(|b| **b).count();
                assert_eq!(count, hits.min(steps) as usize);
            }
        }
    }
}

#[test]
fn euclid_tresillo_and_cinquillo() {
    assert_eq!(euclidean_rhythm(5, 2, 0), vec![true, false, true, false, false]);
    assert_eq!(euclidean_rhythm(7, 3, 0), vec![true, false, true, false, true, false, false]);
}

#[test]
fn chord_qualities_and_names() {
    assert_eq!(ChordQuality::Minor7.intervals(), &[0, 3, 7, 10]);
    assert_eq!(ChordQuality::Add9.intervals(), &[0, 4, 7, 14]);
    assert_eq!(ChordQuality::HalfDiminished7.name(), "m7b5");
    assert_eq!(ChordQuality::Sus4.name(), "Sus4");
    assert_eq!(ScaleMode::HarmonicMinor.name(), "Harmonic Minor");
    assert_eq!(ScaleMode::Blues.intervals(), &[0, 3, 5, 6, 7, 10]);
}

#[test]
fn chord_inversions() {
    let mut g = ChordGenerator::new(60, ChordQuality::Major);
    g.inversion = 1;
    assert_eq!(g.generate(), vec![64, 67, 72]);
    g.inversion = 2;
    assert_eq!(g.generate(), vec![67, 72, 76]);
    // inversion counts modulo the number of notes
    g.inversion = 3;
    assert_eq!(g.generate(), vec![60, 64, 67]);
}

#[test]
fn chord_octave_and_clamp() {
    let mut g = ChordGenerator::new(120, ChordQuality::Major7);
    assert_eq!(g.generate(), vec![120, 124, 127, 127]);
    g.octave = -11;
    assert_eq!(g.generate(), vec![0, 0, 0, 0]);
    g.octave = -1;
    assert_eq!(g.generate(), vec![108, 112, 115, 119]);
}

#[test]
fn chord_voicings() {
    let mut g = ChordGenerator::new(60, ChordQuality::Major7);
    g.voicing = Voicing::Open;
    assert_eq!(g.generate(), vec![60, 76, 67, 83]);
    g.voicing = Voicing::Drop2;
    assert_eq!(g.generate(), vec![55, 60, 64, 71]);
    g.voicing = Voicing::Drop3;
    assert_eq!(g.generate(), vec![52, 60, 67, 71]);
    g.voicing = Voicing::RootBass;
    g.inversion = 1;
    // 64 67 71 72 -> root 72 goes to the bottom an octave down
    assert_eq!(g.generate(), vec![60, 64, 67, 71]);
    g.inversion = 0;
    assert_eq!(g.generate(), vec![60, 64, 67, 71]);
}

#[test]
fn chord_open_voicing_caps() {
    let mut g = ChordGenerator::new(120, ChordQuality::Major);
    g.voicing = Voicing::Open;
    assert_eq!(g.generate(), vec![120, 127, 127]);
}

#[test]
fn chord_default() {
    let g = ChordGenerator::default();
    assert_eq!(g.root, 60);
    assert_eq!(g.quality, ChordQuality::Major);
    assert_eq!(g.voicing, Voicing::Close);
    assert_eq!(g.generate(), vec![60, 64, 67]);
}

#[test]
fn chord_from_scale_degree() {
    let g = ChordGenerator::from_scale_degree(60, ScaleMode::Major, 2, None);
    assert_eq!(g.root, 62);
    assert_eq!(g.quality, ChordQuality::Minor);
    let g = ChordGenerator::from_scale_degree(60, ScaleMode::Major, 7, None);
    assert_eq!(g.root, 71);
    assert_eq!(g.quality, ChordQuality::Diminished);
    let g = ChordGenerator::from_scale_degree(57, ScaleMode::Minor, 3, None);
    assert_eq!(g.root, 60);
    assert_eq!(g.quality, ChordQuality::Major);
    // degrees wrap around the scale
    let g = ChordGenerator::from_scale_degree(60, ScaleMode::Major, 8, Some(ChordQuality::Sus2));
    assert_eq!(g.root, 60);
    assert_eq!(g.quality, ChordQuality::Sus2);
    let g = ChordGenerator::from_scale_degree(60, ScaleMode::Dorian, 1, None);
    assert_eq!(g.quality, ChordQuality::Major);
}

#[test]
fn scale_notes_octave() {
    assert_eq!(scale_notes(60, ScaleMode::Pentatonic), vec![60, 62, 64, 67, 69]);
    assert_eq!(scale_notes(122, ScaleMode::Major), vec![122, 124, 126, 127, 127, 127, 127]);
}

#[test]
fn quantize_other_roots_and_cap() {
    // D minor: D E F G A Bb C
    assert_eq!(quantize_to_scale(66, 62, ScaleMode::Minor), 65);
    // C# is as near to C as to D; D comes first in the scale
    assert_eq!(quantize_to_scale(61, 62, ScaleMode::Minor), 62);
    // chromatic keeps every note
    for n in 0u8..=127 {
        assert_eq!(quantize_to_scale(n, 5, ScaleMode::Chromatic), n);
    }
    // the result is capped at 127
    assert_eq!(quantize_to_scale(131, 0, ScaleMode::Major), 127);
}

#[test]
fn quantize_lands_on_the_nearest_scale_note() {
    for mode in [ScaleMode::Major, ScaleMode::Pentatonic, ScaleMode::Blues] {
        let in_scale = |m: i32, root: u8| mode.intervals().contains(&((m - root as i32).rem_euclid(12) as u8));
        for root in 0u8..12 {
            for n in 0u8..=255 {
                let q = quantize_to_scale(n, root, mode);
                assert!(q <= 127);
                assert!(in_scale(q as i32, root));
                for m in 0i32..=127 {
                    if in_scale(m, root) {
                        assert!((q as i32 - n as i32).abs() <= (m - n as i32).abs());
                    }
                }
            }
        }
    }
}

#[test]
fn quantize_crosses_octaves() {
    // B4 in C pentatonic: C5 is one semitone up, A4 two down
    assert_eq!(quantize_to_scale(71, 60, ScaleMode::Pentatonic), 72);
    // B3 in C pentatonic goes up to C4 too
    assert_eq!(quantize_to_scale(59, 0, ScaleMode::Pentatonic), 60);
    // below the root of D major, C# (degree 11) is itself in the scale
    assert_eq!(quantize_to_scale(61, 2, ScaleMode::Major), 61);
}

#[test]
fn voicings_keep_one_note_per_interval() {
    for voicing in [Voicing::Close, Voicing::Open, Voicing::Drop2, Voicing::Drop3, Voicing::RootBass] {
        for inversion in 0..4 {
            let g = ChordGenerator { root: 60, quality: ChordQuality::Major7, voicing, octave: 0, inversion };
            let notes = g.generate();
            assert_eq!(notes.len(), 4);
            if voicing == Voicing::Drop2 || voicing == Voicing::Drop3 {
                assert!(notes.windows(2).all(|w| w[0] <= w[1]));
            }
        }
    }
    let drop2 = ChordGenerator { root: 60, quality: ChordQuality::Major7, voicing: Voicing::Drop2, octave: 0, inversion: 0 };
    // C E G B: G drops to 55, then sorted
    assert_eq!(drop2.generate(), vec![55, 60, 64, 71]);
}
