use hallucinator_core::scales::ScaleMode;
use hallucinator_core::sequencer::{
    is_step_accidental, note_name, pitch_class_for_step, pitch_for_step, row_start, step_count, DrumStep,
    RepeatRate, SequencerRow,
};

#[test]
fn drum_step_layers() {
    let mut step = DrumStep::default();
    assert!(!step.has_any_sample());
    assert_eq!(step.active_layer_mask(), 0);
    step.layers[0].active = true;
    step.layers[3].active = true;
    step.layers[11].active = true;
    assert_eq!(step.active_layer_mask(), 0b1000_0000_1001);
    step.layers[5].sample_name = Some(String::from("kick.wav"));
    assert!(step.has_any_sample());
    for l in step.layers.iter_mut() {
        l.active = true;
    }
    assert_eq!(step.active_layer_mask(), 0x0fff);
}

#[test]
fn row_cycle_expanded() {
    let mut row = SequencerRow::default();
    assert_eq!(row, SequencerRow::Drum);
    let mut seen = Vec::new();
    for _ in 0..16 {
        seen.push(row);
        row = row.next(true);
    }
    assert_eq!(row, SequencerRow::Drum);
    assert_eq!(seen[1], SequencerRow::Octave3);
    assert_eq!(seen[4], SequencerRow::DrumLayer(11));
    assert_eq!(seen[15], SequencerRow::DrumLayer(0));
    for r in seen {
        assert_eq!(r.next(true).prev(true), r);
        assert_eq!(r.prev(true).next(true), r);
    }
}

#[test]
fn row_cycle_collapsed() {
    let rows = [SequencerRow::Drum, SequencerRow::Octave3, SequencerRow::Octave4, SequencerRow::Octave5];
    for (i, r) in rows.iter().enumerate() {
        assert_eq!(r.next(false), rows[(i + 1) % 4]);
        assert_eq!(r.prev(false), rows[(i + 3) % 4]);
    }
    assert_eq!(SequencerRow::DrumLayer(4).drum_layer(), Some(4));
    assert_eq!(SequencerRow::Octave4.drum_layer(), None);
}

#[test]
fn repeat_rates() {
    assert_eq!(RepeatRate::default(), RepeatRate::Off);
    assert_eq!(RepeatRate::EighthTriplet.name(), "1/8T");
    assert_eq!(RepeatRate::ThirtySecond.name(), "1/32");
    assert_eq!(RepeatRate::Off.beat_fraction(), None);
    assert_eq!(RepeatRate::SixteenthTriplet.beat_fraction(), Some((1, 6)));
}

#[test]
fn melodic_row_steps() {
    assert_eq!(step_count(ScaleMode::Chromatic), 12);
    assert_eq!(step_count(ScaleMode::Major), 8);
    assert_eq!(step_count(ScaleMode::Pentatonic), 6);
    // D major row from C4 (48 + root 2)
    assert_eq!(pitch_for_step(ScaleMode::Major, 2, 48, 0), 50);
    assert_eq!(pitch_for_step(ScaleMode::Major, 2, 48, 2), 54);
    assert_eq!(pitch_for_step(ScaleMode::Major, 2, 48, 7), 62);
    // the chromatic row ignores the root
    assert_eq!(pitch_for_step(ScaleMode::Chromatic, 2, 48, 1), 49);
    assert_eq!(pitch_class_for_step(ScaleMode::Major, 2, 2), 6);
    assert_eq!(note_name(pitch_class_for_step(ScaleMode::Major, 2, 2)), "F#");
    assert_eq!(pitch_class_for_step(ScaleMode::Major, 11, 1), 1);
    assert_eq!(note_name(pitch_class_for_step(ScaleMode::Major, 2, 7)), "D");
    assert!(is_step_accidental(ScaleMode::Chromatic, 13));
    assert!(!is_step_accidental(ScaleMode::Chromatic, 12));
    assert!(!is_step_accidental(ScaleMode::Major, 1));
}

#[test]
fn row_labels_name_the_first_pitch() {
    // D major row from C3 (48) starts on D3
    assert_eq!(row_start(ScaleMode::Major, 2, 48), (2, 3));
    assert_eq!(note_name(row_start(ScaleMode::Major, 2, 48).0), "D");
    // the chromatic row ignores the root
    assert_eq!(row_start(ScaleMode::Chromatic, 5, 60), (0, 4));
    assert_eq!(row_start(ScaleMode::Minor, 0, 0), (0, -1));
    // a high root still names its steps past the last tone
    assert_eq!(pitch_class_for_step(ScaleMode::Major, 245, 7), 245 % 12);
}

#[test]
fn tab_cycle_lengths() {
    for (start, expanded, period) in [
        (SequencerRow::DrumLayer(4), true, 16),
        (SequencerRow::Octave4, true, 16),
        (SequencerRow::Drum, false, 4),
    ] {
        let mut r = start;
        for k in 1..=period {
            r = r.next(expanded);
            assert_eq!(r == start, k == period);
        }
    }
}
