use hallucinator_core::clip::{frame_count, frame_index, toggle_drum_note, ClipId, MidiClip, MidiNote};

#[test]
fn notes_stay_sorted_by_start() {
    let mut clip = MidiClip::new(ClipId(9), 48000);
    clip.add_note(MidiNote::new(60, 100, 480, 240));
    clip.add_note(MidiNote::new(62, 100, 0, 240));
    clip.add_note(MidiNote::new(64, 100, 960, 240));
    clip.add_note(MidiNote::new(65, 90, 480, 120));
    let starts: Vec<u64> = clip.notes.iter().map(|n| n.start_tick).collect();
    assert_eq!(starts, vec![0, 480, 480, 960]);
    // a note starting with another goes after it
    assert_eq!(clip.notes[1].pitch, 60);
    assert_eq!(clip.notes[2].pitch, 65);
}

#[test]
fn remove_note_by_index() {
    let mut clip = MidiClip::new(ClipId(1), 100);
    clip.add_note(MidiNote::new(60, 100, 0, 10));
    clip.add_note(MidiNote::new(61, 100, 5, 10));
    assert!(clip.remove_note(2).is_none());
    let n = clip.remove_note(0).unwrap();
    assert_eq!(n.pitch, 60);
    assert_eq!(clip.notes.len(), 1);
}

#[test]
fn clip_and_note_ends() {
    let mut clip = MidiClip::new(ClipId(2), 1000);
    assert_eq!(clip.ppq, 480);
    assert_eq!(clip.start_sample, 0);
    assert!(clip.name.is_empty());
    clip.start_sample = 500;
    assert_eq!(clip.end_sample(), 1500);
    assert_eq!(MidiNote::new(60, 1, 100, 20).end_tick(), 120);
}

#[test]
fn cloned_clip_is_equal() {
    let mut clip = MidiClip::new(ClipId(4), 10);
    clip.name = String::from("Bass");
    clip.add_note(MidiNote::new(40, 80, 3, 4));
    let copy = clip.clone();
    assert_eq!(copy.id, ClipId(4));
    assert_eq!(copy.name, "Bass");
    assert_eq!(copy.notes.len(), 1);
    assert_eq!(copy.notes[0].pitch, 40);
}

#[test]
fn frames_in_interleaved_data() {
    assert_eq!(frame_count(10, 2), 5);
    assert_eq!(frame_count(11, 2), 5);
    assert_eq!(frame_count(7, 1), 7);
}

#[test]
fn frame_index_inside_and_outside_a_clip() {
    // stereo clip at sample 100, 4 frames long, 8 samples of data
    assert_eq!(frame_index(100, 4, 2, 8, 99), None);
    assert_eq!(frame_index(100, 4, 2, 8, 100), Some(0));
    assert_eq!(frame_index(100, 4, 2, 8, 103), Some(6));
    assert_eq!(frame_index(100, 4, 2, 8, 104), None);
    // the clip claims more frames than its data holds
    assert_eq!(frame_index(0, 10, 2, 8, 5), None);
}

#[test]
fn drum_roll_click_toggles_notes() {
    let mut clip = MidiClip::new(ClipId(1), 96000);
    clip.add_note(MidiNote::new(36, 100, 0, 120));
    clip.add_note(MidiNote::new(36, 100, 480, 120));
    // a kick click within a sixteenth (480 / 4 = 120 ticks) of the first kick removes it
    assert!(toggle_drum_note(&mut clip, 36, 100, 120));
    assert_eq!(clip.notes.len(), 1);
    assert_eq!(clip.notes[0].start_tick, 480);
    // exactly a sixteenth away is no hit: a new kick goes in, before the later one
    assert!(!toggle_drum_note(&mut clip, 36, 360, 120));
    let starts: Vec<(u8, u64, u8)> = clip.notes.iter().map(|n| (n.pitch, n.start_tick, n.velocity)).collect();
    assert_eq!(starts, vec![(36, 360, 100), (36, 480, 100)]);
    // another lane does not hit the kicks
    assert!(!toggle_drum_note(&mut clip, 38, 480, 120));
    assert_eq!(clip.notes.len(), 3);
    // a click between two kicks removes the first one it hits
    assert!(toggle_drum_note(&mut clip, 36, 420, 120));
    let starts: Vec<u64> = clip.notes.iter().map(|n| n.start_tick).collect();
    assert_eq!(starts, vec![480, 480]);
}
