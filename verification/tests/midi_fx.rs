use hallucinator_core::midi_fx::{
    arp_events, arp_mode_from_index, chain_add, chain_remove, echo_events, sort_events_by_offset, harmonize_events, lcg_next, swing_events, transpose_events,
    ArpMode, Arpeggio, MidiEvent,
};

fn on(pitch: u8, offset: u32) -> MidiEvent {
    MidiEvent { pitch, velocity: 100, channel: 2, sample_offset: offset, is_note_on: true }
}

fn off(pitch: u8, offset: u32) -> MidiEvent {
    MidiEvent { pitch, velocity: 0, channel: 2, sample_offset: offset, is_note_on: false }
}

#[test]
fn lcg_matches_formula() {
    assert_eq!(lcg_next(0), 1);
    assert_eq!(lcg_next(1), 6364136223846793006);
    assert_eq!(lcg_next(12345), 12345u64.wrapping_mul(6364136223846793005).wrapping_add(1));
}

#[test]
fn transpose_clamps() {
    let r = transpose_events(vec![on(60, 0), on(120, 5), on(3, 9)], 12);
    let p: Vec<u8> = r.iter().map(|e| e.pitch).collect();
    assert_eq!(p, vec![72, 127, 15]);
    assert_eq!(r[1].sample_offset, 5);
    let r = transpose_events(vec![on(3, 0)], -48);
    assert_eq!(r[0].pitch, 0);
    let r = transpose_events(vec![on(64, 0)], i32::MIN);
    assert_eq!(r[0].pitch, 0);
}

#[test]
fn harmonize_adds_voices_after_input() {
    let input = vec![on(60, 0), off(60, 10), on(64, 20)];
    let r = harmonize_events(input.clone(), 4, 7, 2);
    let p: Vec<u8> = r.iter().map(|e| e.pitch).collect();
    assert_eq!(p, vec![60, 60, 64, 64, 67, 68, 71]);
    assert!(r[3..].iter().all(|e| e.is_note_on));
    assert_eq!(r[5].sample_offset, 20);
    let r = harmonize_events(input.clone(), 4, 7, 1);
    assert_eq!(r.len(), 5);
    let r = harmonize_events(input, -12, 12, 0);
    assert_eq!(r.len(), 3);
    let r = harmonize_events(vec![on(125, 0)], 12, -126, 2);
    assert_eq!(r[1].pitch, 127);
    assert_eq!(r[2].pitch, 0);
}

#[test]
fn swing_moves_off_beats() {
    let r = swing_events(vec![on(60, 0), on(60, 100), on(60, 250), on(60, 310)], 100, 30);
    let o: Vec<u32> = r.iter().map(|e| e.sample_offset).collect();
    assert_eq!(o, vec![0, 130, 250, 340]);
    let r = swing_events(vec![on(60, 120)], 100, -500);
    assert_eq!(r[0].sample_offset, 0);
}

#[test]
fn arp_modes_from_knob() {
    assert_eq!(arp_mode_from_index(0), ArpMode::Up);
    assert_eq!(arp_mode_from_index(1), ArpMode::Down);
    assert_eq!(arp_mode_from_index(2), ArpMode::UpDown);
    assert_eq!(arp_mode_from_index(3), ArpMode::Random);
    assert_eq!(arp_mode_from_index(4), ArpMode::Order);
    assert_eq!(arp_mode_from_index(200), ArpMode::Order);
}

#[test]
fn held_notes_follow_events() {
    let mut arp = Arpeggio::new();
    arp.update_held(&vec![on(64, 0), on(60, 0), on(64, 1), on(67, 2)]);
    assert_eq!(arp.held_notes, vec![64, 60, 67]);
    arp.update_held(&vec![off(60, 0)]);
    assert_eq!(arp.held_notes, vec![64, 67]);
    arp.update_held(&vec![off(50, 0)]);
    assert_eq!(arp.held_notes, vec![64, 67]);
    assert_eq!(arp.rng_state, 99999);
}

#[test]
fn arp_sequences() {
    let mut arp = Arpeggio::new();
    arp.update_held(&vec![on(64, 0), on(60, 0), on(67, 0)]);
    assert_eq!(arp.build_sequence(ArpMode::Up, 1), vec![60, 64, 67]);
    assert_eq!(arp.build_sequence(ArpMode::Order, 1), vec![60, 64, 67]);
    assert_eq!(arp.build_sequence(ArpMode::Down, 2), vec![67, 64, 60, 79, 76, 72]);
    assert_eq!(arp.build_sequence(ArpMode::UpDown, 1), vec![60, 64, 67, 64]);
    assert_eq!(arp.build_sequence(ArpMode::UpDown, 2), vec![60, 64, 67, 72, 76, 79, 76, 72, 67, 64]);
    assert_eq!(arp.build_sequence(ArpMode::Up, 0), Vec::<u8>::new());
    // capped at the top note
    let mut high = Arpeggio::new();
    high.update_held(&vec![on(120, 0)]);
    assert_eq!(high.build_sequence(ArpMode::Up, 3), vec![120, 127, 127]);
    assert_eq!(arp.rng_state, 99999);
}

#[test]
fn arp_random_is_a_shuffle() {
    let mut arp = Arpeggio::new();
    arp.update_held(&vec![on(60, 0), on(62, 0), on(64, 0), on(65, 0)]);
    let seq = arp.build_sequence(ArpMode::Random, 2);
    let mut sorted = seq.clone();
    sorted.sort();
    assert_eq!(sorted, vec![60, 62, 64, 65, 72, 74, 76, 77]);
    // the generator advanced once per swap
    let mut state = 99999u64;
    for _ in 0..7 {
        state = lcg_next(state);
    }
    assert_eq!(arp.rng_state, state);
    // same state, same shuffle
    let mut again = Arpeggio::new();
    again.update_held(&vec![on(60, 0), on(62, 0), on(64, 0), on(65, 0)]);
    assert_eq!(again.build_sequence(ArpMode::Random, 2), seq);
}

#[test]
fn arp_event_timing() {
    let r = arp_events(&vec![60, 64], 3, 1000, 800);
    assert_eq!(r.len(), 4);
    assert!(r[0].is_note_on && r[0].sample_offset == 0 && r[0].velocity == 100 && r[0].pitch == 60);
    assert!(!r[1].is_note_on && r[1].sample_offset == 800 && r[1].velocity == 0);
    assert!(r[2].is_note_on && r[2].sample_offset == 1000 && r[2].pitch == 64);
    assert_eq!(r[3].sample_offset, 1800);
    assert!(r.iter().all(|e| e.channel == 3));
    assert!(arp_events(&vec![], 0, 5, 5).is_empty());
}

#[test]
fn echo_sorts_echoes_in() {
    let input = vec![on(60, 0), off(60, 50), on(62, 100)];
    let r = echo_events(input, 100, &vec![vec![70, 49], vec![], vec![35]]);
    let got: Vec<(u8, u8, u32, bool)> =
        r.iter().map(|e| (e.pitch, e.velocity, e.sample_offset, e.is_note_on)).collect();
    assert_eq!(
        got,
        vec![
            (60, 100, 0, true),
            (60, 0, 50, false),
            (62, 100, 100, true),
            (60, 70, 100, true),
            (60, 49, 200, true),
            (62, 35, 200, true),
        ]
    );
    let s = sort_events_by_offset(vec![on(1, 30), on(2, 10), on(3, 30), on(4, 0)]);
    let p: Vec<u8> = s.iter().map(|e| e.pitch).collect();
    assert_eq!(p, vec![4, 2, 1, 3]);
}

#[test]
fn chain_holds_at_most_eight_effects() {
    let mut chain: Vec<u32> = Vec::new();
    for i in 0..10 {
        chain_add(&mut chain, i);
    }
    assert_eq!(chain, vec![0, 1, 2, 3, 4, 5, 6, 7]);
    assert_eq!(chain_remove(&mut chain, 2), Some(2));
    assert_eq!(chain, vec![0, 1, 3, 4, 5, 6, 7]);
    assert_eq!(chain_remove(&mut chain, 7), None);
    assert_eq!(chain.len(), 7);
    chain_add(&mut chain, 42);
    assert_eq!(chain.last(), Some(&42));
}
