use hallucinator_core::clip::{ClipId, MidiClip, MidiNote};
use hallucinator_core::pattern::{PatternBank, PatternSlot};

#[test]
fn new_bank_has_sixteen_empty_slots() {
    let bank = PatternBank::new();
    assert_eq!(bank.patterns.len(), 16);
    assert!(bank.patterns.iter().all(|p| p.is_empty() && p.length_bars == 4));
    assert_eq!(bank.active_pattern, 0);
    assert!(bank.queued_pattern.is_none());
}

#[test]
fn set_and_queue_clamp_to_last_slot() {
    let mut bank = PatternBank::new();
    bank.set_active(40);
    assert_eq!(bank.active_pattern, 15);
    bank.set_active(3);
    assert_eq!(bank.active_pattern, 3);
    bank.queue_pattern(99);
    assert_eq!(bank.queued_pattern, Some(15));
}

#[test]
fn queued_pattern_takes_over_at_bar() {
    let mut bank = PatternBank::new();
    assert!(!bank.process_queue());
    bank.queue_pattern(7);
    assert!(bank.process_queue());
    assert_eq!(bank.active_pattern, 7);
    assert!(bank.queued_pattern.is_none());
    assert!(!bank.process_queue());
    assert_eq!(bank.active_pattern, 7);
}

#[test]
fn copy_and_clear_patterns() {
    let mut bank = PatternBank::new();
    let mut clip = MidiClip::new(ClipId(1), 1000);
    clip.add_note(MidiNote::new(60, 100, 0, 10));
    bank.patterns[2] = PatternSlot::with_clip(clip, 8);
    assert!(!bank.patterns[2].is_empty());
    bank.copy_pattern(2, 5);
    assert_eq!(bank.patterns[5].length_bars, 8);
    assert_eq!(bank.patterns[5].clip.as_ref().unwrap().notes.len(), 1);
    // out of range and self copies do nothing
    bank.copy_pattern(2, 16);
    bank.copy_pattern(5, 5);
    bank.clear_pattern(2);
    assert!(bank.patterns[2].is_empty());
    assert_eq!(bank.patterns[2].length_bars, 4);
    bank.clear_pattern(16);
    assert!(!bank.patterns[5].is_empty());
}

#[test]
fn active_slot_access() {
    let mut bank = PatternBank::new();
    bank.set_active(4);
    bank.active_mut().name = String::from("Verse");
    bank.active_mut().length_bars = 2;
    assert_eq!(bank.active().name, "Verse");
    assert_eq!(bank.patterns[4].length_bars, 2);
}

#[test]
fn slot_with_empty_clip_is_empty() {
    let slot = PatternSlot::with_clip(MidiClip::new(ClipId(3), 10), 1);
    assert!(slot.is_empty());
    assert!(PatternSlot::default().is_empty());
    assert_eq!(PatternSlot::default().length_bars, 0);
}
