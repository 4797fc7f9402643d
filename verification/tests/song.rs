use hallucinator_core::song::{PlaybackMode, SongArrangement, SongSection};

fn section(bars: u8, repeats: u8) -> SongSection {
    let mut s = SongSection::new(bars);
    s.repeat_count = repeats;
    s
}

#[test]
fn new_song_has_one_section() {
    let song = SongArrangement::new();
    assert_eq!(song.sections.len(), 1);
    assert_eq!(song.sections[0].length_bars, 4);
    assert_eq!(song.sections[0].repeat_count, 1);
    assert_eq!(song.current_section, 0);
    assert_eq!(song.mode, PlaybackMode::Pattern);
    assert_eq!(song.total_bars(), 4);
}

#[test]
fn section_patterns_default_to_zero() {
    let mut s = SongSection::new(8);
    assert_eq!(s.get_pattern(7), 0);
    s.set_pattern(7, 3);
    assert_eq!(s.get_pattern(7), 3);
    s.set_pattern(7, 5);
    assert_eq!(s.get_pattern(7), 5);
    assert_eq!(s.get_pattern(8), 0);
}

#[test]
fn section_total_bars_counts_repeats() {
    assert_eq!(section(4, 3).total_bars(), 12);
    // a repeat count of zero still plays once
    assert_eq!(section(4, 0).total_bars(), 4);
    assert_eq!(section(255, 255).total_bars(), 65025);
}

#[test]
fn section_at_bar_finds_spans() {
    let mut song = SongArrangement::new();
    song.add_section(section(2, 2));
    song.add_section(section(8, 1));
    // spans: [0,4) [4,8) [8,16)
    assert_eq!(song.total_bars(), 16);
    assert_eq!(song.section_at_bar(0).map(|(i, _)| i), Some(0));
    assert_eq!(song.section_at_bar(3).map(|(i, _)| i), Some(0));
    assert_eq!(song.section_at_bar(4).map(|(i, _)| i), Some(1));
    assert_eq!(song.section_at_bar(7).map(|(i, _)| i), Some(1));
    assert_eq!(song.section_at_bar(8).map(|(i, _)| i), Some(2));
    assert_eq!(song.section_at_bar(15).map(|(i, _)| i), Some(2));
    assert!(song.section_at_bar(16).is_none());
    assert!(song.section_at_bar(u32::MAX).is_none());
}

#[test]
fn advance_walks_repeats_then_sections() {
    let mut song = SongArrangement::new();
    song.sections[0].repeat_count = 2;
    song.add_section(section(4, 1));
    assert!(song.advance());
    assert_eq!((song.current_section, song.current_repeat), (0, 1));
    assert!(song.advance());
    assert_eq!((song.current_section, song.current_repeat), (1, 0));
    assert!(!song.advance());
    assert_eq!((song.current_section, song.current_repeat), (2, 0));
    // past the end nothing moves
    assert!(!song.advance());
    assert_eq!((song.current_section, song.current_repeat), (2, 0));
    song.reset();
    assert_eq!((song.current_section, song.current_repeat), (0, 0));
    assert!(song.current().is_some());
}

#[test]
fn remove_keeps_last_section() {
    let mut song = SongArrangement::new();
    assert!(song.remove_section(0).is_none());
    song.add_section(section(1, 1));
    assert!(song.remove_section(5).is_none());
    let removed = song.remove_section(0).unwrap();
    assert_eq!(removed.length_bars, 4);
    assert_eq!(song.sections.len(), 1);
    assert_eq!(song.sections[0].length_bars, 1);
}

#[test]
fn insert_copy_duplicate() {
    let mut song = SongArrangement::new();
    song.insert_section(0, section(2, 1));
    song.insert_section(99, section(6, 1));
    let bars: Vec<u8> = song.sections.iter().map(|s| s.length_bars).collect();
    assert_eq!(bars, vec![2, 4, 6]);
    song.sections[0].set_pattern(1, 9);
    song.copy_section(0, 2);
    assert_eq!(song.sections[2].length_bars, 2);
    assert_eq!(song.sections[2].get_pattern(1), 9);
    song.copy_section(0, 3);
    assert_eq!(song.sections.len(), 3);
    song.duplicate_section(1);
    let bars: Vec<u8> = song.sections.iter().map(|s| s.length_bars).collect();
    assert_eq!(bars, vec![2, 4, 4, 2]);
    song.duplicate_section(10);
    assert_eq!(song.sections.len(), 4);
}

#[test]
fn current_mut_edits_current_section() {
    let mut song = SongArrangement::new();
    song.current_mut().unwrap().name = String::from("Intro");
    assert_eq!(song.sections[0].name, "Intro");
    song.current_section = 3;
    assert!(song.current_mut().is_none());
    assert!(song.current().is_none());
}

#[test]
fn playing_through_takes_the_total_bars() {
    let mut song = SongArrangement::new();
    song.sections[0] = section(2, 3);
    song.add_section(section(4, 0));
    song.add_section(section(1, 1));
    assert_eq!(song.total_bars(), 11);
    let mut bars: u32 = 0;
    let mut plays = 0;
    loop {
        bars += song.current().unwrap().length_bars as u32;
        plays += 1;
        if !song.advance() {
            break;
        }
    }
    assert_eq!(plays, 5);
    assert_eq!(bars, song.total_bars());
    // after the first false the song is over and stays over
    assert_eq!(song.current_section, 3);
    assert!(song.current().is_none());
    assert!(!song.advance());
    assert_eq!(song.current_section, 3);
}

#[test]
fn pattern_read_back_after_other_assignments() {
    let mut s = SongSection::new(4);
    s.set_pattern(3, 7);
    for t in [1u64, 2, 4, 99, u64::MAX] {
        s.set_pattern(t, 5);
    }
    assert_eq!(s.get_pattern(3), 7);
    assert_eq!(s.get_pattern(0), 0);
    s.set_pattern(3, 2);
    assert_eq!(s.get_pattern(3), 2);
}
