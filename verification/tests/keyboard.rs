use hallucinator_core::keyboard::{
    clear_step_sample_name, key_to_pitch, octave_down, octave_up, row_enabled_mask,
    set_step_sample_name, toggle_drum_step, SelectionState,
};
use hallucinator_core::sequencer::{DrumStep, SequencerRow};

#[test]
fn piano_keys_map_to_pitches() {
    assert_eq!(key_to_pitch('Z', 0), Some(48));
    assert_eq!(key_to_pitch('M', 0), Some(59));
    assert_eq!(key_to_pitch('Q', 0), Some(60));
    assert_eq!(key_to_pitch('P', 0), Some(76));
    assert_eq!(key_to_pitch('Q', 2), Some(84));
    assert_eq!(key_to_pitch('Z', -2), Some(24));
    assert_eq!(key_to_pitch('P', 5), None);
    assert_eq!(key_to_pitch('Z', -5), None);
    assert_eq!(key_to_pitch('A', 0), None);
    assert_eq!(key_to_pitch('1', 0), None);
}

#[test]
fn keyboard_octave_limits() {
    assert_eq!(octave_down(0), -1);
    assert_eq!(octave_down(-2), -2);
    assert_eq!(octave_up(1), 2);
    assert_eq!(octave_up(2), 2);
}

#[test]
fn tab_cycles_rows_and_syncs_layer() {
    let mut sel = SelectionState::new();
    sel.tab(true, true);
    assert_eq!(sel.active_row, SequencerRow::DrumLayer(0));
    assert_eq!(sel.active_drum_layer, 0);
    sel.tab(true, true);
    assert_eq!(sel.active_row, SequencerRow::DrumLayer(1));
    assert_eq!(sel.active_drum_layer, 1);
    sel.tab(false, true);
    sel.tab(false, true);
    assert_eq!(sel.active_row, SequencerRow::Drum);
    assert_eq!(sel.active_drum_layer, 0);
    sel.tab(false, false);
    assert_eq!(sel.active_row, SequencerRow::Octave3);
}

#[test]
fn arrows_move_selection() {
    let mut sel = SelectionState::default();
    sel.arrows(true, true, true, true, 8, true);
    assert_eq!(sel.selected_step, None);
    assert_eq!(sel.active_row, SequencerRow::Drum);
    sel.selected_step = Some(0);
    sel.arrows(true, false, false, false, 8, true);
    assert_eq!(sel.selected_step, Some(0));
    sel.arrows(false, true, false, false, 8, true);
    assert_eq!(sel.selected_step, Some(1));
    sel.selected_step = Some(7);
    sel.arrows(false, true, false, false, 8, true);
    assert_eq!(sel.selected_step, Some(7));
    sel.arrows(false, false, true, false, 8, true);
    assert_eq!(sel.active_row, SequencerRow::DrumLayer(0));
    sel.arrows(false, false, false, true, 8, true);
    assert_eq!(sel.active_row, SequencerRow::Drum);
    assert_eq!(sel.active_drum_layer, 0);
    // with no steps the selection collapses onto step 0
    sel.selected_step = Some(3);
    sel.arrows(false, true, false, false, 0, true);
    assert_eq!(sel.selected_step, Some(0));
}

#[test]
fn toggling_drum_steps() {
    let mut steps = vec![DrumStep::default(); 4];
    toggle_drum_step(&mut steps, 1, SequencerRow::DrumLayer(3));
    assert!(steps[1].layers[3].active);
    assert!(steps[1].active);
    toggle_drum_step(&mut steps, 1, SequencerRow::DrumLayer(3));
    assert!(!steps[1].layers[3].active);
    assert!(!steps[1].active);
    toggle_drum_step(&mut steps, 2, SequencerRow::Drum);
    assert!(steps[2].active);
    toggle_drum_step(&mut steps, 2, SequencerRow::Octave4);
    assert!(steps[2].active);
    assert!(!steps[0].active);
}

#[test]
fn step_samples() {
    let mut steps = vec![DrumStep::default(); 2];
    set_step_sample_name(&mut steps, 1, 4, String::from("snare.wav"));
    assert!(steps[1].active);
    assert!(steps[1].layers[4].active);
    assert_eq!(steps[1].layers[4].sample_name.as_deref(), Some("snare.wav"));
    set_step_sample_name(&mut steps, 2, 4, String::from("x.wav"));
    set_step_sample_name(&mut steps, 0, 12, String::from("x.wav"));
    assert!(!steps[0].has_any_sample());
    clear_step_sample_name(&mut steps, 1, 4);
    assert!(!steps[1].layers[4].active);
    assert!(steps[1].layers[4].sample_name.is_none());
    assert!(steps[1].active);
}

#[test]
fn enabled_rows_mask() {
    let mut rows = [true; 12];
    assert_eq!(row_enabled_mask(&rows), 0x0fff);
    rows[0] = false;
    rows[11] = false;
    assert_eq!(row_enabled_mask(&rows), 0x07fe);
    assert_eq!(row_enabled_mask(&[false; 12]), 0);
}

#[test]
fn ctrl_click_selects_rows_and_plain_click_mutes_them_together() {
    let mut sel = SelectionState::new();
    let mut enabled = [true; 12];
    let mut has_sample = [false; 12];
    has_sample[1] = true;
    has_sample[4] = true;
    has_sample[7] = true;
    assert!(sel.click_row_sample(&mut enabled, &has_sample, 4, true).is_empty());
    assert!(sel.click_row_sample(&mut enabled, &has_sample, 5, true).is_empty());
    assert_eq!(sel.selected_rows, vec![4, 5]);
    assert_eq!(sel.active_row, SequencerRow::DrumLayer(5));
    // ctrl-click again takes a row out
    sel.click_row_sample(&mut enabled, &has_sample, 5, true);
    assert_eq!(sel.selected_rows, vec![4]);
    sel.click_row_sample(&mut enabled, &has_sample, 5, true);
    // the menu mutes row 1 with the selected rows that hold samples; the selection stays
    assert_eq!(sel.menu_toggle_row(&mut enabled, &has_sample, 1), vec![1, 4]);
    assert!(!enabled[1] && !enabled[4] && enabled[5]);
    assert_eq!(sel.selected_rows, vec![4, 5]);
    // a plain click on row 7 switches it off with the selected sample rows, and clears the selection
    assert_eq!(sel.click_row_sample(&mut enabled, &has_sample, 7, false), vec![7, 4]);
    assert!(!enabled[7] && !enabled[4]);
    assert!(sel.selected_rows.is_empty());
    // a plain click on a row without a sample changes nothing
    let before = enabled;
    assert!(sel.click_row_sample(&mut enabled, &has_sample, 2, false).is_empty());
    assert_eq!(enabled, before);
}

#[test]
fn ctrl_click_selects_cells_and_plain_click_toggles_them_together() {
    let mut sel = SelectionState::new();
    let mut steps = vec![DrumStep::default(); 8];
    assert!(sel.click_cell(&mut steps, 2, 3, true).is_empty());
    assert!(sel.click_cell(&mut steps, 0, 5, true).is_empty());
    assert_eq!(sel.selected_cells, vec![(2, 3), (0, 5)]);
    assert_eq!(sel.selected_step, Some(5));
    assert!(!steps[3].layers[2].active);
    // a plain click on (1, 6) turns it and both selected cells on
    assert_eq!(sel.click_cell(&mut steps, 1, 6, false), vec![6, 3, 5]);
    assert!(steps[6].layers[1].active && steps[3].layers[2].active && steps[5].layers[0].active);
    assert!(!steps[6].active);
    assert!(sel.selected_cells.is_empty());
    // clicking it again turns it off alone
    assert_eq!(sel.click_cell(&mut steps, 1, 6, false), vec![6]);
    assert!(!steps[6].layers[1].active && steps[3].layers[2].active);
}
