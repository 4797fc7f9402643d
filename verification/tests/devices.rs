use hallucinator_core::drums::{drum_hit_voice, kit_step_slots, kit_slot_for_pitch, steal_voice, DrumKind, VoiceSlot, CLAVES, CLOSED_HAT, KICK, OPEN_HAT};
use hallucinator_core::errors::{check_result, MonitorError, AudioInputError, Vst3GuiError};
use hallucinator_core::meter::MeterState;
use hallucinator_core::panels::{
    device_label, global_keys, truncate_label, DeviceClicks, DeviceRackAction, DeviceRackPanel,
    PlaybackCommand, SelectedClip,
};
use hallucinator_core::track::{TrackIdCounter, TrackId};
use hallucinator_core::transport::{advance_position, LoopRegion, TransportState};

#[test]
fn drum_notes() {
    assert_eq!(DrumKind::from_pitch(KICK), Some(DrumKind::Kick));
    assert_eq!(DrumKind::from_pitch(46), Some(DrumKind::OpenHat));
    assert_eq!(DrumKind::from_pitch(CLAVES), Some(DrumKind::Claves));
    assert_eq!(DrumKind::from_pitch(40), None);
    assert!(DrumKind::ClosedHat.is_hat());
    assert!(!DrumKind::Snare.is_hat());
}

fn v(active: bool, key: usize, age: usize) -> VoiceSlot {
    VoiceSlot { active, key, age }
}

#[test]
fn voice_stealing_order() {
    let voices = vec![v(true, 1, 5), v(false, 2, 9), v(true, 3, 7)];
    assert_eq!(steal_voice(&voices, 3), 2);
    assert_eq!(steal_voice(&voices, 9), 1);
    let busy = vec![v(true, 1, 5), v(true, 2, 9), v(true, 3, 9)];
    // oldest wins, the last one on a tie
    assert_eq!(steal_voice(&busy, 7), 2);
    assert_eq!(steal_voice(&vec![], 7), 0);
}

#[test]
fn kit_slots() {
    assert_eq!(kit_slot_for_pitch(36, 144), 0);
    assert_eq!(kit_slot_for_pitch(40, 144), 4);
    // below the base note the count wraps
    assert_eq!(kit_slot_for_pitch(35, 144), 255 % 144);
}

#[test]
fn gui_status_codes() {
    assert_eq!(check_result(0), Ok(()));
    assert_eq!(check_result(-2), Err(Vst3GuiError::NoView));
    assert_eq!(check_result(-4), Err(Vst3GuiError::InvalidParam));
    assert_eq!(check_result(7), Err(Vst3GuiError::Unknown(7)));
    assert_eq!(Vst3GuiError::from(-1), Vst3GuiError::LoadFailed);
    assert!(matches!(MonitorError::from(AudioInputError::NoDevices), MonitorError::Input(AudioInputError::NoDevices)));
}

#[test]
fn meter_clip_flag() {
    let m = MeterState::new();
    assert!(!m.is_clipped());
    m.set_clipped();
    assert!(m.is_clipped());
    m.clear_clip();
    assert!(!m.is_clipped());
    m.set_peak_bits(0.5f32.to_bits());
    assert_eq!(f32::from_bits(m.peak_bits()), 0.5);
    assert_eq!(m.rms_bits(), 0);
}

#[test]
fn device_rack_clicks() {
    let mut rack = DeviceRackPanel::new();
    assert_eq!(rack.selected_device(), None);
    let none = DeviceClicks { bypass_clicked: false, remove_clicked: false, clicked: false, double_clicked: false };
    assert_eq!(rack.handle_device_input(4, false, none), DeviceRackAction::NoAction);
    let click = DeviceClicks { clicked: true, ..none };
    assert_eq!(rack.handle_device_input(4, false, click), DeviceRackAction::NoAction);
    assert!(rack.is_selected(4));
    let bypass = DeviceClicks { bypass_clicked: true, ..none };
    assert_eq!(rack.handle_device_input(5, true, bypass), DeviceRackAction::ToggleBypass(5));
    let remove = DeviceClicks { remove_clicked: true, bypass_clicked: true, ..none };
    assert_eq!(rack.handle_device_input(5, false, remove), DeviceRackAction::RemoveDevice(5));
    // instruments cannot be removed
    assert_eq!(rack.handle_device_input(5, true, remove), DeviceRackAction::ToggleBypass(5));
    let open = DeviceClicks { double_clicked: true, clicked: true, ..remove };
    assert_eq!(rack.handle_device_input(6, false, open), DeviceRackAction::OpenPluginWindow(6));
    assert_eq!(rack.selected_device(), Some(6));
}

#[test]
fn labels() {
    assert_eq!(truncate_label("kick_808.wav", 4), "kick");
    assert_eq!(truncate_label("hat", 10), "hat");
    assert_eq!(truncate_label("héllo", 3), "hé");
    assert_eq!(device_label("Reverb"), "Reverb");
    assert_eq!(device_label("Twelve chars"), "Twelve chars");
    assert_eq!(device_label("Super Compressor"), "Super Comp...");
}

#[test]
fn transport_helpers() {
    assert!(TransportState::Recording.is_playing());
    assert!(!TransportState::Paused.is_playing());
    assert_eq!(TransportState::default(), TransportState::Stopped);
    let lp = LoopRegion { enabled: true, start: 100, end: 200 };
    assert_eq!(advance_position(150, 20, lp), 170);
    assert_eq!(advance_position(150, 50, lp), 100);
    assert_eq!(advance_position(150, 50, LoopRegion { enabled: false, ..lp }), 200);
    // an empty loop region does not loop
    assert_eq!(advance_position(150, 50, LoopRegion { enabled: true, start: 200, end: 200 }), 200);
}

#[test]
fn track_ids_count_up() {
    let mut ids = TrackIdCounter::new();
    assert_eq!(ids.allocate(), TrackId(1));
    assert_eq!(ids.allocate(), TrackId(2));
    assert_eq!(ids.next, 3);
}

#[test]
fn hi_hats_choke_each_other() {
    let v = |active: bool, key: u8, age: usize| VoiceSlot { active, key: key as usize, age };
    let mut voices = vec![v(true, OPEN_HAT, 9), v(true, KICK, 3), v(true, CLOSED_HAT, 1)];
    // a closed hat silences both hats, then takes the first silent voice
    assert_eq!(drum_hit_voice(&mut voices, CLOSED_HAT), Some(0));
    assert!(!voices[0].active);
    assert!(voices[1].active);
    assert!(!voices[2].active);

    // other drums leave the hats alone and retrigger their own voice
    let mut voices = vec![v(true, OPEN_HAT, 9), v(true, KICK, 3)];
    assert_eq!(drum_hit_voice(&mut voices, KICK), Some(1));
    assert!(voices[0].active);

    // with every voice busy the oldest is taken
    let mut voices = vec![v(true, OPEN_HAT, 9), v(true, KICK, 3)];
    assert_eq!(drum_hit_voice(&mut voices, CLAVES), Some(0));

    // a note that is no drum changes nothing
    assert_eq!(drum_hit_voice(&mut voices, 100), None);
    assert!(voices[0].active && voices[1].active);
}

#[test]
fn kit_step_plays_loaded_active_layers() {
    let mut loaded = vec![false; 36];
    loaded[24] = true;
    loaded[25] = true;
    loaded[26] = true;
    loaded[35] = true;
    // layers 0, 2 and 11 switched on for step 2
    assert_eq!(kit_step_slots(2, 0b1000_0000_0101, &loaded), vec![24, 26, 35]);
    // layer 1 is loaded but off; slots beyond the kit are skipped
    assert_eq!(kit_step_slots(3, 0b11, &loaded), Vec::<usize>::new());
    assert_eq!(kit_step_slots(0, 0, &loaded), Vec::<usize>::new());
}

#[test]
fn space_and_delete_keys() {
    let mut start: u64 = 0;
    let mut selected = Some(SelectedClip::Midi { track_idx: 1, clip_id: hallucinator_core::ClipId(4) });
    // space while stopped: remember the playhead and play
    let a = global_keys(false, true, false, false, 4800, &mut start, &mut selected);
    assert_eq!(a.playback, Some(PlaybackCommand::Play));
    assert_eq!(start, 4800);
    assert!(a.delete_clip.is_none() && selected.is_some());
    // space while playing: pause and seek back
    let a = global_keys(false, true, false, true, 9000, &mut start, &mut selected);
    assert_eq!(a.playback, Some(PlaybackCommand::PauseAndSeek(4800)));
    assert_eq!(start, 4800);
    // keys are ignored while typing
    let a = global_keys(true, true, true, false, 100, &mut start, &mut selected);
    assert!(a.playback.is_none() && a.delete_clip.is_none() && selected.is_some());
    // delete takes the selected clip
    let a = global_keys(false, false, true, false, 100, &mut start, &mut selected);
    assert!(matches!(a.delete_clip, Some(SelectedClip::Midi { track_idx: 1, .. })));
    assert!(selected.is_none());
}
