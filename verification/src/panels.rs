//! The plain data that the editor panels exchange with the application (the
//! selected clip and the actions the panels report), the decisions of the
//! device rack, and the shortening of labels to fit their boxes.

use vstd::prelude::*;
use vstd::string::{StringExecFns, StringSliceAdditionalSpecFns};
use vstd::utf8::{encode_utf8, is_char_boundary};

use crate::clip::ClipId;

verus! {

/// Selected clip info
#[derive(Clone, Copy)]
pub enum SelectedClip {
    Audio { track_idx: usize, clip_id: ClipId },
    Midi { track_idx: usize, clip_id: ClipId },
}

/// What the play/pause key asks of the transport.
#[derive(Clone, Copy, Debug, PartialEq, Eq, Structural)]
pub enum PlaybackCommand {
    /// Pause, and go back to where playback started.
    PauseAndSeek(u64),
    /// Start playing from where the playhead is.
    Play,
}

/// What the application-wide keys ask for in one frame.
#[derive(Clone, Copy)]
pub struct GlobalKeyActions {
    pub playback: Option<PlaybackCommand>,
    pub delete_clip: Option<SelectedClip>,
}

/// The application-wide keys of one frame, ignored while a text field takes
/// typing: Space pauses a playing transport and seeks back to where playback
/// started, or remembers the playhead as that start and plays; Delete (or
/// Backspace) takes the selected clip, if any, for deletion.
pub fn global_keys(
    text_focused: bool,
    space: bool,
    delete: bool,
    playing: bool,
    position: u64,
    playback_start: &mut u64,
    selected: &mut Option<SelectedClip>,
) -> (r: GlobalKeyActions)
    ensures
        r.playback == if !text_focused && space {
            Some(
                if playing {
                    PlaybackCommand::PauseAndSeek(*old(playback_start))
                } else {
                    PlaybackCommand::Play
                },
            )
        } else {
            None
        },
        *final(playback_start) == if !text_focused && space && !playing {
            position
        } else {
            *old(playback_start)
        },
        !text_focused && delete ==> r.delete_clip == *old(selected) && *final(selected) is None,
        !(!text_focused && delete) ==> r.delete_clip is None && *final(selected) == *old(selected),
{
    let mut playback: Option<PlaybackCommand> = None;
    if !text_focused && space {
        if playing {
            playback = Some(PlaybackCommand::PauseAndSeek(*playback_start));
        } else {
            *playback_start = position;
            playback = Some(PlaybackCommand::Play);
        }
    }
    let mut delete_clip: Option<SelectedClip> = None;
    if !text_focused && delete {
        delete_clip = selected.take();
    }
    GlobalKeyActions { playback, delete_clip }
}

/// Which edge of the loop region is being dragged
#[derive(Clone, Copy, Debug, PartialEq, Structural)]
pub enum LoopEdge {
    Start,
    End,
}

/// Action returned from arrange panel
#[derive(Clone)]
pub enum ArrangeAction {
    NoAction,
    SelectClip { track_idx: usize, clip_id: ClipId },
    OpenClipEditor { track_idx: usize, clip_id: ClipId },
    DeleteClip { track_idx: usize, clip_id: ClipId },
    Seek(u64),
    AddAudioTrack,
    AddMidiTrack,
    SetLoopRegion { start_sample: u64, end_sample: u64 },
}

/// Actions returned from piano roll
#[derive(Clone, Debug)]
pub enum PianoRollAction {
    NoAction,
    ClipModified,
    /// Set loop region from selection
    SetLoopRegion { start_sample: u64, end_sample: u64 },
    /// Play a preview note (when not playing)
    PlayNote { pitch: u8, velocity: u8 },
    /// Stop a preview note
    StopNote { pitch: u8 },
    /// Stop multiple notes (used when deleting notes during playback)
    StopNotes { pitches: Vec<u8> },
    /// Record a note during live recording
    RecordNote { pitch: u8, velocity: u8, start_tick: u64, duration_ticks: u64 },
}

/// Action returned from the drum roll
#[derive(Clone)]
pub enum DrumRollAction {
    NoAction,
    TogglePlayback { clip_start_sample: u64 },
    ClipModified,
    PlayNote { pitch: u8, velocity: u8 },
    SetLoopRegion { start_sample: u64, end_sample: u64 },
}

/// Info about a native (built-in) instrument
#[derive(Clone)]
pub struct NativeInstrumentInfo {
    pub id: &'static str,
    pub name: &'static str,
}

/// Info about a device in the chain
#[derive(Clone)]
pub struct DeviceInfo {
    pub id: u64,
    pub name: String,
    pub is_instrument: bool,
    pub is_bypassed: bool,
    pub has_ui: bool,
}

/// Action returned from device rack
#[derive(Clone, Copy, Debug, PartialEq, Eq, Structural)]
pub enum DeviceRackAction {
    NoAction,
    OpenPluginWindow(u64),
    ToggleBypass(u64),
    RemoveDevice(u64),
    AddEffect,
}

/// What the pointer did to one device box in a frame.
#[derive(Clone, Copy, Debug)]
pub struct DeviceClicks {
    pub bypass_clicked: bool,
    pub remove_clicked: bool,
    pub clicked: bool,
    pub double_clicked: bool,
}

/// The action for a device box: opening its window on a double click wins over
/// removing it (effects only), which wins over toggling its bypass.
pub open spec fn device_action(id: u64, is_instrument: bool, c: DeviceClicks) -> DeviceRackAction {
    if c.double_clicked {
        DeviceRackAction::OpenPluginWindow(id)
    } else if !is_instrument && c.remove_clicked {
        DeviceRackAction::RemoveDevice(id)
    } else if c.bypass_clicked {
        DeviceRackAction::ToggleBypass(id)
    } else {
        DeviceRackAction::NoAction
    }
}

/// Device rack panel state
pub struct DeviceRackPanel {
    selected_device_id: Option<u64>,
}

impl DeviceRackPanel {
    /// The device that was last clicked, if any.
    pub closed spec fn selected(&self) -> Option<u64> {
        self.selected_device_id
    }

    /// A rack with no device selected.
    pub fn new() -> (r: Self)
        ensures
            r.selected() is None,
    {
        DeviceRackPanel { selected_device_id: None }
    }

    /// The device that was last clicked, if any.
    pub fn selected_device(&self) -> (r: Option<u64>)
        ensures
            r == self.selected(),
    {
        self.selected_device_id
    }

    /// Whether the device box with this id is drawn as selected.
    pub fn is_selected(&self, id: u64) -> (r: bool)
        ensures
            r == (self.selected() == Some(id)),
    {
        match self.selected_device_id {
            Some(s) => s == id,
            None => false,
        }
    }

    /// React to the pointer on one device box: a click selects the device, and
    /// the action reported follows `device_action`.
    pub fn handle_device_input(&mut self, id: u64, is_instrument: bool, clicks: DeviceClicks) -> (r:
        DeviceRackAction)
        ensures
            r == device_action(id, is_instrument, clicks),
            final(self).selected() == if clicks.clicked {
                Some(id)
            } else {
                old(self).selected()
            },
    {
        let mut action = DeviceRackAction::NoAction;
        if clicks.bypass_clicked {
            action = DeviceRackAction::ToggleBypass(id);
        }
        if !is_instrument && clicks.remove_clicked {
            action = DeviceRackAction::RemoveDevice(id);
        }
        if clicks.clicked {
            self.selected_device_id = Some(id);
        }
        if clicks.double_clicked {
            action = DeviceRackAction::OpenPluginWindow(id);
        }
        action
    }
}

impl Default for DeviceRackPanel {
    fn default() -> (r: Self)
        ensures
            r.selected() is None,
    {
        Self::new()
    }
}

// ---------------------------------------------------------------------------
// Labels
// ---------------------------------------------------------------------------

proof fn lemma_encode_concat(a: Seq<char>, b: Seq<char>)
    ensures
        encode_utf8(a + b) == encode_utf8(a) + encode_utf8(b),
    decreases a.len(),
{
    if a.len() == 0 {
        assert(a + b =~= b);
        assert(encode_utf8(a) =~= Seq::<u8>::empty());
        assert(encode_utf8(a) + encode_utf8(b) =~= encode_utf8(b));
    } else {
        lemma_encode_concat(a.drop_first(), b);
        assert((a + b).drop_first() =~= a.drop_first() + b);
        assert((a + b)[0] == a[0]);
    }
}

/// Shorten a label to at most `max` bytes of UTF-8 (cutting between characters).
pub fn truncate_label(s: &str, max: usize) -> (r: String)
    requires
        s.spec_bytes().len() <= usize::MAX,
        s.spec_bytes().len() <= max || is_char_boundary(s.spec_bytes(), max as int),
    ensures
        s.spec_bytes().len() <= max ==> r@ == s@,
        s.spec_bytes().len() > max ==> encode_utf8(r@) == s.spec_bytes().subrange(0, max as int),
{
    if s.len() <= max {
        return s.to_owned();
    }
    let (head, _tail) = s.split_at(max);
    head.to_owned()
}

/// The name shown on a device box: names longer than 12 bytes are cut to their
/// first 10 bytes and marked with an ellipsis.
pub fn device_label(name: &str) -> (r: String)
    requires
        name.spec_bytes().len() <= usize::MAX,
        name.spec_bytes().len() > 12 ==> is_char_boundary(name.spec_bytes(), 10),
    ensures
        name.spec_bytes().len() <= 12 ==> r@ == name@,
        name.spec_bytes().len() > 12 ==> encode_utf8(r@) == name.spec_bytes().subrange(0, 10) + encode_utf8("..."@),
{
    if name.len() > 12 {
        let (head, _tail) = name.split_at(10);
        let mut label = head.to_owned();
        label.append("...");
        proof {
            lemma_encode_concat(head@, "..."@);
        }
        label
    } else {
        name.to_owned()
    }
}

} // verus!
