//! Domain logic of the hallucinator DAW: patterns, clips, songs, MIDI effects
//! and algorithmic composition helpers, with their contracts.

pub mod audio;
pub mod chords;
pub mod clip;
pub mod drums;
pub mod errors;
pub mod euclid;
pub mod keyboard;
pub mod library;
pub mod meter;
pub mod midi_fx;
pub mod monitor;
pub mod panels;
pub mod pattern;
pub mod scales;
pub mod sequencer;
pub mod song;
pub mod track;
pub mod transport;
pub mod wav;

pub use chords::{ChordGenerator, ChordQuality, Voicing};
pub use clip::{ClipId, MidiClip, MidiNote};
pub use euclid::euclidean_rhythm;
pub use scales::{quantize_to_scale, scale_notes, ScaleMode};
pub use pattern::{PatternBank, PatternSlot};
pub use song::{PlaybackMode, SongArrangement, SongSection};
pub use midi_fx::{ArpMode, MidiEvent};
pub use sequencer::{DrumLayer, DrumStep, RepeatRate, SequencerRow};
pub use drums::DrumKind;
pub use errors::{AudioInputError, AudioOutputError, HallucinatorError, MonitorError, Vst3Error, Vst3GuiError};
pub use track::{TrackId, TrackKind};
pub use transport::TransportState;
pub use meter::MeterState;
pub use audio::{AudioInputService, AudioOutputService, InputDevice};
