//! Error types of the engine, the audio services and the plugin GUI host, and
//! the plugin GUI host's mapping from status codes to errors.

use vstd::prelude::*;
use vstd::std_specs::convert::FromSpecImpl;

verus! {

#[verifier::external_type_specification]
#[verifier::external_body]
pub struct ExIoError(std::io::Error);

#[verifier::external_type_specification]
#[verifier::external_body]
pub struct ExPathBuf(std::path::PathBuf);

/// Errors of the engine
#[derive(Debug)]
pub enum HallucinatorError {
    Audio(String),
    Io(std::io::Error),
    TrackNotFound(u64),
    ClipNotFound(u64),
}

impl From<std::io::Error> for HallucinatorError {
    fn from(e: std::io::Error) -> (r: Self) {
        HallucinatorError::Io(e)
    }
}

impl FromSpecImpl<std::io::Error> for HallucinatorError {
    open spec fn obeys_from_spec() -> bool {
        true
    }

    open spec fn from_spec(v: std::io::Error) -> Self {
        HallucinatorError::Io(v)
    }
}

/// VST3 plugin errors
#[derive(Debug)]
pub enum Vst3Error {
    NotFound(std::path::PathBuf),
    LoadError(String),
    ProcessError(String),
    NoPluginsFound,
    Io(std::io::Error),
}

impl From<std::io::Error> for Vst3Error {
    fn from(e: std::io::Error) -> (r: Self) {
        Vst3Error::Io(e)
    }
}

impl FromSpecImpl<std::io::Error> for Vst3Error {
    open spec fn obeys_from_spec() -> bool {
        true
    }

    open spec fn from_spec(v: std::io::Error) -> Self {
        Vst3Error::Io(v)
    }
}

/// Audio input errors
#[derive(Debug)]
pub enum AudioInputError {
    NoDevices,
    DeviceNotFound(String),
    ConfigError(String),
    StreamError(String),
}

/// Audio output errors
#[derive(Debug)]
pub enum AudioOutputError {
    NoDevices,
    ConfigError(String),
    StreamError(String),
    PlaybackError(String),
}

/// Input monitor errors
#[derive(Debug)]
pub enum MonitorError {
    Input(AudioInputError),
    Output(AudioOutputError),
    AlreadyRunning,
    NotRunning,
    NotRecording,
}

impl From<AudioInputError> for MonitorError {
    fn from(e: AudioInputError) -> (r: Self) {
        MonitorError::Input(e)
    }
}

impl FromSpecImpl<AudioInputError> for MonitorError {
    open spec fn obeys_from_spec() -> bool {
        true
    }

    open spec fn from_spec(v: AudioInputError) -> Self {
        MonitorError::Input(v)
    }
}

impl From<AudioOutputError> for MonitorError {
    fn from(e: AudioOutputError) -> (r: Self) {
        MonitorError::Output(e)
    }
}

impl FromSpecImpl<AudioOutputError> for MonitorError {
    open spec fn obeys_from_spec() -> bool {
        true
    }

    open spec fn from_spec(v: AudioOutputError) -> Self {
        MonitorError::Output(v)
    }
}

/// Errors of the native plugin GUI host
#[derive(Debug, Clone, Copy, PartialEq, Eq, Structural)]
pub enum Vst3GuiError {
    LoadFailed,
    NoView,
    AttachFailed,
    InvalidParam,
    Unknown(i32),
}

/// The error that a non-zero status code of the GUI host stands for.
pub open spec fn gui_error_for(code: i32) -> Vst3GuiError {
    if code == -1 {
        Vst3GuiError::LoadFailed
    } else if code == -2 {
        Vst3GuiError::NoView
    } else if code == -3 {
        Vst3GuiError::AttachFailed
    } else if code == -4 {
        Vst3GuiError::InvalidParam
    } else {
        Vst3GuiError::Unknown(code)
    }
}

impl From<i32> for Vst3GuiError {
    fn from(code: i32) -> (r: Self) {
        match code {
            -1 => Vst3GuiError::LoadFailed,
            -2 => Vst3GuiError::NoView,
            -3 => Vst3GuiError::AttachFailed,
            -4 => Vst3GuiError::InvalidParam,
            other => Vst3GuiError::Unknown(other),
        }
    }
}

impl FromSpecImpl<i32> for Vst3GuiError {
    open spec fn obeys_from_spec() -> bool {
        true
    }

    open spec fn from_spec(v: i32) -> Self {
        gui_error_for(v)
    }
}

/// Convert a status code of the GUI host to a result: 0 is success, anything
/// else the error it stands for.
pub fn check_result(result: i32) -> (r: Result<(), Vst3GuiError>)
    ensures
        result == 0 ==> r is Ok,
        result != 0 ==> r == Err::<(), Vst3GuiError>(gui_error_for(result)),
{
    if result == 0 {
        Ok(())
    } else {
        Err(Vst3GuiError::from(result))
    }
}

} // verus!
