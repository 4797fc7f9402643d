//! Input metering state shared between the audio thread and the UI.

use std::sync::atomic::{AtomicBool, AtomicU32, Ordering};
use vstd::prelude::*;

verus! {

/// Shared metering state (lock-free reads from UI). The peak and RMS levels are
/// kept as the bit patterns of 32-bit floats.
pub struct MeterState {
    peak_raw: AtomicU32,
    rms_raw: AtomicU32,
    clipped: AtomicBool,
}

impl MeterState {
    /// Silence: zero peak and RMS, not clipped.
    pub fn new() -> Self {
        MeterState {
            peak_raw: AtomicU32::new(0),
            rms_raw: AtomicU32::new(0),
            clipped: AtomicBool::new(false),
        }
    }

    /// The bit pattern of the last peak level stored.
    pub fn peak_bits(&self) -> u32 {
        self.peak_raw.load(Ordering::Relaxed)
    }

    /// The bit pattern of the last RMS level stored.
    pub fn rms_bits(&self) -> u32 {
        self.rms_raw.load(Ordering::Relaxed)
    }

    /// Whether the input has clipped since the flag was last cleared.
    pub fn is_clipped(&self) -> bool {
        self.clipped.load(Ordering::Relaxed)
    }

    /// Clear the clip flag.
    pub fn clear_clip(&self) {
        self.clipped.store(false, Ordering::Relaxed);
    }

    /// Store the bit pattern of a new peak level.
    pub fn set_peak_bits(&self, bits: u32) {
        self.peak_raw.store(bits, Ordering::Relaxed);
    }

    /// Store the bit pattern of a new RMS level.
    pub fn set_rms_bits(&self, bits: u32) {
        self.rms_raw.store(bits, Ordering::Relaxed);
    }

    /// Raise the clip flag.
    pub fn set_clipped(&self) {
        self.clipped.store(true, Ordering::Relaxed);
    }
}

impl Default for MeterState {
    fn default() -> Self {
        Self::new()
    }
}

} // verus!
