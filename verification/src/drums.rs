//! Drum sounds of the 808 kit, their MIDI notes, and the voice-allocation rule
//! that the built-in instruments share.

use vstd::prelude::*;

verus! {

/// MIDI note mappings for drum sounds (GM drum map compatible)
pub const KICK: u8 = 36;

pub const RIM_SHOT: u8 = 37;

pub const SNARE: u8 = 38;

pub const CLAP: u8 = 39;

pub const CLOSED_HAT: u8 = 42;

pub const LOW_TOM: u8 = 43;

pub const MID_TOM: u8 = 45;

pub const OPEN_HAT: u8 = 46;

pub const HIGH_TOM: u8 = 47;

pub const CRASH: u8 = 49;

pub const COWBELL: u8 = 56;

pub const HI_CONGA: u8 = 62;

pub const MID_CONGA: u8 = 63;

pub const LOW_CONGA: u8 = 64;

pub const MARACAS: u8 = 70;

pub const CLAVES: u8 = 75;

/// Drum sound types
#[derive(Debug, Clone, Copy, PartialEq, Eq, Structural)]
pub enum DrumKind {
    Kick,
    RimShot,
    Snare,
    Clap,
    ClosedHat,
    OpenHat,
    LowTom,
    MidTom,
    HighTom,
    Crash,
    Cowbell,
    HiConga,
    MidConga,
    LowConga,
    Maracas,
    Claves,
}

/// The MIDI note that plays each drum.
pub open spec fn drum_pitch(k: DrumKind) -> u8 {
    match k {
        DrumKind::Kick => KICK,
        DrumKind::RimShot => RIM_SHOT,
        DrumKind::Snare => SNARE,
        DrumKind::Clap => CLAP,
        DrumKind::ClosedHat => CLOSED_HAT,
        DrumKind::OpenHat => OPEN_HAT,
        DrumKind::LowTom => LOW_TOM,
        DrumKind::MidTom => MID_TOM,
        DrumKind::HighTom => HIGH_TOM,
        DrumKind::Crash => CRASH,
        DrumKind::Cowbell => COWBELL,
        DrumKind::HiConga => HI_CONGA,
        DrumKind::MidConga => MID_CONGA,
        DrumKind::LowConga => LOW_CONGA,
        DrumKind::Maracas => MARACAS,
        DrumKind::Claves => CLAVES,
    }
}

/// Every drum has its own note: telling the drum from the note is exact.
pub proof fn lemma_drum_pitch_injective(a: DrumKind, b: DrumKind)
    ensures
        drum_pitch(a) == drum_pitch(b) ==> a == b,
{
}

impl DrumKind {
    /// The drum that a MIDI note plays, if any.
    pub fn from_pitch(pitch: u8) -> (r: Option<Self>)
        ensures
            r matches Some(k) ==> drum_pitch(k) == pitch,
            r is None ==> forall|k: DrumKind| drum_pitch(k) != pitch,
    {
        match pitch {
            KICK => Some(DrumKind::Kick),
            RIM_SHOT => Some(DrumKind::RimShot),
            SNARE => Some(DrumKind::Snare),
            CLAP => Some(DrumKind::Clap),
            CLOSED_HAT => Some(DrumKind::ClosedHat),
            OPEN_HAT => Some(DrumKind::OpenHat),
            LOW_TOM => Some(DrumKind::LowTom),
            MID_TOM => Some(DrumKind::MidTom),
            HIGH_TOM => Some(DrumKind::HighTom),
            CRASH => Some(DrumKind::Crash),
            COWBELL => Some(DrumKind::Cowbell),
            HI_CONGA => Some(DrumKind::HiConga),
            MID_CONGA => Some(DrumKind::MidConga),
            LOW_CONGA => Some(DrumKind::LowConga),
            MARACAS => Some(DrumKind::Maracas),
            CLAVES => Some(DrumKind::Claves),
            _ => None,
        }
    }

    /// Whether this drum is one of the two hi-hats, which choke each other.
    pub fn is_hat(self) -> (r: bool)
        ensures
            r == (self == DrumKind::ClosedHat || self == DrumKind::OpenHat),
    {
        match self {
            DrumKind::ClosedHat | DrumKind::OpenHat => true,
            _ => false,
        }
    }
}

// ---------------------------------------------------------------------------
// Voice allocation
// ---------------------------------------------------------------------------

/// What voice allocation reads of a voice: whether it sounds, what it plays
/// (a drum, a pitch or a sample slot, as a number), and how long it has played.
#[derive(Debug, Clone, Copy)]
pub struct VoiceSlot {
    pub active: bool,
    pub key: usize,
    pub age: usize,
}

/// The first index at or after `i` of a voice that sounds `key`.
pub open spec fn first_playing(v: Seq<VoiceSlot>, key: usize, i: int) -> Option<int>
    decreases v.len() - i,
{
    if i < 0 || i >= v.len() {
        None
    } else if v[i].active && v[i].key == key {
        Some(i)
    } else {
        first_playing(v, key, i + 1)
    }
}

/// The first index at or after `i` of a silent voice.
pub open spec fn first_silent(v: Seq<VoiceSlot>, i: int) -> Option<int>
    decreases v.len() - i,
{
    if i < 0 || i >= v.len() {
        None
    } else if !v[i].active {
        Some(i)
    } else {
        first_silent(v, i + 1)
    }
}

/// The index of the oldest of the first `n` voices, the last one on a tie
/// (0 when there are none).
pub open spec fn oldest(v: Seq<VoiceSlot>, n: int) -> int
    decreases n,
{
    if n <= 1 {
        0
    } else {
        let prev = oldest(v, n - 1);
        if v[n - 1].age >= v[prev].age {
            n - 1
        } else {
            prev
        }
    }
}

/// The voice a new note goes to: the voice already playing the same key
/// (retrigger), else the first silent voice, else the oldest voice.
pub open spec fn voice_for(v: Seq<VoiceSlot>, key: usize) -> int {
    match first_playing(v, key, 0) {
        Some(i) => i,
        None => match first_silent(v, 0) {
            Some(i) => i,
            None => oldest(v, v.len() as int),
        },
    }
}

proof fn lemma_oldest_bounds(v: Seq<VoiceSlot>, n: int)
    requires
        1 <= n <= v.len(),
    ensures
        0 <= oldest(v, n) < n,
        forall|k: int| 0 <= k < n ==> #[trigger] v[k].age <= v[oldest(v, n)].age,
    decreases n,
{
    if n > 1 {
        lemma_oldest_bounds(v, n - 1);
    }
}

/// The voice chosen for a note is a real voice (when there is one), and if no
/// voice plays the key and none is silent, no voice is older than it.
pub proof fn lemma_voice_for(v: Seq<VoiceSlot>, key: usize)
    requires
        v.len() > 0,
    ensures
        0 <= voice_for(v, key) < v.len(),
        first_playing(v, key, 0) is None && first_silent(v, 0) is None ==> forall|k: int|
            0 <= k < v.len() ==> #[trigger] v[k].age <= v[voice_for(v, key)].age,
{
    lemma_first_playing_bounds(v, key, 0);
    lemma_first_silent_bounds(v, 0);
    lemma_oldest_bounds(v, v.len() as int);
}

proof fn lemma_first_playing_bounds(v: Seq<VoiceSlot>, key: usize, i: int)
    ensures
        first_playing(v, key, i) matches Some(j) ==> i <= j < v.len() && v[j].active && v[j].key
            == key,
    decreases v.len() - i,
{
    if 0 <= i < v.len() && !(v[i].active && v[i].key == key) {
        lemma_first_playing_bounds(v, key, i + 1);
    }
}

proof fn lemma_first_silent_bounds(v: Seq<VoiceSlot>, i: int)
    ensures
        first_silent(v, i) matches Some(j) ==> i <= j < v.len() && !v[j].active,
    decreases v.len() - i,
{
    if 0 <= i < v.len() && v[i].active {
        lemma_first_silent_bounds(v, i + 1);
    }
}

/// The voice a new note with key `key` goes to (voice stealing: same key first,
/// then a silent voice, then the oldest).
pub fn steal_voice(voices: &Vec<VoiceSlot>, key: usize) -> (r: usize)
    ensures
        r == voice_for(voices@, key),
{
    let mut i: usize = 0;
    while i < voices.len()
        invariant
            i <= voices.len(),
            first_playing(voices@, key, 0) == first_playing(voices@, key, i as int),
        decreases voices.len() - i,
    {
        if voices[i].active && voices[i].key == key {
            return i;
        }
        i = i + 1;
    }
    let mut j: usize = 0;
    while j < voices.len()
        invariant
            j <= voices.len(),
            first_playing(voices@, key, 0) is None,
            first_silent(voices@, 0) == first_silent(voices@, j as int),
        decreases voices.len() - j,
    {
        if !voices[j].active {
            return j;
        }
        j = j + 1;
    }
    let mut best: usize = 0;
    let mut k: usize = 1;
    while k < voices.len()
        invariant
            1 <= k,
            k <= voices.len() || voices.len() == 0,
            first_playing(voices@, key, 0) is None,
            first_silent(voices@, 0) is None,
            voices.len() > 0 ==> best == oldest(voices@, k as int),
            voices.len() == 0 ==> best == 0,
            best < k,
        decreases voices.len() - k,
    {
        if voices[k].age >= voices[best].age {
            best = k;
        }
        k = k + 1;
    }
    best
}

/// A voice of the drum machine (keyed by its drum's note) after a hi-hat hit:
/// a sounding hi-hat falls silent.
pub open spec fn choke_hat(v: VoiceSlot) -> VoiceSlot {
    if v.active && (v.key == CLOSED_HAT as usize || v.key == OPEN_HAT as usize) {
        VoiceSlot { active: false, ..v }
    } else {
        v
    }
}

/// The voices of the drum machine just before a hit on `pitch` is placed: a
/// hi-hat hit silences both hi-hats (open and closed choke each other).
pub open spec fn before_hit(v: Seq<VoiceSlot>, pitch: u8) -> Seq<VoiceSlot> {
    if pitch == CLOSED_HAT || pitch == OPEN_HAT {
        v.map_values(|x: VoiceSlot| choke_hat(x))
    } else {
        v
    }
}

/// Place a drum hit on `pitch` among the drum machine's voices, each keyed by
/// the note of the drum it plays: a note that is no drum is ignored; a hi-hat
/// first silences the sounding hi-hats; the hit then goes to the voice picked
/// by the usual stealing order.
pub fn drum_hit_voice(voices: &mut Vec<VoiceSlot>, pitch: u8) -> (r: Option<usize>)
    ensures
        (forall|k: DrumKind| drum_pitch(k) != pitch) ==> r is None && final(voices)@ == old(voices)@,
        (exists|k: DrumKind| drum_pitch(k) == pitch) ==> final(voices)@ == before_hit(old(voices)@, pitch)
            && r == Some(voice_for(before_hit(old(voices)@, pitch), pitch as usize) as usize),
{
    let kind = match DrumKind::from_pitch(pitch) {
        Some(k) => k,
        None => {
            return None;
        },
    };
    if kind.is_hat() {
        let ghost old_v = voices@;
        let n = voices.len();
        for i in 0..n
            invariant
                n == old_v.len(),
                voices@.len() == old_v.len(),
                forall|k: int| 0 <= k < i ==> voices@[k] == choke_hat(old_v[k]),
                forall|k: int| i <= k < voices@.len() ==> voices@[k] == old_v[k],
        {
            let v = voices[i];
            if v.active && (v.key == CLOSED_HAT as usize || v.key == OPEN_HAT as usize) {
                voices.set(i, VoiceSlot { active: false, ..v });
            }
        }
        assert(voices@ =~= old_v.map_values(|x: VoiceSlot| choke_hat(x)));
    }
    Some(steal_voice(voices, pitch as usize))
}

/// The sample slot that a MIDI note plays in a sample kit: the note counted
/// from C1 (36), wrapping below it, modulo the number of slots.
pub open spec fn kit_slot_spec(pitch: u8, slots: usize) -> int {
    (if pitch >= 36 {
        pitch - 36
    } else {
        pitch + 256 - 36
    }) % (slots as int)
}

/// The sample slot that a MIDI note plays in a kit with `slots` slots.
pub fn kit_slot_for_pitch(pitch: u8, slots: usize) -> (r: usize)
    requires
        slots > 0,
    ensures
        r == kit_slot_spec(pitch, slots),
        r < slots,
{
    (pitch.wrapping_sub(36) as usize) % slots
}

/// The slots of a sample kit that a sequencer step plays, from its first `n`
/// layers: layer `l` plays slot `12 * step + l` when its bit is set in
/// `active_layers` and the kit has a sample loaded in that slot.
pub open spec fn step_slots(step: usize, active_layers: u16, loaded: Seq<bool>, n: int) -> Seq<usize>
    decreases n,
{
    if n <= 0 {
        Seq::empty()
    } else {
        let prev = step_slots(step, active_layers, loaded, n - 1);
        let slot = step * 12 + (n - 1);
        if active_layers & (1u16 << ((n - 1) as u16)) != 0 && slot < loaded.len() && loaded[slot] {
            prev.push(slot as usize)
        } else {
            prev
        }
    }
}

/// The slots a sequencer step triggers in a sample kit (`loaded[i]` tells
/// whether slot `i` holds a sample), in layer order.
pub fn kit_step_slots(step: usize, active_layers: u16, loaded: &Vec<bool>) -> (r: Vec<usize>)
    requires
        step * 12 <= usize::MAX,
        forall|l: u16| l < 12 && #[trigger] (active_layers & (1u16 << l)) != 0 ==> step * 12 + l <= usize::MAX,
    ensures
        r@ == step_slots(step, active_layers, loaded@, 12),
{
    let base = step * 12;
    let mut r: Vec<usize> = Vec::new();
    for layer in 0..12u16
        invariant
            base == step * 12,
            forall|l: u16| l < 12 && #[trigger] (active_layers & (1u16 << l)) != 0 ==> step * 12 + l <= usize::MAX,
            r@ == step_slots(step, active_layers, loaded@, layer as int),
    {
        if active_layers & (1 << layer) != 0 {
            let slot = base + layer as usize;
            if slot < loaded.len() && loaded[slot] {
                r.push(slot);
            }
        }
    }
    r
}

} // verus!
