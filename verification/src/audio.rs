//! The decisions of the audio input and output services: which devices are
//! listed and which one a request names, and how mono audio is spread over the
//! channels of an output device. Talking to the sound system is left to the
//! caller, who hands over what it found.

use vstd::arithmetic::div_mod::lemma_fundamental_div_mod_converse;
use vstd::prelude::*;

use crate::errors::AudioInputError;

verus! {

/// Audio input device info
#[derive(Debug, Clone)]
pub struct InputDevice {
    pub id: String,
    pub name: String,
    pub sample_rate: u32,
    pub channels: u16,
    pub is_default: bool,
}

/// The device that a request for an input device picks.
#[derive(Debug, Clone, Copy, PartialEq, Eq, Structural)]
pub enum DeviceChoice {
    /// The system's default input device.
    Default,
    /// The device at this position in the system's device list.
    Index(usize),
}

/// Whether `name` is the name of the default device.
pub open spec fn is_default_name(default_name: Option<String>, name: Seq<char>) -> bool {
    match default_name {
        Some(d) => d@ == name,
        None => false,
    }
}

/// The entry listed for a device found with the given name, sample rate and
/// channel count: its id is its name.
pub open spec fn lists_device(d: InputDevice, found: (String, u32, u16), default_name: Option<String>) -> bool {
    &&& d.id@ == found.0@
    &&& d.name@ == found.0@
    &&& d.sample_rate == found.1
    &&& d.channels == found.2
    &&& d.is_default == is_default_name(default_name, found.0@)
}

/// The position of the first device named `id` among devices whose names
/// could be read.
pub open spec fn first_named(names: Seq<Option<String>>, id: Seq<char>, i: int) -> bool {
    &&& 0 <= i < names.len()
    &&& (names[i] matches Some(n) && n@ == id)
    &&& forall|k: int| 0 <= k < i ==> !(#[trigger] names[k] matches Some(n) && n@ == id)
}

/// Audio input service
pub struct AudioInputService;

impl AudioInputService {
    /// The device list for the devices found (name, sample rate, channels),
    /// in the order found, marking the one named like the default device; an
    /// error when none was found.
    pub fn device_list(found: Vec<(String, u32, u16)>, default_name: Option<String>) -> (r: Result<
        Vec<InputDevice>,
        AudioInputError,
    >)
        ensures
            found@.len() == 0 <==> r matches Err(AudioInputError::NoDevices),
            found@.len() > 0 ==> (r matches Ok(list) && list@.len() == found@.len() && forall|i: int|
                0 <= i < found@.len() ==> lists_device(#[trigger] list@[i], found@[i], default_name)),
    {
        if found.len() == 0 {
            return Err(AudioInputError::NoDevices);
        }
        let mut list: Vec<InputDevice> = Vec::new();
        for i in 0..found.len()
            invariant
                list@.len() == i,
                forall|k: int| 0 <= k < i ==> lists_device(#[trigger] list@[k], found@[k], default_name),
        {
            let name = found[i].0.clone();
            let is_default = match &default_name {
                Some(d) => *d == name,
                None => false,
            };
            list.push(
                InputDevice {
                    id: name.clone(),
                    name,
                    sample_rate: found[i].1,
                    channels: found[i].2,
                    is_default,
                },
            );
        }
        Ok(list)
    }

    /// Which device a request names: "default" asks for the system default
    /// (an error when there is none); any other id names the first device
    /// of that name (devices whose names could not be read are `None`).
    pub fn choose_device(device_id: &str, names: &Vec<Option<String>>, has_default: bool) -> (r: Result<
        DeviceChoice,
        AudioInputError,
    >)
        ensures
            device_id@ == "default"@ ==> r == if has_default {
                Ok::<DeviceChoice, AudioInputError>(DeviceChoice::Default)
            } else {
                Err(AudioInputError::NoDevices)
            },
            device_id@ != "default"@ ==> match r {
                Ok(DeviceChoice::Index(i)) => first_named(names@, device_id@, i as int),
                Err(AudioInputError::DeviceNotFound(s)) => s@ == device_id@ && forall|k: int|
                    0 <= k < names@.len() ==> !(#[trigger] names@[k] matches Some(n) && n@ == device_id@),
                _ => false,
            },
    {
        let id = device_id.to_owned();
        let default_id = "default".to_owned();
        if id == default_id {
            if has_default {
                return Ok(DeviceChoice::Default);
            } else {
                return Err(AudioInputError::NoDevices);
            }
        }
        for i in 0..names.len()
            invariant
                id@ == device_id@,
                device_id@ != "default"@,
                forall|k: int| 0 <= k < i ==> !(#[trigger] names@[k] matches Some(n) && n@ == device_id@),
        {
            match &names[i] {
                Some(n) => {
                    if *n == id {
                        return Ok(DeviceChoice::Index(i));
                    }
                },
                None => {},
            }
        }
        Err(AudioInputError::DeviceNotFound(id))
    }
}

/// Audio output service
pub struct AudioOutputService;

impl AudioOutputService {
    /// Mono samples repeated on each of `channels` output channels,
    /// interleaved: frame `i` holds `channels` copies of sample `i`.
    pub fn spread_to_channels<T: Copy>(samples: &Vec<T>, channels: usize) -> (r: Vec<T>)
        requires
            samples@.len() * channels <= usize::MAX,
        ensures
            r@.len() == samples@.len() * channels,
            forall|k: int| 0 <= k < r@.len() ==> #[trigger] r@[k] == samples@[k / channels as int],
    {
        let mut r: Vec<T> = Vec::new();
        if channels == 0 {
            assert(samples@.len() * channels == 0);
            return r;
        }
        assert(0 * channels == 0);
        for i in 0..samples.len()
            invariant
                channels > 0,
                samples@.len() * channels <= usize::MAX,
                r@.len() == i * channels,
                forall|k: int| 0 <= k < r@.len() ==> #[trigger] r@[k] == samples@[k / channels as int],
        {
            let s = samples[i];
            assert((i + 1) * channels <= samples@.len() * channels) by (nonlinear_arith)
                requires
                    i < samples@.len(),
            ;
            let mut j: usize = 0;
            while j < channels
                invariant
                    channels > 0,
                    i < samples@.len(),
                    (i + 1) * channels <= usize::MAX,
                    s == samples@[i as int],
                    j <= channels,
                    r@.len() == i * channels + j,
                    forall|k: int| 0 <= k < r@.len() ==> #[trigger] r@[k] == samples@[k / channels as int],
                decreases channels - j,
            {
                assert(i * channels + j < (i + 1) * channels) by (nonlinear_arith)
                    requires
                        j < channels,
                ;
                proof {
                    lemma_fundamental_div_mod_converse(
                        i * channels + j,
                        channels as int,
                        i as int,
                        j as int,
                    );
                }
                r.push(s);
                j = j + 1;
            }
            assert((i + 1) * channels == i * channels + channels) by (nonlinear_arith);
        }
        r
    }
}

} // verus!
