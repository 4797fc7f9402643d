//! The RIFF/WAV file format: finding the format and data chunks in the bytes
//! of a file (extended `fmt ` chunks and unknown chunks are skipped), and
//! decoding the integer sample encodings. Scaling samples to floating point
//! is left to the caller.

use vstd::prelude::*;

verus! {

// ---------------------------------------------------------------------------
// Model
// ---------------------------------------------------------------------------

/// What went wrong reading a WAV file.
#[derive(Debug, Clone, Copy, PartialEq, Eq, Structural)]
pub enum WavError {
    /// The file ends before the "RIFF" tag.
    ShortRiff,
    /// The file does not start with "RIFF".
    NotRiff,
    /// The file ends before the "WAVE" tag.
    ShortWave,
    /// The RIFF form is not "WAVE".
    NotWave,
    /// The file ends inside a `fmt ` chunk.
    ShortFmt,
    /// The file ends inside the data chunk.
    ShortData,
    /// No non-empty data chunk was found.
    NoData,
    /// The audio format code is not PCM (1), IEEE float (3) or extensible (65534).
    UnsupportedFormat(u16),
    /// No decoding is known for this bit depth.
    UnsupportedBits(u16),
}

/// The fields of a `fmt ` chunk that decoding needs (all zero until one is read).
#[derive(Debug, Clone, Copy, PartialEq, Eq, Structural)]
pub struct WavFormat {
    pub audio_format: u16,
    pub channels: u16,
    pub sample_rate: u32,
    pub bits_per_sample: u16,
}

/// How the samples of the data chunk are stored.
#[derive(Debug, Clone, Copy, PartialEq, Eq, Structural)]
pub enum SampleEncoding {
    /// 32-bit IEEE floats
    Float32,
    /// 16-bit signed integers
    Pcm16,
    /// 24-bit signed integers
    Pcm24,
    /// 32-bit signed integers
    Pcm32,
}

/// A WAV file's format and the raw bytes of its data chunk.
#[derive(Debug)]
pub struct WavData {
    pub format: WavFormat,
    pub encoding: SampleEncoding,
    pub data: Vec<u8>,
}

/// The little-endian 16-bit value at `i`.
pub open spec fn le16(b: Seq<u8>, i: int) -> u16 {
    (b[i] + 256 * b[i + 1]) as u16
}

/// The little-endian 32-bit value at `i`.
pub open spec fn le32(b: Seq<u8>, i: int) -> u32 {
    (b[i] + 256 * b[i + 1] + 65536 * b[i + 2] + 16777216 * b[i + 3]) as u32
}

/// The four bytes at `i` spell the tag `t`.
pub open spec fn tag_at(b: Seq<u8>, i: int, t: Seq<u8>) -> bool {
    b.subrange(i, i + 4) == t
}

pub open spec fn riff_tag() -> Seq<u8> {
    seq![0x52u8, 0x49, 0x46, 0x46]
}

pub open spec fn wave_tag() -> Seq<u8> {
    seq![0x57u8, 0x41, 0x56, 0x45]
}

pub open spec fn fmt_tag() -> Seq<u8> {
    seq![0x66u8, 0x6d, 0x74, 0x20]
}

pub open spec fn data_tag() -> Seq<u8> {
    seq![0x64u8, 0x61, 0x74, 0x61]
}

/// The format read from a `fmt ` chunk body starting at `i`.
pub open spec fn format_at(b: Seq<u8>, i: int) -> WavFormat {
    WavFormat {
        audio_format: le16(b, i),
        channels: le16(b, i + 2),
        sample_rate: le32(b, i + 4),
        bits_per_sample: le16(b, i + 14),
    }
}

pub open spec fn min_int(a: int, b: int) -> int {
    if a <= b {
        a
    } else {
        b
    }
}

/// Walk the chunks from `pos`, with `fmt` the format read so far: the last
/// format read before the data chunk, and the data chunk's bytes (empty when
/// the file ends before a data chunk). A `fmt ` chunk always has its first 16
/// bytes read, whatever size it claims; a chunk that claims to run past the
/// end of the file ends the walk.
pub open spec fn walk_chunks(b: Seq<u8>, pos: int, fmt: WavFormat) -> Result<(WavFormat, Seq<u8>), WavError>
    decreases b.len() - pos,
{
    if pos < 0 || pos + 8 > b.len() {
        Ok((fmt, Seq::empty()))
    } else {
        let size = le32(b, pos + 4) as int;
        let body = pos + 8;
        if tag_at(b, pos, fmt_tag()) {
            if body + 16 > b.len() {
                Err(WavError::ShortFmt)
            } else {
                let next = if size > 16 {
                    min_int(body + size, b.len() as int)
                } else {
                    body + 16
                };
                walk_chunks(b, next, format_at(b, body))
            }
        } else if tag_at(b, pos, data_tag()) {
            if body + size > b.len() {
                Err(WavError::ShortData)
            } else {
                Ok((fmt, b.subrange(body, body + size)))
            }
        } else {
            walk_chunks(b, min_int(body + size, b.len() as int), fmt)
        }
    }
}

/// The format before any `fmt ` chunk is read.
pub open spec fn no_format() -> WavFormat {
    WavFormat { audio_format: 0, channels: 0, sample_rate: 0, bits_per_sample: 0 }
}

/// The sample encoding for an audio format code and bit depth.
pub open spec fn encoding_for(audio_format: u16, bits: u16) -> Option<SampleEncoding> {
    if audio_format == 3 && bits == 32 {
        Some(SampleEncoding::Float32)
    } else if bits == 16 {
        Some(SampleEncoding::Pcm16)
    } else if bits == 24 {
        Some(SampleEncoding::Pcm24)
    } else if bits == 32 {
        Some(SampleEncoding::Pcm32)
    } else {
        None
    }
}

/// The format codes that are read at all.
pub open spec fn known_format(audio_format: u16) -> bool {
    audio_format == 1 || audio_format == 3 || audio_format == 65534
}

/// What reading the bytes of a WAV file gives: the format, the encoding and
/// the data bytes, or the first problem met.
pub open spec fn parse_wav_spec(b: Seq<u8>) -> Result<(WavFormat, SampleEncoding, Seq<u8>), WavError> {
    if b.len() < 4 {
        Err(WavError::ShortRiff)
    } else if !tag_at(b, 0, riff_tag()) {
        Err(WavError::NotRiff)
    } else if b.len() < 12 {
        Err(WavError::ShortWave)
    } else if !tag_at(b, 8, wave_tag()) {
        Err(WavError::NotWave)
    } else {
        match walk_chunks(b, 12, no_format()) {
            Err(e) => Err(e),
            Ok((f, data)) => if data.len() == 0 {
                Err(WavError::NoData)
            } else if !known_format(f.audio_format) {
                Err(WavError::UnsupportedFormat(f.audio_format))
            } else {
                match encoding_for(f.audio_format, f.bits_per_sample) {
                    Some(enc) => Ok((f, enc, data)),
                    None => Err(WavError::UnsupportedBits(f.bits_per_sample)),
                }
            },
        }
    }
}

/// A 16-bit two's complement value.
pub open spec fn signed16(u: int) -> int {
    if u >= 0x8000 {
        u - 0x10000
    } else {
        u
    }
}

/// A 24-bit two's complement value.
pub open spec fn signed24(u: int) -> int {
    if u >= 0x80_0000 {
        u - 0x100_0000
    } else {
        u
    }
}

/// A 32-bit two's complement value.
pub open spec fn signed32(u: int) -> int {
    if u >= 0x8000_0000 {
        u - 0x1_0000_0000
    } else {
        u
    }
}

/// The unsigned little-endian value of the three bytes at `i`.
pub open spec fn le24(b: Seq<u8>, i: int) -> int {
    b[i] + 256 * b[i + 1] + 65536 * b[i + 2]
}

// ---------------------------------------------------------------------------
// Parsing
// ---------------------------------------------------------------------------

fn read_u16(b: &Vec<u8>, i: usize) -> (r: u16)
    requires
        i + 2 <= b.len(),
    ensures
        r == le16(b@, i as int),
{
    b[i] as u16 + (b[i + 1] as u16) * 256
}

fn read_u32(b: &Vec<u8>, i: usize) -> (r: u32)
    requires
        i + 4 <= b.len(),
    ensures
        r == le32(b@, i as int),
{
    b[i] as u32 + (b[i + 1] as u32) * 256 + (b[i + 2] as u32) * 65536 + (b[i + 3] as u32) * 16777216
}

fn tag_is(b: &Vec<u8>, i: usize, t0: u8, t1: u8, t2: u8, t3: u8) -> (r: bool)
    requires
        i + 4 <= b.len(),
    ensures
        r == tag_at(b@, i as int, seq![t0, t1, t2, t3]),
{
    let r = b[i] == t0 && b[i + 1] == t1 && b[i + 2] == t2 && b[i + 3] == t3;
    assert(r ==> b@.subrange(i as int, i + 4) =~= seq![t0, t1, t2, t3]);
    assert(b@.subrange(i as int, i + 4) == seq![t0, t1, t2, t3] ==> {
        &&& b@.subrange(i as int, i + 4)[0] == t0
        &&& b@.subrange(i as int, i + 4)[1] == t1
        &&& b@.subrange(i as int, i + 4)[2] == t2
        &&& b@.subrange(i as int, i + 4)[3] == t3
    });
    r
}

fn copy_range(b: &Vec<u8>, start: usize, end: usize) -> (r: Vec<u8>)
    requires
        start <= end <= b.len(),
    ensures
        r@ == b@.subrange(start as int, end as int),
{
    let mut r: Vec<u8> = Vec::new();
    for i in start..end
        invariant
            start <= end <= b.len(),
            r@ == b@.subrange(start as int, i as int),
    {
        r.push(b[i]);
        assert(b@.subrange(start as int, i + 1) =~= b@.subrange(start as int, i as int).push(b@[i as int]));
    }
    r
}

/// The sample encoding for an audio format code and bit depth, if any.
pub fn sample_encoding(audio_format: u16, bits: u16) -> (r: Option<SampleEncoding>)
    ensures
        r == encoding_for(audio_format, bits),
{
    if audio_format == 3 && bits == 32 {
        Some(SampleEncoding::Float32)
    } else if bits == 16 {
        Some(SampleEncoding::Pcm16)
    } else if bits == 24 {
        Some(SampleEncoding::Pcm24)
    } else if bits == 32 {
        Some(SampleEncoding::Pcm32)
    } else {
        None
    }
}

/// Read the chunks of a RIFF/WAV file held in `b`: its format, sample
/// encoding and data bytes.
pub fn parse_wav(b: &Vec<u8>) -> (r: Result<WavData, WavError>)
    ensures
        match (r, parse_wav_spec(b@)) {
            (Ok(w), Ok((f, enc, data))) => w.format == f && w.encoding == enc && w.data@ == data,
            (Err(e), Err(e2)) => e == e2,
            _ => false,
        },
{
    if b.len() < 4 {
        return Err(WavError::ShortRiff);
    }
    if !tag_is(b, 0, 0x52, 0x49, 0x46, 0x46) {
        return Err(WavError::NotRiff);
    }
    if b.len() < 12 {
        return Err(WavError::ShortWave);
    }
    if !tag_is(b, 8, 0x57, 0x41, 0x56, 0x45) {
        return Err(WavError::NotWave);
    }
    let len = b.len();
    let mut pos: usize = 12;
    let mut fmt = WavFormat { audio_format: 0, channels: 0, sample_rate: 0, bits_per_sample: 0 };
    let mut data: Vec<u8> = Vec::new();
    loop
        invariant_except_break
            data@.len() == 0,
        invariant
            len == b@.len(),
            12 <= pos <= len,
            tag_at(b@, 0, riff_tag()),
            tag_at(b@, 8, wave_tag()),
            walk_chunks(b@, pos as int, fmt) == walk_chunks(b@, 12, no_format()),
        ensures
            walk_chunks(b@, 12, no_format()) == Ok::<(WavFormat, Seq<u8>), WavError>((fmt, data@)),
        decreases len - pos,
    {
        if len - pos < 8 {
            assert(data@ =~= Seq::<u8>::empty());
            break;
        }
        let size = read_u32(b, pos + 4);
        let body = pos + 8;
        if tag_is(b, pos, 0x66, 0x6d, 0x74, 0x20) {
            if len - body < 16 {
                return Err(WavError::ShortFmt);
            }
            let audio_format = read_u16(b, body);
            let channels = read_u16(b, body + 2);
            let sample_rate = read_u32(b, body + 4);
            let bits_per_sample = read_u16(b, body + 14);
            fmt = WavFormat { audio_format, channels, sample_rate, bits_per_sample };
            if size > 16 {
                pos = if (size as usize) <= len - body {
                    body + size as usize
                } else {
                    len
                };
            } else {
                pos = body + 16;
            }
        } else if tag_is(b, pos, 0x64, 0x61, 0x74, 0x61) {
            assert(!tag_at(b@, pos as int, fmt_tag()));
            assert(tag_at(b@, pos as int, data_tag()));
            if (size as usize) > len - body {
                assert(walk_chunks(b@, pos as int, fmt) == Err::<(WavFormat, Seq<u8>), WavError>(
                    WavError::ShortData,
                ));
                return Err(WavError::ShortData);
            }
            data = copy_range(b, body, body + size as usize);
            assert(walk_chunks(b@, pos as int, fmt) == Ok::<(WavFormat, Seq<u8>), WavError>((fmt, data@)));
            break;
        } else {
            pos = if (size as usize) <= len - body {
                body + size as usize
            } else {
                len
            };
        }
    }
    if data.len() == 0 {
        return Err(WavError::NoData);
    }
    if fmt.audio_format != 1 && fmt.audio_format != 3 && fmt.audio_format != 65534 {
        return Err(WavError::UnsupportedFormat(fmt.audio_format));
    }
    match sample_encoding(fmt.audio_format, fmt.bits_per_sample) {
        Some(encoding) => Ok(WavData { format: fmt, encoding, data }),
        None => Err(WavError::UnsupportedBits(fmt.bits_per_sample)),
    }
}

// ---------------------------------------------------------------------------
// Decoding
// ---------------------------------------------------------------------------

/// The 16-bit samples of `data`, two bytes each, little-endian; a trailing odd
/// byte is ignored.
pub fn decode_pcm16(data: &Vec<u8>) -> (r: Vec<i16>)
    ensures
        r@.len() == data@.len() / 2,
        forall|k: int| 0 <= k < r@.len() ==> #[trigger] r@[k] == signed16(data@[2 * k] + 256 * data@[2 * k + 1]),
{
    let len = data.len();
    let n = len / 2;
    let mut r: Vec<i16> = Vec::new();
    for k in 0..n
        invariant
            len == data@.len(),
            n == data@.len() / 2,
            r@.len() == k,
            forall|j: int| 0 <= j < k ==> #[trigger] r@[j] == signed16(data@[2 * j] + 256 * data@[2 * j + 1]),
    {
        assert(2 * k + 1 < data@.len()) by (nonlinear_arith)
            requires
                k < n,
                n == data@.len() / 2,
        ;
        let u: i32 = data[2 * k] as i32 + (data[2 * k + 1] as i32) * 256;
        let v: i16 = if u >= 0x8000 {
            (u - 0x10000) as i16
        } else {
            u as i16
        };
        r.push(v);
    }
    r
}

/// The 24-bit samples of `data`, three bytes each, little-endian, sign
/// extended; trailing bytes that make no whole sample are ignored.
pub fn decode_pcm24(data: &Vec<u8>) -> (r: Vec<i32>)
    ensures
        r@.len() == data@.len() / 3,
        forall|k: int| 0 <= k < r@.len() ==> #[trigger] r@[k] == signed24(le24(data@, 3 * k)),
{
    let len = data.len();
    let n = len / 3;
    let mut r: Vec<i32> = Vec::new();
    for k in 0..n
        invariant
            len == data@.len(),
            n == data@.len() / 3,
            r@.len() == k,
            forall|j: int| 0 <= j < k ==> #[trigger] r@[j] == signed24(le24(data@, 3 * j)),
    {
        assert(3 * k + 2 < data@.len()) by (nonlinear_arith)
            requires
                k < n,
                n == data@.len() / 3,
        ;
        let u: i32 = data[3 * k] as i32 + (data[3 * k + 1] as i32) * 256 + (data[3 * k + 2] as i32)
            * 65536;
        let v: i32 = if u >= 0x80_0000 {
            u - 0x100_0000
        } else {
            u
        };
        r.push(v);
    }
    r
}

/// The little-endian 32-bit words of `data`, four bytes each; trailing bytes
/// that make no whole word are ignored.
pub fn decode_words(data: &Vec<u8>) -> (r: Vec<u32>)
    ensures
        r@.len() == data@.len() / 4,
        forall|k: int| 0 <= k < r@.len() ==> #[trigger] r@[k] == le32(data@, 4 * k),
{
    let len = data.len();
    let n = len / 4;
    let mut r: Vec<u32> = Vec::new();
    for k in 0..n
        invariant
            len == data@.len(),
            n == data@.len() / 4,
            r@.len() == k,
            forall|j: int| 0 <= j < k ==> #[trigger] r@[j] == le32(data@, 4 * j),
    {
        assert(4 * k + 4 <= data@.len()) by (nonlinear_arith)
            requires
                k < n,
                n == data@.len() / 4,
        ;
        r.push(read_u32(data, 4 * k));
    }
    r
}

/// The 32-bit signed samples of `data`, four bytes each, little-endian;
/// trailing bytes that make no whole sample are ignored.
pub fn decode_pcm32(data: &Vec<u8>) -> (r: Vec<i32>)
    ensures
        r@.len() == data@.len() / 4,
        forall|k: int| 0 <= k < r@.len() ==> #[trigger] r@[k] == signed32(le32(data@, 4 * k) as int),
{
    let words = decode_words(data);
    let mut r: Vec<i32> = Vec::new();
    for k in 0..words.len()
        invariant
            words@.len() == data@.len() / 4,
            forall|j: int| 0 <= j < words@.len() ==> #[trigger] words@[j] == le32(data@, 4 * j),
            r@.len() == k,
            forall|j: int| 0 <= j < k ==> #[trigger] r@[j] == signed32(le32(data@, 4 * j) as int),
    {
        let u = words[k];
        let v: i32 = if u >= 0x8000_0000 {
            (u as i64 - 0x1_0000_0000i64) as i32
        } else {
            u as i32
        };
        r.push(v);
    }
    r
}

} // verus!
