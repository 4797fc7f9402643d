use hallucinator_core::wav::{
    decode_pcm16, decode_pcm24, decode_pcm32, decode_words, parse_wav, sample_encoding, SampleEncoding,
    WavError,
};

fn le16(v: u16) -> Vec<u8> {
    v.to_le_bytes().to_vec()
}

fn le32(v: u32) -> Vec<u8> {
    v.to_le_bytes().to_vec()
}

fn chunk(id: &[u8; 4], body: &[u8]) -> Vec<u8> {
    let mut c = id.to_vec();
    c.extend(le32(body.len() as u32));
    c.extend_from_slice(body);
    c
}

fn fmt_body(format: u16, channels: u16, rate: u32, bits: u16) -> Vec<u8> {
    let mut b = Vec::new();
    b.extend(le16(format));
    b.extend(le16(channels));
    b.extend(le32(rate));
    b.extend(le32(rate * channels as u32 * bits as u32 / 8));
    b.extend(le16(channels * bits / 8));
    b.extend(le16(bits));
    b
}

fn riff(chunks: &[Vec<u8>]) -> Vec<u8> {
    let body: Vec<u8> = chunks.concat();
    let mut f = b"RIFF".to_vec();
    f.extend(le32(4 + body.len() as u32));
    f.extend_from_slice(b"WAVE");
    f.extend(body);
    f
}

#[test]
fn reads_a_plain_pcm16_file() {
    let data = vec![0x00, 0x80, 0xff, 0x7f, 0x01, 0x00, 0x00, 0x00];
    let file = riff(&[chunk(b"fmt ", &fmt_body(1, 2, 44100, 16)), chunk(b"data", &data)]);
    let wav = parse_wav(&file).unwrap();
    assert_eq!(wav.format.audio_format, 1);
    assert_eq!(wav.format.channels, 2);
    assert_eq!(wav.format.sample_rate, 44100);
    assert_eq!(wav.format.bits_per_sample, 16);
    assert_eq!(wav.encoding, SampleEncoding::Pcm16);
    assert_eq!(wav.data, data);
    assert_eq!(decode_pcm16(&wav.data), vec![-32768, 32767, 1, 0]);
}

#[test]
fn skips_extended_fmt_and_unknown_chunks() {
    let mut fmt = fmt_body(65534, 1, 48000, 24);
    fmt.extend([0xaa, 0xbb]);
    let data = vec![0xff, 0xff, 0xff, 0x00, 0x00, 0x80];
    let file = riff(&[chunk(b"fmt ", &fmt), chunk(b"LIST", b"INFOabcd"), chunk(b"data", &data)]);
    let wav = parse_wav(&file).unwrap();
    assert_eq!(wav.format.sample_rate, 48000);
    assert_eq!(wav.encoding, SampleEncoding::Pcm24);
    assert_eq!(decode_pcm24(&wav.data), vec![-1, -8388608]);
}

#[test]
fn float_files_keep_their_bit_patterns() {
    let data: Vec<u8> = [1.0f32, -0.5].iter().flat_map(|x| x.to_le_bytes()).collect();
    let file = riff(&[chunk(b"fmt ", &fmt_body(3, 1, 44100, 32)), chunk(b"data", &data)]);
    let wav = parse_wav(&file).unwrap();
    assert_eq!(wav.encoding, SampleEncoding::Float32);
    assert_eq!(decode_words(&wav.data), vec![1.0f32.to_bits(), (-0.5f32).to_bits()]);
}

#[test]
fn header_errors() {
    assert_eq!(parse_wav(&b"RIF".to_vec()).unwrap_err(), WavError::ShortRiff);
    assert_eq!(parse_wav(&b"RIFX\0\0\0\0WAVE".to_vec()).unwrap_err(), WavError::NotRiff);
    assert_eq!(parse_wav(&b"RIFF\0\0\0\0WAV".to_vec()).unwrap_err(), WavError::ShortWave);
    assert_eq!(parse_wav(&b"RIFF\0\0\0\0AVI ".to_vec()).unwrap_err(), WavError::NotWave);
}

#[test]
fn chunk_errors() {
    // the file ends inside the fmt chunk
    let mut short_fmt = riff(&[]);
    short_fmt.extend(b"fmt ");
    short_fmt.extend(le32(16));
    short_fmt.extend([1, 0, 1, 0]);
    assert_eq!(parse_wav(&short_fmt).unwrap_err(), WavError::ShortFmt);

    // the data chunk claims more bytes than the file holds
    let mut short_data = riff(&[chunk(b"fmt ", &fmt_body(1, 1, 8000, 16))]);
    short_data.extend(b"data");
    short_data.extend(le32(10));
    short_data.extend([0, 0]);
    assert_eq!(parse_wav(&short_data).unwrap_err(), WavError::ShortData);

    // no data chunk at all, or an empty one
    let no_data = riff(&[chunk(b"fmt ", &fmt_body(1, 1, 8000, 16))]);
    assert_eq!(parse_wav(&no_data).unwrap_err(), WavError::NoData);
    let empty = riff(&[chunk(b"fmt ", &fmt_body(1, 1, 8000, 16)), chunk(b"data", &[])]);
    assert_eq!(parse_wav(&empty).unwrap_err(), WavError::NoData);
}

#[test]
fn format_errors() {
    let adpcm = riff(&[chunk(b"fmt ", &fmt_body(2, 1, 8000, 4)), chunk(b"data", &[1, 2])]);
    assert_eq!(parse_wav(&adpcm).unwrap_err(), WavError::UnsupportedFormat(2));
    // data before any fmt chunk: format code 0
    let no_fmt = riff(&[chunk(b"data", &[1, 2])]);
    assert_eq!(parse_wav(&no_fmt).unwrap_err(), WavError::UnsupportedFormat(0));
    let pcm8 = riff(&[chunk(b"fmt ", &fmt_body(1, 1, 8000, 8)), chunk(b"data", &[1, 2])]);
    assert_eq!(parse_wav(&pcm8).unwrap_err(), WavError::UnsupportedBits(8));
}

#[test]
fn encodings_by_format_and_depth() {
    assert_eq!(sample_encoding(3, 32), Some(SampleEncoding::Float32));
    assert_eq!(sample_encoding(1, 32), Some(SampleEncoding::Pcm32));
    assert_eq!(sample_encoding(3, 16), Some(SampleEncoding::Pcm16));
    assert_eq!(sample_encoding(65534, 24), Some(SampleEncoding::Pcm24));
    assert_eq!(sample_encoding(1, 12), None);
}

#[test]
fn integer_decoding() {
    assert_eq!(decode_pcm16(&vec![0x34, 0x12, 0x99]), vec![0x1234]);
    assert_eq!(decode_pcm24(&vec![0x01, 0x02, 0x03, 0x04]), vec![0x030201]);
    assert_eq!(decode_pcm32(&vec![0xff, 0xff, 0xff, 0xff, 0x00, 0x00, 0x00, 0x80]), vec![-1, i32::MIN]);
    assert_eq!(decode_words(&vec![0x78, 0x56, 0x34, 0x12, 0x01]), vec![0x12345678]);
}
