use waveform::FormatError;
use waveform::cli::parse_args;
use waveform::decode::{check_wav_file_format, decode, parse, WaveData, WaveFmtChunk, WaveForm};
use waveform::spectral::{bit_reversal_permutation, is_power_of_two};

/// Builds a canonical PCM buffer: 44-byte header followed by `data`.
fn make_wav(bits: u16, data: &[u8]) -> Vec<u8> {
    let mut v: Vec<u8> = Vec::new();
    v.extend_from_slice(b"RIFF");
    let chunk_size: u32 = 36 + data.len() as u32;
    v.extend_from_slice(&chunk_size.to_le_bytes());
    v.extend_from_slice(b"WAVE");
    v.extend_from_slice(b"fmt ");
    v.extend_from_slice(&16u32.to_le_bytes());
    v.extend_from_slice(&1u16.to_le_bytes());
    v.extend_from_slice(&1u16.to_le_bytes());
    v.extend_from_slice(&8000u32.to_le_bytes());
    let byte_rate: u32 = 8000 * (bits as u32 / 8);
    v.extend_from_slice(&byte_rate.to_le_bytes());
    v.extend_from_slice(&(bits / 8).to_le_bytes());
    v.extend_from_slice(&bits.to_le_bytes());
    v.extend_from_slice(b"data");
    v.extend_from_slice(&(data.len() as u32).to_le_bytes());
    v.extend_from_slice(data);
    v
}

#[test]
fn parse_well_formed_8bit() {
    let bytes = make_wav(8, &[10, 20, 30, 40]);
    let w = parse(&bytes).expect("well-formed buffer must parse");
    assert_eq!(w.riff, *b"RIFF");
    assert_eq!(w.chunk_size, 40);
    assert_eq!(w.fmt, *b"WAVE");
    assert_eq!(w.fmt_ck.id, *b"fmt ");
    assert_eq!(w.fmt_ck.size, 16);
    assert_eq!(w.fmt_ck.audio_fmt, 1);
    assert_eq!(w.fmt_ck.num_channels, 1);
    assert_eq!(w.fmt_ck.sample_rate, 8000);
    assert_eq!(w.fmt_ck.byte_rate, 8000);
    assert_eq!(w.fmt_ck.blk_align, 1);
    assert_eq!(w.fmt_ck.bits_per_sample, 8);
    assert_eq!(w.wave_data.id, *b"data");
    assert_eq!(w.wave_data.size, 4);
    assert_eq!(w.wave_data.data, vec![10u8, 20, 30, 40]);
    assert_eq!(w.wave_data.size as usize, w.wave_data.data.len());
}

#[test]
fn parse_little_endian_fields() {
    let mut bytes = make_wav(16, &[1, 2]);
    bytes[4] = 0x78;
    bytes[5] = 0x56;
    bytes[6] = 0x34;
    bytes[7] = 0x12;
    bytes[24] = 0x44;
    bytes[25] = 0xac;
    bytes[26] = 0x00;
    bytes[27] = 0x00;
    let w = parse(&bytes).expect("well-formed buffer must parse");
    assert_eq!(w.chunk_size, 0x1234_5678);
    assert_eq!(w.fmt_ck.sample_rate, 44100);
}

#[test]
fn parse_rifx_header() {
    let mut bytes = make_wav(8, &[10, 20, 30, 40]);
    bytes[3] = b'X';
    assert_eq!(parse(&bytes).unwrap_err(), FormatError::InvalidHeader);
}

#[test]
fn parse_bad_wave_tag() {
    let mut bytes = make_wav(8, &[1, 2, 3, 4]);
    bytes[8] = b'X';
    assert_eq!(parse(&bytes).unwrap_err(), FormatError::InvalidHeader);
}

#[test]
fn parse_bad_fmt_tag() {
    let mut bytes = make_wav(8, &[1, 2, 3, 4]);
    bytes[15] = b'X';
    assert_eq!(parse(&bytes).unwrap_err(), FormatError::InvalidHeader);
}

#[test]
fn parse_bad_data_tag() {
    let mut bytes = make_wav(8, &[1, 2, 3, 4]);
    bytes[36] = b'D';
    assert_eq!(parse(&bytes).unwrap_err(), FormatError::InvalidHeader);
}

#[test]
fn parse_empty_buffer() {
    let bytes: Vec<u8> = Vec::new();
    assert_eq!(parse(&bytes).unwrap_err(), FormatError::Truncated);
}

#[test]
fn parse_buffer_of_43_bytes() {
    let bytes = make_wav(8, &[]);
    let short = bytes[..43].to_vec();
    assert_eq!(parse(&short).unwrap_err(), FormatError::Truncated);
}

#[test]
fn parse_declared_size_exceeds_buffer() {
    let mut bytes = make_wav(8, &[10, 20, 30, 40]);
    bytes[40] = 100;
    assert_eq!(parse(&bytes).unwrap_err(), FormatError::Truncated);
}

#[test]
fn parse_keeps_only_declared_bytes() {
    let mut bytes = make_wav(8, &[10, 20, 30, 40]);
    bytes.push(99);
    let w = parse(&bytes).expect("extra trailing bytes do not truncate");
    assert_eq!(w.wave_data.size, 4);
    assert_eq!(w.wave_data.data, vec![10u8, 20, 30, 40]);
}

#[test]
fn parse_non_pcm_format_code() {
    let mut bytes = make_wav(8, &[1, 2, 3, 4]);
    bytes[20] = 2;
    assert_eq!(parse(&bytes).unwrap_err(), FormatError::UnsupportedEncoding);
}

#[test]
fn parse_fmt_chunk_size_not_16() {
    let mut bytes = make_wav(8, &[1, 2, 3, 4]);
    bytes[16] = 18;
    assert_eq!(parse(&bytes).unwrap_err(), FormatError::UnsupportedEncoding);
}

#[test]
fn parse_unsupported_bit_depth() {
    let mut bytes = make_wav(8, &[1, 2, 3, 4]);
    bytes[34] = 12;
    assert_eq!(parse(&bytes).unwrap_err(), FormatError::UnsupportedEncoding);
}

#[test]
fn check_wav_file_format_accepts_tags() {
    let bytes = make_wav(8, &[]);
    assert!(check_wav_file_format(&bytes).is_ok());
}

#[test]
fn check_wav_file_format_rejects_bad_tag() {
    let mut bytes = make_wav(8, &[]);
    bytes[0] = b'X';
    assert_eq!(
        check_wav_file_format(&bytes).unwrap_err(),
        FormatError::InvalidHeader
    );
}

#[test]
fn check_wav_file_format_short_buffer() {
    let bytes = vec![b'R', b'I', b'F', b'F'];
    assert_eq!(
        check_wav_file_format(&bytes).unwrap_err(),
        FormatError::Truncated
    );
}

#[test]
fn decode_8bit_mono_samples() {
    let bytes = make_wav(8, &[10, 20, 30, 40]);
    let w = parse(&bytes).expect("well-formed buffer must parse");
    let seq = decode(&w).expect("8-bit decoding is supported");
    assert_eq!(seq.samples, vec![10u16, 20, 30, 40]);
}

#[test]
fn decode_16bit_little_endian_pairs() {
    let bytes = make_wav(16, &[0x01, 0x02, 0xff, 0x00]);
    let w = parse(&bytes).expect("well-formed buffer must parse");
    let seq = decode(&w).expect("16-bit decoding is supported");
    assert_eq!(seq.samples, vec![0x0201u16, 0x00ff]);
}

#[test]
fn decode_16bit_ignores_odd_trailing_byte() {
    let bytes = make_wav(16, &[0x01, 0x02, 0x03]);
    let w = parse(&bytes).expect("well-formed buffer must parse");
    let seq = decode(&w).expect("16-bit decoding is supported");
    assert_eq!(seq.samples, vec![0x0201u16]);
}

#[test]
fn decode_rejects_other_bit_depths() {
    let w = WaveForm {
        riff: *b"RIFF",
        chunk_size: 36,
        fmt: *b"WAVE",
        fmt_ck: WaveFmtChunk {
            id: *b"fmt ",
            size: 16,
            audio_fmt: 1,
            num_channels: 1,
            sample_rate: 8000,
            byte_rate: 12000,
            blk_align: 2,
            bits_per_sample: 12,
        },
        wave_data: WaveData {
            id: *b"data",
            size: 0,
            data: Vec::new(),
        },
    };
    assert_eq!(decode(&w).unwrap_err(), FormatError::UnsupportedEncoding);
}

#[test]
fn power_of_two_recognition() {
    assert!(is_power_of_two(1));
    assert!(is_power_of_two(2));
    assert!(is_power_of_two(4));
    assert!(is_power_of_two(1024));
    assert!(!is_power_of_two(0));
    assert!(!is_power_of_two(3));
    assert!(!is_power_of_two(6));
    assert!(!is_power_of_two(1023));
}

#[test]
fn bit_reversal_of_length_one_is_identity() {
    let p = bit_reversal_permutation(1).expect("1 is a power of two");
    assert_eq!(p, vec![0usize]);
}

#[test]
fn bit_reversal_of_length_eight() {
    let p = bit_reversal_permutation(8).expect("8 is a power of two");
    assert_eq!(p, vec![0usize, 4, 2, 6, 1, 5, 3, 7]);
}

#[test]
fn bit_reversal_is_self_inverse() {
    let p = bit_reversal_permutation(16).expect("16 is a power of two");
    for i in 0..16 {
        assert_eq!(p[p[i]], i);
    }
}

#[test]
fn bit_reversal_rejects_other_lengths() {
    assert_eq!(
        bit_reversal_permutation(0).unwrap_err(),
        FormatError::PreconditionError
    );
    assert_eq!(
        bit_reversal_permutation(3).unwrap_err(),
        FormatError::PreconditionError
    );
    assert_eq!(
        bit_reversal_permutation(12).unwrap_err(),
        FormatError::PreconditionError
    );
}

#[test]
fn parse_args_picks_first_operand() {
    let args = vec![String::from("waveform"), String::from("sound.wav")];
    let cli = parse_args(&args);
    assert_eq!(cli.wav_file, Some(String::from("sound.wav")));
}

#[test]
fn parse_args_without_operand() {
    let args = vec![String::from("waveform")];
    let cli = parse_args(&args);
    assert_eq!(cli.wav_file, None);
}
