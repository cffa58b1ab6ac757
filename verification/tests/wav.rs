use std::io::Cursor;

use paper2voice::errors::Failure;
use paper2voice::wav::{
    append_samples, merge_format, merge_wav_chunks_to_wav, silent_wav, wav_duration, Merged,
    SampleFormat, WavDuration, WavFile, WavFormat, WavHeader,
};

fn spec(channels: u16, sample_rate: u32, bits: u16) -> hound::WavSpec {
    hound::WavSpec {
        channels,
        sample_rate,
        bits_per_sample: bits,
        sample_format: hound::SampleFormat::Int,
    }
}

fn encode(spec: hound::WavSpec, samples: &[i32]) -> Vec<u8> {
    let mut bytes = Vec::new();
    let mut writer = hound::WavWriter::new(Cursor::new(&mut bytes), spec).unwrap();
    for sample in samples {
        writer.write_sample(*sample).unwrap();
    }
    writer.finalize().unwrap();
    bytes
}

fn decode(bytes: &[u8]) -> (hound::WavSpec, Vec<i32>) {
    let reader = hound::WavReader::new(Cursor::new(bytes)).unwrap();
    (reader.spec(), reader.into_samples::<i32>().map(|s| s.unwrap()).collect())
}

fn file(path: &str, bytes: Vec<u8>) -> WavFile {
    WavFile { path: path.to_string(), bytes: Some(bytes) }
}

fn merged(files: Vec<WavFile>) -> Vec<u8> {
    match merge_wav_chunks_to_wav(&files, "/out.wav") {
        Ok(Merged::Ints(bytes)) => bytes,
        _ => panic!("not merged"),
    }
}

fn refused(files: Vec<WavFile>) -> String {
    match merge_wav_chunks_to_wav(&files, "/out.wav") {
        Err(failure) => failure.message(),
        Ok(_) => panic!("merged"),
    }
}

#[test]
fn samples_are_merged_in_order() {
    for (bits, low, high) in
        [(8, -128, 127), (16, -32768, 32767), (24, -8388608, 8388607), (32, i32::MIN, i32::MAX)]
    {
        for channels in [1, 2, 3] {
            let format = spec(channels, 44_100, bits);
            let one: Vec<i32> = (0..6).map(|i| if i % 2 == 0 { low } else { i }).collect();
            let two: Vec<i32> = vec![high; 12];
            let bytes = merged(vec![
                file("/1.wav", encode(format, &one)),
                file("/2.wav", encode(format, &[])),
                file("/3.wav", encode(format, &two)),
            ]);
            let (found, samples) = decode(&bytes);
            assert_eq!(found, format);
            assert_eq!(samples, [one, two].concat());
        }
    }
}

#[test]
fn merged_audio_lasts_as_long_as_its_parts() {
    let format = spec(2, 8_000, 16);
    let one = encode(format, &[1; 20]);
    let two = encode(format, &[2; 8]);
    let total = wav_duration(&one).unwrap().frames + wav_duration(&two).unwrap().frames;
    let bytes = merged(vec![file("/1.wav", one), file("/2.wav", two)]);
    assert_eq!(
        wav_duration(&bytes),
        Some(WavDuration { frames: total, sample_rate: 8_000, channels: 2 })
    );
    assert_eq!(total, 14);
}

#[test]
fn nothing_cannot_be_merged() {
    assert_eq!(refused(vec![]), "No WAV chunks were provided for merge.");
}

#[test]
fn unreadable_files_are_named() {
    let good = encode(spec(1, 8_000, 16), &[1, 2]);
    let gone = WavFile { path: "/gone.wav".to_string(), bytes: None };
    assert_eq!(refused(vec![gone]), "Failed to open WAV chunk: /gone.wav");
    assert_eq!(
        refused(vec![file("/1.wav", good), file("/bad.wav", b"RIFF".to_vec())]),
        "Failed to open WAV chunk: /bad.wav"
    );
}

#[test]
fn formats_must_agree() {
    let one = encode(spec(1, 8_000, 16), &[1, 2]);
    for other in [spec(2, 8_000, 16), spec(1, 8_001, 16), spec(1, 8_000, 8)] {
        assert_eq!(
            refused(vec![file("/1.wav", one.clone()), file("/2.wav", encode(other, &[1, 2]))]),
            "WAV chunk format mismatch while merging: /2.wav"
        );
    }
}

#[test]
fn files_must_not_end_early() {
    let whole = encode(spec(1, 8_000, 16), &[1, 2, 3]);
    let cut = whole[..whole.len() - 1].to_vec();
    assert_eq!(
        refused(vec![file("/1.wav", whole), file("/2.wav", cut)]),
        "Failed to read WAV sample from /2.wav"
    );
}

#[test]
fn unusual_sizes_of_samples_are_refused() {
    let mut bytes = encode(spec(1, 8_000, 24), &[1, 2, 3]);
    bytes[38] = 20;
    assert_eq!(refused(vec![file("/1.wav", bytes)]), "Failed to create merged WAV: /out.wav");
}

#[test]
fn a_file_without_a_sample_rate_is_refused() {
    let mut bytes = encode(spec(1, 8_000, 16), &[1, 2]);
    bytes[24..32].fill(0);
    assert_eq!(wav_duration(&bytes), None);
    assert_eq!(
        refused(vec![file("/1.wav", bytes)]),
        "Merged WAV exceeds the limits of its format: /out.wav"
    );
}

#[test]
fn floating_point_files_are_left_alone() {
    let format = hound::WavSpec {
        channels: 1,
        sample_rate: 8_000,
        bits_per_sample: 32,
        sample_format: hound::SampleFormat::Float,
    };
    let mut bytes = Vec::new();
    let mut writer = hound::WavWriter::new(Cursor::new(&mut bytes), format).unwrap();
    writer.write_sample(0.5f32).unwrap();
    writer.finalize().unwrap();
    assert!(matches!(
        merge_wav_chunks_to_wav(&vec![file("/1.wav", bytes)], "/out.wav"),
        Ok(Merged::Floats)
    ));
}

#[test]
fn silence_is_silent() {
    let bytes = silent_wav(1_000);
    let (format, samples) = decode(&bytes);
    assert_eq!(format, spec(1, 24_000, 16));
    assert_eq!(samples, vec![0; 1_000]);
    assert_eq!(
        wav_duration(&bytes),
        Some(WavDuration { frames: 1_000, sample_rate: 24_000, channels: 1 })
    );
    assert_eq!(decode(&silent_wav(0)).1, Vec::<i32>::new());
}

#[test]
fn durations_need_a_readable_file() {
    assert_eq!(wav_duration(&b"not a wav file".to_vec()), None);
}

const FORMAT: WavFormat = WavFormat {
    channels: 1,
    sample_rate: 8_000,
    bits_per_sample: 16,
    sample_format: SampleFormat::Int,
};

fn header(format: WavFormat) -> Option<WavHeader> {
    Some(WavHeader { format, duration: 2 })
}

#[test]
fn the_first_header_decides() {
    let of = |format| merge_format(header(format), "/1.wav", "/out.wav");
    assert_eq!(of(FORMAT).unwrap(), Some(FORMAT));
    let float = WavFormat { sample_format: SampleFormat::Float, ..FORMAT };
    assert_eq!(of(float).unwrap(), None);
    assert!(matches!(
        of(WavFormat { bits_per_sample: 12, ..FORMAT }),
        Err(Failure::WavUnwritable { .. })
    ));
    assert!(matches!(
        of(WavFormat { sample_rate: 0, ..FORMAT }),
        Err(Failure::WavBeyondLimits { .. })
    ));
    assert!(matches!(
        of(WavFormat { channels: 0, ..FORMAT }),
        Err(Failure::WavBeyondLimits { .. })
    ));
    assert!(matches!(
        of(WavFormat { sample_rate: u32::MAX, ..FORMAT }),
        Err(Failure::WavBeyondLimits { .. })
    ));
    let widest = WavFormat { sample_rate: u32::MAX, bits_per_sample: 8, ..FORMAT };
    assert_eq!(of(widest).unwrap(), Some(widest));
    assert!(matches!(
        merge_format(None, "/1.wav", "/out.wav"),
        Err(Failure::WavUnreadable { path }) if path == "/1.wav"
    ));
}

#[test]
fn samples_are_appended_or_left() {
    let mut samples = vec![1];
    assert!(append_samples(&mut samples, FORMAT, header(FORMAT), Some(vec![2, 3]), "/p", "/o")
        .is_ok());
    assert_eq!(samples, vec![1, 2, 3]);
    let other = WavFormat { channels: 2, ..FORMAT };
    for (found, more, words) in [
        (None, Some(vec![4]), "Failed to open WAV chunk: /p"),
        (header(other), Some(vec![4]), "WAV chunk format mismatch while merging: /p"),
        (header(FORMAT), None, "Failed to read WAV sample from /p"),
    ] {
        let failure = append_samples(&mut samples, FORMAT, found, more, "/p", "/o").unwrap_err();
        assert_eq!(failure.message(), words);
        assert_eq!(samples, vec![1, 2, 3]);
    }
}

#[test]
fn headers_have_a_length() {
    let header = WavHeader { format: FORMAT, duration: 5 };
    assert_eq!(
        header.length(),
        Some(WavDuration { frames: 5, sample_rate: 8_000, channels: 1 })
    );
    let still = WavHeader { format: WavFormat { sample_rate: 0, ..FORMAT }, ..header };
    assert_eq!(still.length(), None);
}
