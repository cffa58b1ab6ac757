use paper2voice::audio::{
    afconvert_arguments, beside_first, check_export, choose_exporter, concat_content,
    ensure_ffmpeg_available, ffmpeg_arguments, ffprobe_arguments, require_wav_chunks, Exporter,
};
use paper2voice::errors::Failure;

fn s(text: &str) -> Option<String> {
    Some(text.to_string())
}

#[test]
fn ffmpeg_is_preferred() {
    match choose_exporter(s("/f"), s("/a")) {
        Ok(Exporter::Ffmpeg { path }) => assert_eq!(path, "/f"),
        _ => panic!("not ffmpeg"),
    }
    match choose_exporter(None, s("/a")) {
        Ok(Exporter::Afconvert { path }) => assert_eq!(path, "/a"),
        _ => panic!("not afconvert"),
    }
    assert!(matches!(choose_exporter(None, None), Err(Failure::FfmpegMissing)));
    assert!(ensure_ffmpeg_available(true).is_ok());
    assert!(matches!(ensure_ffmpeg_available(false), Err(Failure::FfmpegMissing)));
}

#[test]
fn there_must_be_audio() {
    assert!(require_wav_chunks(1).is_ok());
    assert!(matches!(require_wav_chunks(0), Err(Failure::NoWavChunks)));
}

#[test]
fn exports_are_checked() {
    assert!(check_export("FFmpeg", true, "/o").is_ok());
    assert_eq!(
        check_export("afconvert", false, "/o").unwrap_err().message(),
        "afconvert failed while creating audiobook: /o"
    );
}

#[test]
fn lists_quote_their_paths() {
    let paths = vec!["/a/b.wav".to_string(), "/it's/'x'.wav".to_string()];
    assert_eq!(
        concat_content(&paths),
        "file '/a/b.wav'\nfile '/it'\\''s/'\\''x'\\''.wav'\n"
    );
    assert_eq!(concat_content(&vec![]), "");
}

#[test]
fn quoted_paths_can_be_read_back() {
    for path in ["", "'", "''", "a'b", "\\'", "a\\b", "é'\\''"] {
        let line = concat_content(&vec![path.to_string()]);
        let quoted = line.strip_prefix("file ").unwrap().strip_suffix('\n').unwrap();
        let mut out = String::new();
        let mut inside = false;
        let mut chars = quoted.chars();
        while let Some(c) = chars.next() {
            match c {
                '\'' => inside = !inside,
                '\\' if !inside => out.push(chars.next().unwrap()),
                _ => out.push(c),
            }
        }
        assert!(!inside);
        assert_eq!(out, path);
    }
}

#[test]
fn helpers_stand_beside_the_first_file() {
    let paths = vec!["/c/chunk_0001.wav".to_string(), "/d/x.wav".to_string()];
    assert_eq!(beside_first(&paths, "concat.txt"), "/c/concat.txt");
    assert_eq!(beside_first(&vec![], "concat.txt"), "./concat.txt");
    assert_eq!(beside_first(&vec!["/".to_string()], "concat.txt"), "./concat.txt");
    assert_eq!(beside_first(&vec!["x.wav".to_string()], "concat.txt"), "concat.txt");
}

#[test]
fn audio_programs_are_called_with_these_arguments() {
    assert_eq!(
        ffmpeg_arguments("/c/concat.txt", "/o.m4b"),
        vec![
            "-y", "-f", "concat", "-safe", "0", "-i", "/c/concat.txt", "-c:a", "aac", "-b:a", "96k",
            "/o.m4b",
        ]
    );
    assert_eq!(
        afconvert_arguments("/c/m.wav", "/o.m4b"),
        vec!["-f", "m4af", "-d", "aac", "-b", "96000", "/c/m.wav", "/o.m4b"]
    );
    assert_eq!(
        ffprobe_arguments("/o.m4b"),
        vec![
            "-v",
            "error",
            "-show_entries",
            "format=duration",
            "-of",
            "default=noprint_wrappers=1:nokey=1",
            "/o.m4b",
        ]
    );
}
