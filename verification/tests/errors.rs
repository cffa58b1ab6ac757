use paper2voice::errors::{ensure_file_exists, ensure_max_chars, Failure};

fn s(text: &str) -> String {
    text.to_string()
}

#[test]
fn files_must_exist() {
    assert!(ensure_file_exists("/m", "Model", true, true).is_ok());
    let missing = ensure_file_exists("/m", "Model", false, false).unwrap_err();
    assert_eq!(missing.message(), "Model not found: /m");
    let folder = ensure_file_exists("/m", "Model", true, false).unwrap_err();
    assert_eq!(folder.message(), "Model is not a file: /m");
}

#[test]
fn chunks_need_characters() {
    assert!(ensure_max_chars(1).is_ok());
    assert_eq!(
        ensure_max_chars(0).unwrap_err().message(),
        "--max-chars must be greater than zero."
    );
}

#[test]
fn failures_are_told_in_words() {
    let told = vec![
        (
            Failure::NoText,
            "No extractable text found. This PDF may be scanned or image-based. MVP only supports selectable-text PDFs.",
        ),
        (Failure::NoChunks, "No chunks were generated from the PDF text."),
        (
            Failure::RootMissing { searched: s("/a, /") },
            "Could not find project root containing models/ and scripts/. Searched from: /a, /",
        ),
        (
            Failure::BridgeScriptNotFound,
            "Could not find scripts/kokoro_bridge.py from the app runtime location.",
        ),
        (
            Failure::ModelMissing { label: s("Model"), path: s("/m") },
            "Model file not found: /m",
        ),
        (
            Failure::ModelNotAFile { label: s("Voices"), path: s("/v") },
            "Voices path is not a file: /v",
        ),
        (
            Failure::ModelIncomplete { label: s("Model"), path: s("/m"), bytes: 1024 },
            "Model file looks incomplete: /m (1024 bytes)",
        ),
        (Failure::BridgeClosed, "Kokoro bridge exited unexpectedly."),
        (Failure::BridgeFailed { message: s("no voice") }, "no voice"),
        (Failure::SpeechFailed { message: s("x") }, "macOS speech engine failed: x"),
        (
            Failure::ConversionFailed { message: s("x") },
            "afconvert failed while creating WAV chunk: x",
        ),
        (Failure::ChunkMissing { number: 7 }, "TTS failed to produce chunk_0007.wav"),
        (Failure::SpeechWorkerPanicked, "A macOS speech worker panicked."),
        (Failure::ModelWorkerPanicked, "A TTS worker panicked."),
        (Failure::ResultsLost, "TTS worker result lock poisoned."),
        (Failure::NoWavChunks, "No WAV chunks were generated."),
        (
            Failure::FfmpegMissing,
            "FFmpeg not found. Install it with: brew install ffmpeg",
        ),
        (
            Failure::ExportFailed { tool: s("FFmpeg"), path: s("/o") },
            "FFmpeg failed while creating audiobook: /o",
        ),
        (Failure::WavUnreadable { path: s("/w") }, "Failed to open WAV chunk: /w"),
        (Failure::WavUnwritable { path: s("/w") }, "Failed to create merged WAV: /w"),
        (
            Failure::WavMismatch { path: s("/w") },
            "WAV chunk format mismatch while merging: /w",
        ),
        (
            Failure::WavSampleUnreadable { path: s("/w") },
            "Failed to read WAV sample from /w",
        ),
        (Failure::NothingToMerge, "No WAV chunks were provided for merge."),
        (
            Failure::WavBeyondLimits { path: s("/w") },
            "Merged WAV exceeds the limits of its format: /w",
        ),
    ];
    for (failure, words) in told {
        assert_eq!(failure.message(), words);
    }
}
