use paper2voice::errors::Failure;
use paper2voice::tts::{
    bridge_arguments, check_conversion, check_response, check_speech, chunk_failure, chunk_path,
    macos_say_voice, placeholder_words, response_text, say_arguments, to_wav_arguments,
    validate_model_file, BridgeRequest, BridgeResponse, FileFacts, MIN_MODEL_BYTES,
    MIN_VOICES_BYTES,
};

#[test]
fn chunk_files_are_numbered_from_one() {
    assert_eq!(chunk_path("/c", 1, ".wav"), "/c/chunk_0001.wav");
    assert_eq!(chunk_path("/c/", 9_999, ".aiff"), "/c/chunk_9999.aiff");
    assert_eq!(chunk_path("/c", 10_000, ".txt"), "/c/chunk_10000.txt");
    assert_eq!(chunk_failure(12), "TTS failed on chunk_0012.txt");
}

#[test]
fn chunks_do_not_share_files() {
    let mut names: Vec<String> = (1..=12_000).map(|i| chunk_path("/c", i, ".wav")).collect();
    names.sort();
    names.dedup();
    assert_eq!(names.len(), 12_000);
}

#[test]
fn model_files_must_be_whole() {
    let facts = |is_file, bytes| Some(FileFacts { is_file, bytes });
    let check = |found| validate_model_file("/m", "Model", MIN_MODEL_BYTES, found);
    assert!(check(facts(true, 1_000_000)).is_ok());
    assert_eq!(check(None).unwrap_err().message(), "Model file not found: /m");
    assert_eq!(
        check(facts(false, 2_000_000)).unwrap_err().message(),
        "Model path is not a file: /m"
    );
    assert_eq!(
        check(facts(true, 999_999)).unwrap_err().message(),
        "Model file looks incomplete: /m (999999 bytes)"
    );
    assert_eq!(MIN_VOICES_BYTES, 1_000_000);
}

#[test]
fn american_voices_are_spoken_by_samantha() {
    assert_eq!(macos_say_voice("af_heart"), "Samantha");
    assert_eq!(macos_say_voice("am_"), "Samantha");
    assert_eq!(macos_say_voice("bf_emma"), "bf_emma");
    assert_eq!(macos_say_voice("af"), "af");
    assert_eq!(macos_say_voice(""), "");
}

#[test]
fn speech_programs_are_called_with_these_arguments() {
    assert_eq!(
        say_arguments("am_adam", 320, "/c/a.aiff"),
        vec!["-v", "Samantha", "-r", "320", "-o", "/c/a.aiff"]
    );
    assert_eq!(
        to_wav_arguments("/c/a.aiff", "/c/a.wav"),
        vec!["-f", "WAVE", "-d", "LEI16@24000", "/c/a.aiff", "/c/a.wav"]
    );
    assert_eq!(
        bridge_arguments("/s.py", "/m", "/v"),
        vec!["/s.py", "--model", "/m", "--voices", "/v"]
    );
}

#[test]
fn speech_programs_report_failures() {
    assert!(check_speech(true, "noise").is_ok());
    assert_eq!(
        check_speech(false, " no voice\n").unwrap_err().message(),
        "macOS speech engine failed: no voice"
    );
    assert!(check_conversion(true, "").is_ok());
    assert_eq!(
        check_conversion(false, "bad file\n").unwrap_err().message(),
        "afconvert failed while creating WAV chunk: bad file"
    );
}

#[test]
fn bridge_answers_are_checked() {
    let answer = |ok, error: Option<&str>| BridgeResponse { ok, error: error.map(str::to_string) };
    assert!(check_response(BridgeRequest::Start, answer(true, Some("ignored"))).is_ok());
    let message = |request, response| check_response(request, response).unwrap_err().message();
    assert_eq!(message(BridgeRequest::Start, answer(false, Some("x"))), "x");
    assert_eq!(
        message(BridgeRequest::Start, answer(false, None)),
        "Kokoro bridge failed to start."
    );
    assert_eq!(
        message(BridgeRequest::Speak, answer(false, None)),
        "Kokoro bridge synthesis failed."
    );
}

#[test]
fn a_closed_bridge_is_noticed() {
    assert!(matches!(response_text(0, ""), Err(Failure::BridgeClosed)));
    assert_eq!(response_text(13, " {\"ok\":true}\n").unwrap(), "{\"ok\":true}");
}

#[test]
fn silence_stands_for_at_least_one_word() {
    assert_eq!(placeholder_words("one  two\nthree"), 3);
    assert_eq!(placeholder_words("  "), 1);
}
