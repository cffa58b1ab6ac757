use paper2voice::mode::{ModeSettings, TtsBackend};
use paper2voice::progress::{
    after_attempt, chunk_progress, extracting, generating, panic_message, saved, short_error,
    Attempt, NextStep,
};

#[test]
fn long_errors_are_cut() {
    assert_eq!(short_error("short"), "short");
    let exact = "é".repeat(180);
    assert_eq!(short_error(&exact), exact);
    assert_eq!(short_error(&"é".repeat(181)), format!("{}...", exact));
}

#[test]
fn panics_are_named() {
    assert_eq!(panic_message(Some("boom".to_string())), "boom");
    assert_eq!(panic_message(None), "unknown panic");
}

#[test]
fn progress_is_told() {
    let fast = ModeSettings::new("fast_export", 900, None);
    assert_eq!(extracting(fast), "Extracting PDF in Fast Export mode...");
    assert_eq!(generating(fast, 1), "Generating audio in Fast Export mode with 1 worker...");
    assert_eq!(generating(fast, 12), "Generating audio in Fast Export mode with 12 workers...");
    assert_eq!(chunk_progress(3, 40), "Generating audio chunk 3 / 40...");
    assert_eq!(saved("/d/My Book.m4b"), "Done. Saved My Book.m4b in ~/Documents/Paper2Voice/.");
    assert_eq!(saved("/"), "Done. Saved audiobook.m4b in ~/Documents/Paper2Voice/.");
}

#[test]
fn a_chunk_is_tried_twice() {
    let error = Some("it broke".to_string());
    for backend in [TtsBackend::MacosSay, TtsBackend::Kokoro] {
        for attempt in [Attempt::First, Attempt::Second] {
            match after_attempt(backend, attempt, 1, 2, None) {
                NextStep::Keep { replace_engine } => assert_eq!(
                    replace_engine,
                    backend == TtsBackend::Kokoro && attempt == Attempt::Second
                ),
                _ => panic!("not kept"),
            }
        }
    }
    match after_attempt(TtsBackend::MacosSay, Attempt::First, 1, 2, error.clone()) {
        NextStep::Retry { message, fresh_engine } => {
            assert!(!fresh_engine);
            assert_eq!(message, "Fast speech chunk 1 / 2 failed once; retrying. it broke")
        }
        _ => panic!("not tried again"),
    }
    match after_attempt(TtsBackend::Kokoro, Attempt::First, 2, 2, error.clone()) {
        NextStep::Retry { message, fresh_engine } => {
            assert!(fresh_engine);
            assert_eq!(message, "Chunk 2 / 2 failed once; retrying. it broke")
        }
        _ => panic!("not tried again"),
    }
    match after_attempt(TtsBackend::MacosSay, Attempt::Second, 1, 2, error.clone()) {
        NextStep::Silence { message } => assert_eq!(
            message,
            "Fast speech chunk 1 / 2 failed after retry; inserting silence and continuing. it broke"
        ),
        _ => panic!("no silence"),
    }
    match after_attempt(TtsBackend::Kokoro, Attempt::Second, 2, 2, error) {
        NextStep::Silence { message } => assert_eq!(
            message,
            "Chunk 2 / 2 failed after retry; inserting silence and continuing. it broke"
        ),
        _ => panic!("no silence"),
    }
}
