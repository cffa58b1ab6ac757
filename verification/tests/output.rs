use paper2voice::errors::Failure;
use paper2voice::mode::ModeSettings;
use paper2voice::output::{
    bridge_script, check_dependencies, check_input, ensure_dependencies, folder_to_open,
    output_base_dir, output_file_name, required_dirs, session_path, AppPaths, Installed,
};
use paper2voice::paths::{file_name, parent};

#[test]
fn uses_pdf_stem_for_output_file_name() {
    assert_eq!(output_file_name("/tmp/My Book.pdf"), "My Book.m4b");
}

#[test]
fn falls_back_for_empty_or_unsafe_output_file_name() {
    assert_eq!(output_file_name("/tmp/..pdf"), "audiobook.m4b");
    assert_eq!(output_file_name("/tmp/chapter:one.pdf"), "chapter_one.m4b");
}

#[test]
fn names_lose_blanks_and_dots_at_their_ends() {
    assert_eq!(output_file_name("/tmp/  a.b  .pdf"), "a.b.m4b");
    assert_eq!(output_file_name("/tmp/..a...pdf"), "a.m4b");
    assert_eq!(output_file_name("/tmp/. . .pdf"), " .m4b");
    assert_eq!(output_file_name(""), "audiobook.m4b");
    assert_eq!(output_file_name("/"), "audiobook.m4b");
    assert_eq!(output_file_name("a/.."), "audiobook.m4b");
    assert_eq!(output_file_name("a\\b\0c.pdf"), "a_b_c.m4b");
    assert_eq!(output_file_name("/tmp/   .pdf"), "audiobook.m4b");
}

#[test]
fn audiobooks_stay_in_their_folder() {
    for pdf in ["", "/", "..", "/tmp/..pdf", "/a/../b.pdf", "x:y\\z.pdf", "/tmp/....pdf"] {
        let paths = AppPaths::new("/root", "/home/me/Documents", pdf);
        assert_eq!(parent(&paths.output_path).as_deref(), Some("/home/me/Documents/Paper2Voice"));
        let name = file_name(&paths.output_path).unwrap();
        assert_eq!(name, output_file_name(pdf));
        assert!(name.ends_with(".m4b"));
        assert!(!name.contains(['/', '\\', ':', '\0']));
        assert!(!name.starts_with('.') && !name.ends_with("..m4b"));
    }
}

#[test]
fn paths_of_a_conversion() {
    let paths = AppPaths::new("/app", "/docs", "/tmp/My Book.pdf");
    assert_eq!(paths.project_root, "/app");
    assert_eq!(paths.output_dir, "/docs/Paper2Voice");
    assert_eq!(paths.text_dir, "/docs/Paper2Voice/text");
    assert_eq!(paths.chunks_dir, "/docs/Paper2Voice/chunks");
    assert_eq!(paths.output_path, "/docs/Paper2Voice/My Book.m4b");
    assert_eq!(paths.raw_text_path, "/docs/Paper2Voice/text/raw.txt");
    assert_eq!(paths.cleaned_text_path, "/docs/Paper2Voice/text/cleaned.txt");
    assert_eq!(paths.model_path, "/app/models/kokoro-v1.0.onnx");
    assert_eq!(paths.voices_path, "/app/models/voices-v1.0.bin");
    let check = AppPaths::for_dependency_check("/app", "/docs");
    assert_eq!(check.output_path, "/docs/Paper2Voice/audiobook.m4b");
    assert_eq!(check.model_path, paths.model_path);
    assert_eq!(output_base_dir("/docs/"), "/docs/Paper2Voice");
    assert_eq!(session_path("/docs"), "/docs/Paper2Voice/session.json");
    assert_eq!(bridge_script("/app"), "/app/scripts/kokoro_bridge.py");
    assert_eq!(required_dirs("/app"), ("/app/models".to_string(), "/app/scripts".to_string()));
}

#[test]
fn files_are_shown_in_their_folder() {
    assert_eq!(folder_to_open("/docs/a.m4b", true), "/docs");
    assert_eq!(folder_to_open("/docs", false), "/docs");
    assert_eq!(folder_to_open("/", true), "/");
    assert_eq!(folder_to_open("a.m4b", true), "");
}

#[test]
fn input_must_be_a_pdf_that_is_there() {
    assert!(check_input("/tmp/a.PDF", true).is_ok());
    let missing = check_input("/tmp/a.pdf", false).unwrap_err();
    assert_eq!(missing.message(), "PDF not found: /tmp/a.pdf");
    for path in ["/tmp/a.txt", "/tmp/pdf", "/tmp/.pdf", "/tmp/a.pdf.zip"] {
        let wrong = check_input(path, true).unwrap_err();
        assert_eq!(wrong.message(), format!("Selected file is not a PDF: {}", path));
    }
}

const ALL: Installed = Installed {
    exporter: true,
    say: true,
    converter: true,
    model: true,
    voices: true,
    bridge: true,
};

#[test]
fn dependencies_of_the_draft_engine() {
    let paths = AppPaths::new("/app", "/docs", "a.pdf");
    let quick = ModeSettings::new("super_quick", 900, Some(4));
    let only = Installed { model: false, voices: false, bridge: false, ..ALL };
    assert!(ensure_dependencies(&paths, quick, only).is_ok());
    let message = |installed| ensure_dependencies(&paths, quick, installed).unwrap_err().message();
    assert_eq!(
        message(Installed { exporter: false, say: false, ..ALL }),
        "No audio exporter found. Paper2Voice needs FFmpeg or macOS afconvert."
    );
    assert_eq!(
        message(Installed { say: false, converter: false, ..ALL }),
        "macOS speech engine not found at /usr/bin/say."
    );
    assert_eq!(
        message(Installed { converter: false, ..ALL }),
        "macOS audio converter not found at /usr/bin/afconvert."
    );
}

#[test]
fn dependencies_of_the_speech_model() {
    let paths = AppPaths::new("/app", "/docs", "a.pdf");
    let fast = ModeSettings::new("fast_export", 900, Some(4));
    let only = Installed { say: false, converter: false, ..ALL };
    assert!(ensure_dependencies(&paths, fast, only).is_ok());
    let message = |installed| ensure_dependencies(&paths, fast, installed).unwrap_err().message();
    assert_eq!(
        message(Installed { model: false, voices: false, ..ALL }),
        "Model file not found: /app/models/kokoro-v1.0.onnx"
    );
    assert_eq!(
        message(Installed { voices: false, bridge: false, ..ALL }),
        "Voices file not found: /app/models/voices-v1.0.bin"
    );
    assert_eq!(
        message(Installed { bridge: false, ..ALL }),
        "Kokoro bridge script not found: /app/scripts/kokoro_bridge.py"
    );
    assert!(matches!(
        ensure_dependencies(&paths, fast, Installed { exporter: false, ..ALL }),
        Err(Failure::NoExporter)
    ));
}

#[test]
fn either_tool_counts_as_an_exporter() {
    let a = Some("/usr/bin/ffmpeg".to_string());
    let b = Some("/usr/bin/afconvert".to_string());
    let both = check_dependencies(a.clone(), b.clone(), true, false);
    assert!(both.ffmpeg_found && both.model_found && !both.voices_found);
    assert_eq!(both.ffmpeg_path, a);
    let one = check_dependencies(None, b.clone(), false, true);
    assert!(one.ffmpeg_found && !one.model_found && one.voices_found);
    assert_eq!(one.ffmpeg_path, b);
    let none = check_dependencies(None, None, false, false);
    assert!(!none.ffmpeg_found);
    assert_eq!(none.ffmpeg_path, None);
}
