use paper2voice::mode::{ConversionMode, ModeSettings, TtsBackend};

#[test]
fn super_quick_uses_fast_local_draft_engine() {
    for cpu_count in [None, Some(1), Some(2), Some(8), Some(64)] {
        let settings = ModeSettings::new("super_quick", 900, cpu_count);
        assert_eq!(settings.tts_backend, TtsBackend::MacosSay);
        assert!(settings.chunk_chars >= 3_500);
        assert!(settings.worker_count >= 4);
    }
}

#[test]
fn modes_are_known_by_name() {
    assert_eq!(ConversionMode::from_str("fast_export"), ConversionMode::FastExport);
    assert_eq!(ConversionMode::from_str("quality"), ConversionMode::Quality);
    assert_eq!(ConversionMode::from_str("super_quick"), ConversionMode::SuperQuick);
    assert_eq!(ConversionMode::from_str("Quality"), ConversionMode::SuperQuick);
    assert_eq!(ConversionMode::from_str(""), ConversionMode::SuperQuick);
}

#[test]
fn each_mode_has_its_settings() {
    let quick = ModeSettings::new("super_quick", 4_000, Some(7));
    assert_eq!(
        quick,
        ModeSettings {
            mode: ConversionMode::SuperQuick,
            tts_backend: TtsBackend::MacosSay,
            chunk_chars: 4_000,
            worker_count: 6,
            write_debug_text: false,
            initial_priority_pages: 3,
        }
    );
    let fast = ModeSettings::new("fast_export", 4_000, Some(7));
    assert_eq!(
        fast,
        ModeSettings {
            mode: ConversionMode::FastExport,
            tts_backend: TtsBackend::Kokoro,
            chunk_chars: 2_200,
            worker_count: 6,
            write_debug_text: false,
            initial_priority_pages: 0,
        }
    );
    let quality = ModeSettings::new("quality", 0, None);
    assert_eq!(
        quality,
        ModeSettings {
            mode: ConversionMode::Quality,
            tts_backend: TtsBackend::Kokoro,
            chunk_chars: 700,
            worker_count: 1,
            write_debug_text: true,
            initial_priority_pages: 0,
        }
    );
    assert_eq!(quick.label(), "Super Quick Draft");
    assert_eq!(fast.label(), "Fast Export");
    assert_eq!(quality.label(), "Quality");
}

#[test]
fn settings_stay_in_range() {
    for mode in ["super_quick", "fast_export", "quality"] {
        for max_chars in [0, 699, 700, 1_001, 2_201, 5_001, usize::MAX] {
            for cpu_count in [None, Some(0), Some(1), Some(3), Some(usize::MAX)] {
                let settings = ModeSettings::new(mode, max_chars, cpu_count);
                assert!((700..=5_000).contains(&settings.chunk_chars));
                assert!((1..=8).contains(&settings.worker_count));
            }
        }
    }
}

#[test]
fn faster_modes_do_more_at_once() {
    for cpu_count in [None, Some(1), Some(4), Some(32)] {
        let quick = ModeSettings::new("super_quick", 900, cpu_count);
        let fast = ModeSettings::new("fast_export", 900, cpu_count);
        let quality = ModeSettings::new("quality", 900, cpu_count);
        assert!(quality.chunk_chars < fast.chunk_chars && fast.chunk_chars < quick.chunk_chars);
        assert!(quality.worker_count <= fast.worker_count);
        assert!(fast.worker_count <= quick.worker_count);
    }
}

#[test]
fn there_are_no_more_workers_than_chunks() {
    let settings = ModeSettings::new("super_quick", 900, Some(64));
    assert_eq!(settings.workers_for(0), 1);
    assert_eq!(settings.workers_for(3), 3);
    assert_eq!(settings.workers_for(100), 8);
}
