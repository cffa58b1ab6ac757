//! The conversion modes and what each of them sets.

use vstd::prelude::*;

use crate::text;

verus! {

broadcast use vstd::string::group_string_axioms;

/// How a paper is converted: how fast, and how good the speech is to be.
#[derive(Clone, Copy, Debug, PartialEq, Eq, Structural)]
pub enum ConversionMode {
    /// A draft in the voice of the operating system.
    SuperQuick,
    /// The speech model, with long chunks.
    FastExport,
    /// The speech model, with short chunks.
    Quality,
}

/// What turns text into speech.
#[derive(Clone, Copy, Debug, PartialEq, Eq, Structural)]
pub enum TtsBackend {
    /// The speech engine of macOS.
    MacosSay,
    /// The Kokoro speech model.
    Kokoro,
}

/// What a conversion mode sets.
#[derive(Clone, Copy, Debug, PartialEq, Eq, Structural)]
pub struct ModeSettings {
    pub mode: ConversionMode,
    pub tts_backend: TtsBackend,
    /// The limit on the characters of a chunk.
    pub chunk_chars: usize,
    /// The number of chunks that may be spoken at the same time.
    pub worker_count: usize,
    /// Whether the text is written to files on the way.
    pub write_debug_text: bool,
    /// The number of pages whose chunks are spoken before all others.
    pub initial_priority_pages: usize,
}

/// The mode that a name stands for.
pub open spec fn mode_named(value: Seq<char>) -> ConversionMode {
    if value == "fast_export"@ {
        ConversionMode::FastExport
    } else if value == "quality"@ {
        ConversionMode::Quality
    } else {
        ConversionMode::SuperQuick
    }
}

/// The number in the range that is closest to `x`.
pub open spec fn clamped(x: int, low: int, high: int) -> int {
    if x < low {
        low
    } else if x > high {
        high
    } else {
        x
    }
}

/// The number of processors that are free for speech: all but one. Where the
/// number of processors is not known, two are taken for granted.
pub open spec fn spare_cpus(cpu_count: Option<usize>) -> int {
    let all = match cpu_count {
        Some(n) => n as int,
        None => 2,
    };
    if all > 0 {
        all - 1
    } else {
        0
    }
}

/// The settings of a mode.
pub open spec fn settings_of(
    mode: ConversionMode,
    requested_max_chars: usize,
    cpu_count: Option<usize>,
) -> ModeSettings {
    let (low_chars, high_chars) = match mode {
        ConversionMode::SuperQuick => (3_500int, 5_000int),
        ConversionMode::FastExport => (1_600int, 2_200int),
        ConversionMode::Quality => (700int, 1_000int),
    };
    let (low_workers, high_workers) = match mode {
        ConversionMode::SuperQuick => (4int, 8int),
        ConversionMode::FastExport => (2int, 6int),
        ConversionMode::Quality => (1int, 2int),
    };
    ModeSettings {
        mode,
        tts_backend: if mode is SuperQuick {
            TtsBackend::MacosSay
        } else {
            TtsBackend::Kokoro
        },
        chunk_chars: clamped(requested_max_chars as int, low_chars, high_chars) as usize,
        worker_count: clamped(spare_cpus(cpu_count), low_workers, high_workers) as usize,
        write_debug_text: mode is Quality,
        initial_priority_pages: if mode is SuperQuick {
            3
        } else {
            0
        },
    }
}

fn clamp(x: usize, low: usize, high: usize) -> (r: usize)
    ensures
        r == clamped(x as int, low as int, high as int),
{
    if x < low {
        low
    } else if x > high {
        high
    } else {
        x
    }
}

impl ConversionMode {
    /// The mode that a name stands for. Any name that is not known stands for
    /// the quickest mode.
    pub fn from_str(value: &str) -> (r: Self)
        ensures
            r == mode_named(value@),
    {
        if text::same_text(value, "fast_export") {
            ConversionMode::FastExport
        } else if text::same_text(value, "quality") {
            ConversionMode::Quality
        } else {
            ConversionMode::SuperQuick
        }
    }
}

impl ModeSettings {
    /// The settings of the mode with the given name, on a machine with the
    /// given number of processors.
    pub fn new(mode: &str, requested_max_chars: usize, cpu_count: Option<usize>) -> (r: Self)
        ensures
            r == settings_of(mode_named(mode@), requested_max_chars, cpu_count),
    {
        let parsed_mode = ConversionMode::from_str(mode);
        let all: usize = match cpu_count {
            Some(n) => n,
            None => 2,
        };
        let spare: usize = if all > 0 {
            all - 1
        } else {
            0
        };
        match parsed_mode {
            ConversionMode::SuperQuick => ModeSettings {
                mode: parsed_mode,
                tts_backend: TtsBackend::MacosSay,
                chunk_chars: clamp(requested_max_chars, 3_500, 5_000),
                worker_count: clamp(spare, 4, 8),
                write_debug_text: false,
                initial_priority_pages: 3,
            },
            ConversionMode::FastExport => ModeSettings {
                mode: parsed_mode,
                tts_backend: TtsBackend::Kokoro,
                chunk_chars: clamp(requested_max_chars, 1_600, 2_200),
                worker_count: clamp(spare, 2, 6),
                write_debug_text: false,
                initial_priority_pages: 0,
            },
            ConversionMode::Quality => ModeSettings {
                mode: parsed_mode,
                tts_backend: TtsBackend::Kokoro,
                chunk_chars: clamp(requested_max_chars, 700, 1_000),
                worker_count: clamp(spare, 1, 2),
                write_debug_text: true,
                initial_priority_pages: 0,
            },
        }
    }

    /// The name of the mode that the user reads.
    pub open spec fn label_text(self) -> Seq<char> {
        match self.mode {
            ConversionMode::SuperQuick => "Super Quick Draft"@,
            ConversionMode::FastExport => "Fast Export"@,
            ConversionMode::Quality => "Quality"@,
        }
    }

    /// The name of the mode that the user reads.
    pub fn label(self) -> (r: &'static str)
        ensures
            r@ == self.label_text(),
    {
        match self.mode {
            ConversionMode::SuperQuick => "Super Quick Draft",
            ConversionMode::FastExport => "Fast Export",
            ConversionMode::Quality => "Quality",
        }
    }

    /// The number of workers for a number of chunks: no more than there are
    /// chunks, and at least one.
    pub fn workers_for(self, chunk_count: usize) -> (r: usize)
        ensures
            r == vstd::math::min(self.worker_count as int, vstd::math::max(chunk_count as int, 1)),
    {
        let most: usize = if chunk_count == 0 {
            1
        } else {
            chunk_count
        };
        if self.worker_count < most {
            self.worker_count
        } else {
            most
        }
    }
}

/// Whatever is asked for, and however many processors there are, a chunk may
/// hold between 700 and 5000 characters, and between 1 and 8 chunks are spoken
/// at the same time.
pub proof fn law_settings_are_in_range(
    mode: ConversionMode,
    requested_max_chars: usize,
    cpu_count: Option<usize>,
)
    ensures
        700 <= settings_of(mode, requested_max_chars, cpu_count).chunk_chars <= 5_000,
        1 <= settings_of(mode, requested_max_chars, cpu_count).worker_count <= 8,
{
}

/// The faster a mode, the longer its chunks and the more of them are spoken at
/// the same time.
pub proof fn law_faster_modes_do_more_at_once(requested_max_chars: usize, cpu_count: Option<usize>)
    ensures
        settings_of(ConversionMode::Quality, requested_max_chars, cpu_count).chunk_chars
            < settings_of(
            ConversionMode::FastExport,
            requested_max_chars,
            cpu_count,
        ).chunk_chars < settings_of(
            ConversionMode::SuperQuick,
            requested_max_chars,
            cpu_count,
        ).chunk_chars,
        settings_of(ConversionMode::Quality, requested_max_chars, cpu_count).worker_count
            <= settings_of(
            ConversionMode::FastExport,
            requested_max_chars,
            cpu_count,
        ).worker_count <= settings_of(
            ConversionMode::SuperQuick,
            requested_max_chars,
            cpu_count,
        ).worker_count,
{
}

} // verus!
