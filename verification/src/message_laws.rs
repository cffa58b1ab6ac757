//! What stands in the messages, the names and the settings that the user sees.

use vstd::prelude::*;

use crate::errors::Failure;
use crate::mode;
use crate::mode::{ConversionMode, TtsBackend};
use crate::numbers;
use crate::progress;
use crate::progress::Attempt;
use crate::tts;

verus! {

// ---------------------------------------------------------------------------
// Numbers
// ---------------------------------------------------------------------------

/// A number is written with the digits 0 to 9, without a zero in front unless it
/// is zero, and can be read back.
pub proof fn law_numbers_are_read_back(n: nat)
    ensures
        numbers::decimal(n).len() > 0,
        forall|i: int|
            0 <= i < numbers::decimal(n).len() ==> '0' <= #[trigger] numbers::decimal(n)[i] <= '9',
        n > 0 ==> numbers::decimal(n)[0] != '0',
        n < 10 ==> numbers::decimal(n).len() == 1,
        numbers::value(numbers::decimal(n)) == n,
    decreases n,
{
    let s = numbers::decimal(n);
    numbers::lemma_value_of_decimal(n);
    if n >= 10 {
        law_numbers_are_read_back(n / 10);
        let front = numbers::decimal(n / 10);
        assert forall|i: int| 0 <= i < s.len() implies '0' <= #[trigger] s[i] <= '9' by {
            if i < front.len() {
                assert(s[i] == front[i]);
            }
        }
        assert(s[0] == front[0]);
    }
}

/// Ten times a number and a digit is written as the number and then the digit.
pub proof fn law_digits_follow_each_other(n: nat, d: nat)
    requires
        n > 0,
        d < 10,
    ensures
        numbers::decimal(10 * n + d).len() == numbers::decimal(n).len() + 1,
        numbers::decimal(10 * n + d).drop_last() == numbers::decimal(n),
        numbers::decimal(10 * n + d).last() as u32 == '0' as u32 + d,
{
    let m = 10 * n + d;
    assert(m / 10 == n);
    assert(m % 10 == d);
    assert(numbers::decimal(m).drop_last() =~= numbers::decimal(n));
}

/// A number with zeros in front ends with the number, has nothing but zeros before
/// it, and is as wide as asked or as the number itself.
pub proof fn law_padding_is_zeros(n: nat, width: nat)
    ensures
        numbers::padded(n, width).len() == if numbers::decimal(n).len() < width {
            width
        } else {
            numbers::decimal(n).len()
        },
        numbers::padded(n, width).skip(
            numbers::padded(n, width).len() - numbers::decimal(n).len(),
        ) == numbers::decimal(n),
        forall|i: int|
            0 <= i < numbers::padded(n, width).len() - numbers::decimal(n).len() ==> (
            #[trigger] numbers::padded(n, width)[i]) == '0',
{
    let s = numbers::decimal(n);
    let p = numbers::padded(n, width);
    assert(p.skip(p.len() - s.len()) =~= s);
}

/// The name of a file of a chunk ends with the extension, and what stands before
/// the extension is the word `chunk`, an underscore and the number of the chunk.
pub proof fn law_chunk_files_are_named_by_number(number: nat, extension: Seq<char>)
    ensures
        tts::chunk_name(number as int, extension).skip(
            tts::chunk_name(number as int, extension).len() - extension.len(),
        ) == extension,
        tts::chunk_name(number as int, extension).take(6) == "chunk_"@,
        tts::chunk_name(number as int, extension).len() >= 10 + extension.len(),
        numbers::value(
            tts::chunk_name(number as int, extension).subrange(
                6,
                tts::chunk_name(number as int, extension).len() - extension.len(),
            ),
        ) == number,
{
    let name = tts::chunk_name(number as int, extension);
    let digits = numbers::padded(number, 4);
    reveal_strlit("chunk_");
    law_padding_is_zeros(number, 4);
    numbers::lemma_value_of_padded(number, 4);
    assert(name.skip(name.len() - extension.len()) =~= extension);
    assert(name.take(6) =~= "chunk_"@);
    assert(name.subrange(6, name.len() - extension.len()) =~= digits);
}

// ---------------------------------------------------------------------------
// Messages
// ---------------------------------------------------------------------------

/// An error of up to 180 characters is shown whole. Of a longer one the first 180
/// are shown, and three dots behind them.
pub proof fn law_errors_are_cut_at_the_limit(message: Seq<char>)
    ensures
        message.len() <= 180 ==> progress::shortened(message) == message,
        message.len() > 180 ==> {
            &&& progress::shortened(message).len() == 183
            &&& progress::shortened(message).take(180) == message.take(180)
            &&& progress::shortened(message).skip(180) == seq!['.', '.', '.']
        },
{
    reveal_strlit("...");
    if message.len() > 180 {
        let s = progress::shortened(message);
        assert(s.take(180) =~= message.take(180));
        assert(s.skip(180) =~= seq!['.', '.', '.']);
    }
}

/// What is said of a chunk that could not be spoken names the chunk and the number
/// of all chunks first, and ends with the error in short.
pub proof fn law_failures_name_the_chunk(
    backend: TtsBackend,
    attempt: Attempt,
    number: nat,
    total: nat,
    error: Seq<char>,
)
    ensures
        ({
            let message = progress::failure_text(
                backend,
                attempt,
                number as int,
                total as int,
                error,
            );
            let lead = match backend {
                TtsBackend::MacosSay => "Fast speech chunk "@,
                TtsBackend::Kokoro => "Chunk "@,
            } + numbers::decimal(number) + seq![' ', '/', ' '] + numbers::decimal(total);
            let what = match attempt {
                Attempt::First => " failed once; retrying. "@,
                Attempt::Second => " failed after retry; inserting silence and continuing. "@,
            };
            let short = progress::shortened(error);
            &&& message.len() == lead.len() + what.len() + short.len()
            &&& message.take(lead.len() as int) == lead
            &&& message.subrange(lead.len() as int, (lead.len() + what.len()) as int) == what
            &&& message.skip((lead.len() + what.len()) as int) == short
        }),
{
    let message = progress::failure_text(backend, attempt, number as int, total as int, error);
    reveal_strlit(" / ");
    assert(" / "@ =~= seq![' ', '/', ' ']);
    let lead = match backend {
        TtsBackend::MacosSay => "Fast speech chunk "@,
        TtsBackend::Kokoro => "Chunk "@,
    } + numbers::decimal(number) + seq![' ', '/', ' '] + numbers::decimal(total);
    let what = match attempt {
        Attempt::First => " failed once; retrying. "@,
        Attempt::Second => " failed after retry; inserting silence and continuing. "@,
    };
    let short = progress::shortened(error);
    assert(message =~= lead + what + short);
    assert(message.take(lead.len() as int) =~= lead);
    assert(message.subrange(lead.len() as int, (lead.len() + what.len()) as int) =~= what);
    assert(message.skip((lead.len() + what.len()) as int) =~= short);
}

// ---------------------------------------------------------------------------
// Voices and settings
// ---------------------------------------------------------------------------

/// An American voice of the speech model is spoken by one voice of macOS, whatever
/// its name is behind the first three characters. Any other voice speaks itself.
pub proof fn law_american_voices_share_a_voice(voice: Seq<char>)
    ensures
        voice.len() >= 3 && voice[0] == 'a' && (voice[1] == 'f' || voice[1] == 'm') && voice[2]
            == '_' ==> tts::say_voice(voice) == "Samantha"@,
        !(voice.len() >= 3 && voice[0] == 'a' && (voice[1] == 'f' || voice[1] == 'm') && voice[2]
            == '_') ==> tts::say_voice(voice) == voice,
{
    reveal_strlit("af_");
    reveal_strlit("am_");
    if voice.len() >= 3 {
        let lead = voice.take(3);
        assert(lead[0] == voice[0] && lead[1] == voice[1] && lead[2] == voice[2]);
        if voice[0] == 'a' && voice[1] == 'f' && voice[2] == '_' {
            assert(lead =~= "af_"@);
        }
        if voice[0] == 'a' && voice[1] == 'm' && voice[2] == '_' {
            assert(lead =~= "am_"@);
        }
    }
}

/// A chunk may be as long as was asked for, where the mode allows that length.
/// Elsewhere it may be as long as the length closest to it that the mode allows.
pub proof fn law_the_length_asked_for_is_kept(requested: usize, cpu_count: Option<usize>)
    ensures
        ({
            let quick = mode::settings_of(ConversionMode::SuperQuick, requested, cpu_count);
            let fast = mode::settings_of(ConversionMode::FastExport, requested, cpu_count);
            let best = mode::settings_of(ConversionMode::Quality, requested, cpu_count);
            &&& 3_500 <= requested <= 5_000 ==> quick.chunk_chars == requested
            &&& requested < 3_500 ==> quick.chunk_chars == 3_500
            &&& requested > 5_000 ==> quick.chunk_chars == 5_000
            &&& 1_600 <= requested <= 2_200 ==> fast.chunk_chars == requested
            &&& requested < 1_600 ==> fast.chunk_chars == 1_600
            &&& requested > 2_200 ==> fast.chunk_chars == 2_200
            &&& 700 <= requested <= 1_000 ==> best.chunk_chars == requested
            &&& requested < 700 ==> best.chunk_chars == 700
            &&& requested > 1_000 ==> best.chunk_chars == 1_000
        }),
{
}

/// One processor is left free, where the mode allows so many workers. Elsewhere
/// there are as many workers as the mode allows at most or at least.
pub proof fn law_one_processor_is_left_free(requested: usize, cpus: usize)
    ensures
        ({
            let quick = mode::settings_of(ConversionMode::SuperQuick, requested, Some(cpus));
            let fast = mode::settings_of(ConversionMode::FastExport, requested, Some(cpus));
            let best = mode::settings_of(ConversionMode::Quality, requested, Some(cpus));
            &&& 5 <= cpus <= 9 ==> quick.worker_count == cpus - 1
            &&& cpus < 5 ==> quick.worker_count == 4
            &&& cpus > 9 ==> quick.worker_count == 8
            &&& 3 <= cpus <= 7 ==> fast.worker_count == cpus - 1
            &&& cpus < 3 ==> fast.worker_count == 2
            &&& cpus > 7 ==> fast.worker_count == 6
            &&& 2 <= cpus <= 3 ==> best.worker_count == cpus - 1
            &&& cpus < 2 ==> best.worker_count == 1
            &&& cpus > 3 ==> best.worker_count == 2
        }),
        forall|mode: ConversionMode|
            #[trigger] mode::settings_of(mode, requested, None) == mode::settings_of(
                mode,
                requested,
                Some(2usize),
            ),
{
}

/// The mode alone decides which speech engine is used, whether text is written to
/// files, and how many pages come first.
pub proof fn law_the_mode_decides_the_rest(requested: usize, cpu_count: Option<usize>)
    ensures
        ({
            let quick = mode::settings_of(ConversionMode::SuperQuick, requested, cpu_count);
            let fast = mode::settings_of(ConversionMode::FastExport, requested, cpu_count);
            let best = mode::settings_of(ConversionMode::Quality, requested, cpu_count);
            &&& quick.mode is SuperQuick && fast.mode is FastExport && best.mode is Quality
            &&& quick.tts_backend is MacosSay && fast.tts_backend is Kokoro
                && best.tts_backend is Kokoro
            &&& !quick.write_debug_text && !fast.write_debug_text && best.write_debug_text
            &&& quick.initial_priority_pages == 3 && fast.initial_priority_pages == 0
                && best.initial_priority_pages == 0
        }),
{
}

/// Each mode but the quickest has one name; every other name stands for the
/// quickest.
pub proof fn law_modes_have_one_name(value: Seq<char>)
    ensures
        mode::mode_named(value) is FastExport <==> value == "fast_export"@,
        mode::mode_named(value) is Quality <==> value == "quality"@,
{
    reveal_strlit("fast_export");
    reveal_strlit("quality");
    assert("fast_export"@.len() != "quality"@.len());
}

// ---------------------------------------------------------------------------
// Failures
// ---------------------------------------------------------------------------

/// Two messages end with what each of them is about, and start alike.
pub open spec fn differ_at_the_end(
    m: Seq<char>,
    a: Seq<char>,
    n: Seq<char>,
    b: Seq<char>,
) -> bool {
    &&& a.len() <= m.len()
    &&& b.len() <= n.len()
    &&& m.skip(m.len() - a.len()) == a
    &&& n.skip(n.len() - b.len()) == b
    &&& m.take(m.len() - a.len()) == n.take(n.len() - b.len())
}

proof fn lemma_differ_at_the_end(lead: Seq<char>, a: Seq<char>, b: Seq<char>)
    ensures
        differ_at_the_end(lead + a, a, lead + b, b),
{
    let k = lead.len() as int;
    assert((lead + a).skip(k) =~= a);
    assert((lead + b).skip(k) =~= b);
    assert((lead + a).take(k) =~= lead);
    assert((lead + b).take(k) =~= lead);
}

/// What the user is told of a file ends with the whole path of the file, and is the
/// same for every file up to there.
pub proof fn law_messages_end_with_the_path(label: String, a: String, b: String)
    ensures
        differ_at_the_end(
            (Failure::FileMissing { label, path: a }).text(),
            a@,
            (Failure::FileMissing { label, path: b }).text(),
            b@,
        ),
        differ_at_the_end(
            (Failure::NotAFile { label, path: a }).text(),
            a@,
            (Failure::NotAFile { label, path: b }).text(),
            b@,
        ),
        differ_at_the_end(
            (Failure::PdfMissing { path: a }).text(),
            a@,
            (Failure::PdfMissing { path: b }).text(),
            b@,
        ),
        differ_at_the_end(
            (Failure::NotAPdf { path: a }).text(),
            a@,
            (Failure::NotAPdf { path: b }).text(),
            b@,
        ),
        differ_at_the_end(
            (Failure::RootMissing { searched: a }).text(),
            a@,
            (Failure::RootMissing { searched: b }).text(),
            b@,
        ),
        differ_at_the_end(
            (Failure::BridgeScriptMissing { path: a }).text(),
            a@,
            (Failure::BridgeScriptMissing { path: b }).text(),
            b@,
        ),
        differ_at_the_end(
            (Failure::ModelMissing { label, path: a }).text(),
            a@,
            (Failure::ModelMissing { label, path: b }).text(),
            b@,
        ),
        differ_at_the_end(
            (Failure::ModelNotAFile { label, path: a }).text(),
            a@,
            (Failure::ModelNotAFile { label, path: b }).text(),
            b@,
        ),
        differ_at_the_end(
            (Failure::ExportFailed { tool: label, path: a }).text(),
            a@,
            (Failure::ExportFailed { tool: label, path: b }).text(),
            b@,
        ),
        differ_at_the_end(
            (Failure::WavUnreadable { path: a }).text(),
            a@,
            (Failure::WavUnreadable { path: b }).text(),
            b@,
        ),
        differ_at_the_end(
            (Failure::WavUnwritable { path: a }).text(),
            a@,
            (Failure::WavUnwritable { path: b }).text(),
            b@,
        ),
        differ_at_the_end(
            (Failure::WavMismatch { path: a }).text(),
            a@,
            (Failure::WavMismatch { path: b }).text(),
            b@,
        ),
        differ_at_the_end(
            (Failure::WavSampleUnreadable { path: a }).text(),
            a@,
            (Failure::WavSampleUnreadable { path: b }).text(),
            b@,
        ),
        differ_at_the_end(
            (Failure::WavBeyondLimits { path: a }).text(),
            a@,
            (Failure::WavBeyondLimits { path: b }).text(),
            b@,
        ),
{
    lemma_differ_at_the_end(label@ + " not found: "@, a@, b@);
    lemma_differ_at_the_end(label@ + " is not a file: "@, a@, b@);
    lemma_differ_at_the_end("PDF not found: "@, a@, b@);
    lemma_differ_at_the_end("Selected file is not a PDF: "@, a@, b@);
    lemma_differ_at_the_end(
        "Could not find project root containing models/ and scripts/. Searched from: "@,
        a@,
        b@,
    );
    lemma_differ_at_the_end("Kokoro bridge script not found: "@, a@, b@);
    lemma_differ_at_the_end(label@ + " file not found: "@, a@, b@);
    lemma_differ_at_the_end(label@ + " path is not a file: "@, a@, b@);
    lemma_differ_at_the_end(label@ + " failed while creating audiobook: "@, a@, b@);
    lemma_differ_at_the_end("Failed to open WAV chunk: "@, a@, b@);
    lemma_differ_at_the_end("Failed to create merged WAV: "@, a@, b@);
    lemma_differ_at_the_end("WAV chunk format mismatch while merging: "@, a@, b@);
    lemma_differ_at_the_end("Failed to read WAV sample from "@, a@, b@);
    lemma_differ_at_the_end("Merged WAV exceeds the limits of its format: "@, a@, b@);
}

/// What the user is told of a program that failed ends with the whole report of the
/// program, and is the same for every report up to there.
pub proof fn law_messages_end_with_the_report(path: String, a: String, b: String)
    ensures
        (Failure::BridgeFailed { message: a }).text() == a@,
        differ_at_the_end(
            (Failure::SpeechFailed { message: a }).text(),
            a@,
            (Failure::SpeechFailed { message: b }).text(),
            b@,
        ),
        differ_at_the_end(
            (Failure::ConversionFailed { message: a }).text(),
            a@,
            (Failure::ConversionFailed { message: b }).text(),
            b@,
        ),
        differ_at_the_end(
            (Failure::SessionUnreadable { path, error: a }).text(),
            a@,
            (Failure::SessionUnreadable { path, error: b }).text(),
            b@,
        ),
{
    lemma_differ_at_the_end("macOS speech engine failed: "@, a@, b@);
    lemma_differ_at_the_end("afconvert failed while creating WAV chunk: "@, a@, b@);
    lemma_differ_at_the_end(
        "Failed to read saved Paper2Voice session at "@ + path@ + ": "@,
        a@,
        b@,
    );
}

/// An answer of the speech model that reports an error is taken at its word.
pub proof fn law_reports_are_taken_at_their_word(request: tts::BridgeRequest, message: Seq<char>)
    ensures
        tts::reported(request, Some(message)) == message,
{
}

} // verus!
