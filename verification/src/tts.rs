//! Speech: the files in which it is kept, the programs that make it, and what
//! those programs report.

use vstd::prelude::*;

use crate::errors::Failure;
use crate::numbers;
use crate::paths;
use crate::text;

verus! {

broadcast use vstd::string::group_string_axioms;

// ---------------------------------------------------------------------------
// Files
// ---------------------------------------------------------------------------

/// The name of a file that belongs to a chunk. The first chunk has the number 1.
pub open spec fn chunk_name(number: int, extension: Seq<char>) -> Seq<char> {
    "chunk_"@ + numbers::padded(number as nat, 4) + extension
}

/// The path of a file that belongs to a chunk. `extension` starts with a dot.
pub fn chunk_path(chunks_dir: &str, number: usize, extension: &str) -> (r: String)
    ensures
        r@ == paths::joined(chunks_dir@, chunk_name(number as int, extension@)),
{
    let mut name = "chunk_".to_owned();
    name.append(numbers::to_four_digits(number as u64).as_str());
    name.append(extension);
    paths::join(chunks_dir, name.as_str())
}

/// What is said of a chunk that the speech model failed to speak.
pub fn chunk_failure(number: usize) -> (r: String)
    ensures
        r@ == "TTS failed on "@ + chunk_name(number as int, ".txt"@),
{
    let mut out = "TTS failed on ".to_owned();
    out.append("chunk_");
    out.append(numbers::to_four_digits(number as u64).as_str());
    out.append(".txt");
    proof {
        assert(out@ =~= "TTS failed on "@ + chunk_name(number as int, ".txt"@));
    }
    out
}

/// The smallest size of the file of the speech model, in bytes.
pub const MIN_MODEL_BYTES: u64 = 1_000_000;

/// The smallest size of the file of the voices, in bytes.
pub const MIN_VOICES_BYTES: u64 = 1_000_000;

/// What is known of a file that is there.
#[derive(Clone, Copy, Debug, PartialEq, Eq, Structural)]
pub struct FileFacts {
    pub is_file: bool,
    pub bytes: u64,
}

/// Checks a file of the speech model: it must be there, be a file, and be large
/// enough to be whole.
pub fn validate_model_file(
    path: &str,
    label: &str,
    min_bytes: u64,
    found: Option<FileFacts>,
) -> (r: Result<(), Failure>)
    ensures
        match r {
            Ok(()) => found matches Some(facts) && facts.is_file && facts.bytes >= min_bytes,
            Err(Failure::ModelMissing { label: l, path: p }) => {
                &&& found is None
                &&& l@ == label@
                &&& p@ == path@
            },
            Err(Failure::ModelNotAFile { label: l, path: p }) => {
                &&& found matches Some(facts)
                &&& !facts.is_file
                &&& l@ == label@
                &&& p@ == path@
            },
            Err(Failure::ModelIncomplete { label: l, path: p, bytes }) => {
                &&& found matches Some(facts)
                &&& facts.is_file
                &&& facts.bytes < min_bytes
                &&& l@ == label@
                &&& p@ == path@
                &&& bytes == facts.bytes
            },
            Err(_) => false,
        },
{
    let facts = match found {
        Some(facts) => facts,
        None => {
            return Err(Failure::ModelMissing { label: label.to_owned(), path: path.to_owned() });
        },
    };
    if !facts.is_file {
        return Err(Failure::ModelNotAFile { label: label.to_owned(), path: path.to_owned() });
    }
    if facts.bytes < min_bytes {
        return Err(
            Failure::ModelIncomplete {
                label: label.to_owned(),
                path: path.to_owned(),
                bytes: facts.bytes,
            },
        );
    }
    Ok(())
}

// ---------------------------------------------------------------------------
// The speech engine of macOS
// ---------------------------------------------------------------------------

/// The text starts with the other.
pub open spec fn starts_with(s: Seq<char>, lead: Seq<char>) -> bool {
    lead.len() <= s.len() && s.take(lead.len() as int) == lead
}

/// The voice of macOS that stands for a voice: `Samantha` for the American
/// voices of the speech model, and any other voice for itself.
pub open spec fn say_voice(voice: Seq<char>) -> Seq<char> {
    if starts_with(voice, "af_"@) || starts_with(voice, "am_"@) {
        "Samantha"@
    } else {
        voice
    }
}

/// The voice of macOS that stands for a voice.
pub fn macos_say_voice(voice: &str) -> (r: String)
    ensures
        r@ == say_voice(voice@),
{
    let chars = text::to_chars(voice);
    proof {
        reveal_strlit("af_");
        reveal_strlit("am_");
        assert("af_"@ =~= seq!['a', 'f', '_']);
        assert("am_"@ =~= seq!['a', 'm', '_']);
        if chars@.len() >= 3 {
            assert(voice@.take(3) =~= seq![chars@[0], chars@[1], chars@[2]]);
            assert(voice@.take(3)[1] == chars@[1]);
        }
    }
    if chars.len() >= 3 && chars[0] == 'a' && (chars[1] == 'f' || chars[1] == 'm') && chars[2]
        == '_' {
        "Samantha".to_owned()
    } else {
        voice.to_owned()
    }
}

/// The arguments with which the speech engine of macOS is called. The text is
/// written to its input.
pub fn say_arguments(voice: &str, rate: u16, aiff_path: &str) -> (r: Vec<String>)
    ensures
        text::contents(r@) == seq![
            "-v"@,
            say_voice(voice@),
            "-r"@,
            numbers::decimal(rate as nat),
            "-o"@,
            aiff_path@,
        ],
{
    let mut out: Vec<String> = Vec::new();
    out.push("-v".to_owned());
    out.push(macos_say_voice(voice));
    out.push("-r".to_owned());
    out.push(numbers::to_decimal(rate as u64));
    out.push("-o".to_owned());
    out.push(aiff_path.to_owned());
    proof {
        assert(text::contents(out@) =~= seq![
            "-v"@,
            say_voice(voice@),
            "-r"@,
            numbers::decimal(rate as nat),
            "-o"@,
            aiff_path@,
        ]);
    }
    out
}

/// The arguments with which the audio converter of macOS makes a WAV file of
/// what the speech engine wrote.
pub fn to_wav_arguments(aiff_path: &str, wav_path: &str) -> (r: Vec<String>)
    ensures
        text::contents(r@) == seq![
            "-f"@,
            "WAVE"@,
            "-d"@,
            "LEI16@24000"@,
            aiff_path@,
            wav_path@,
        ],
{
    let mut out: Vec<String> = Vec::new();
    out.push("-f".to_owned());
    out.push("WAVE".to_owned());
    out.push("-d".to_owned());
    out.push("LEI16@24000".to_owned());
    out.push(aiff_path.to_owned());
    out.push(wav_path.to_owned());
    proof {
        assert(text::contents(out@) =~= seq![
            "-f"@,
            "WAVE"@,
            "-d"@,
            "LEI16@24000"@,
            aiff_path@,
            wav_path@,
        ]);
    }
    out
}

/// Checks how the speech engine of macOS ended. `report` is what it wrote of
/// its errors.
pub fn check_speech(succeeded: bool, report: &str) -> (r: Result<(), Failure>)
    ensures
        match r {
            Ok(()) => succeeded,
            Err(Failure::SpeechFailed { message }) => {
                &&& !succeeded
                &&& message@ == text::trimmed(report@)
            },
            Err(_) => false,
        },
{
    if !succeeded {
        return Err(Failure::SpeechFailed { message: text::trim(report) });
    }
    Ok(())
}

/// Checks how the audio converter of macOS ended. `report` is what it wrote of
/// its errors.
pub fn check_conversion(succeeded: bool, report: &str) -> (r: Result<(), Failure>)
    ensures
        match r {
            Ok(()) => succeeded,
            Err(Failure::ConversionFailed { message }) => {
                &&& !succeeded
                &&& message@ == text::trimmed(report@)
            },
            Err(_) => false,
        },
{
    if !succeeded {
        return Err(Failure::ConversionFailed { message: text::trim(report) });
    }
    Ok(())
}

// ---------------------------------------------------------------------------
// The speech model
// ---------------------------------------------------------------------------

/// The arguments with which Python is called to drive the speech model.
pub fn bridge_arguments(script: &str, model_path: &str, voices_path: &str) -> (r: Vec<String>)
    ensures
        text::contents(r@) == seq![script@, "--model"@, model_path@, "--voices"@, voices_path@],
{
    let mut out: Vec<String> = Vec::new();
    out.push(script.to_owned());
    out.push("--model".to_owned());
    out.push(model_path.to_owned());
    out.push("--voices".to_owned());
    out.push(voices_path.to_owned());
    proof {
        assert(text::contents(out@) =~= seq![
            script@,
            "--model"@,
            model_path@,
            "--voices"@,
            voices_path@,
        ]);
    }
    out
}

/// What the process that drives the speech model answers.
pub struct BridgeResponse {
    pub ok: bool,
    pub error: Option<String>,
}

/// What the process is asked for.
#[derive(Clone, Copy, Debug, PartialEq, Eq, Structural)]
pub enum BridgeRequest {
    /// To start.
    Start,
    /// To speak a chunk.
    Speak,
}

/// The error that an answer reports.
pub open spec fn reported(request: BridgeRequest, error: Option<Seq<char>>) -> Seq<char> {
    match error {
        Some(message) => message,
        None => match request {
            BridgeRequest::Start => "Kokoro bridge failed to start."@,
            BridgeRequest::Speak => "Kokoro bridge synthesis failed."@,
        },
    }
}

/// Checks an answer.
pub fn check_response(request: BridgeRequest, response: BridgeResponse) -> (r: Result<(), Failure>)
    ensures
        match r {
            Ok(()) => response.ok,
            Err(Failure::BridgeFailed { message }) => {
                &&& !response.ok
                &&& message@ == reported(request, paths::content(response.error))
            },
            Err(_) => false,
        },
{
    if response.ok {
        return Ok(());
    }
    let message = match response.error {
        Some(message) => message,
        None => match request {
            BridgeRequest::Start => "Kokoro bridge failed to start.".to_owned(),
            BridgeRequest::Speak => "Kokoro bridge synthesis failed.".to_owned(),
        },
    };
    Err(Failure::BridgeFailed { message })
}

/// The answer in a line that was read. Where nothing was read the process has
/// ended.
pub fn response_text(bytes_read: usize, line: &str) -> (r: Result<String, Failure>)
    ensures
        match r {
            Ok(answer) => bytes_read > 0 && answer@ == text::trimmed(line@),
            Err(Failure::BridgeClosed) => bytes_read == 0,
            Err(_) => false,
        },
{
    if bytes_read == 0 {
        return Err(Failure::BridgeClosed);
    }
    Ok(text::trim(line))
}

/// The number of words of a chunk for which silence is inserted, at least one.
pub fn placeholder_words(chunk: &str) -> (r: usize)
    ensures
        r == vstd::math::max(text::words(chunk@).len() as int, 1),
{
    let words = text::split_whitespace(chunk);
    proof {
        assert(text::contents(words@).len() == words@.len());
    }
    if words.len() == 0 {
        1
    } else {
        words.len()
    }
}

// ---------------------------------------------------------------------------
// Laws
// ---------------------------------------------------------------------------

/// No two chunks share a file.
pub proof fn law_chunks_have_files_of_their_own(
    chunks_dir: Seq<char>,
    i: nat,
    j: nat,
    extension: Seq<char>,
)
    requires
        i != j,
    ensures
        chunk_name(i as int, extension) != chunk_name(j as int, extension),
        paths::joined(chunks_dir, chunk_name(i as int, extension)) != paths::joined(
            chunks_dir,
            chunk_name(j as int, extension),
        ),
{
    reveal_strlit("chunk_");
    let a = numbers::padded(i, 4);
    let b = numbers::padded(j, 4);
    let x = chunk_name(i as int, extension);
    let y = chunk_name(j as int, extension);
    numbers::lemma_value_of_padded(i, 4);
    numbers::lemma_value_of_padded(j, 4);
    if x == y {
        assert(a.len() == b.len());
        assert(x.subrange(6, 6 + a.len() as int) =~= a);
        assert(y.subrange(6, 6 + b.len() as int) =~= b);
        assert(false);
    }
    assert(x[0] == 'c' && y[0] == 'c');
    let base = if chunks_dir.len() == 0 || chunks_dir.last() == '/' {
        chunks_dir
    } else {
        chunks_dir.push('/')
    };
    assert(paths::joined(chunks_dir, x) == base + x);
    assert(paths::joined(chunks_dir, y) == base + y);
    if base + x == base + y {
        assert((base + x).skip(base.len() as int) =~= x);
        assert((base + y).skip(base.len() as int) =~= y);
    }
}

} // verus!
