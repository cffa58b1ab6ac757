//! What the user is told while a paper is converted, and what is done when a
//! chunk cannot be spoken.

use vstd::prelude::*;

use crate::mode::{ModeSettings, TtsBackend};
use crate::numbers;
use crate::paths;

verus! {

broadcast use vstd::string::group_string_axioms;

// ---------------------------------------------------------------------------
// Messages
// ---------------------------------------------------------------------------

/// The most characters of an error that the user is shown.
pub const SHORT_ERROR_CHARS: usize = 180;

/// An error in short: its first characters, with dots where there are more.
pub open spec fn shortened(message: Seq<char>) -> Seq<char> {
    if message.len() > SHORT_ERROR_CHARS {
        message.take(SHORT_ERROR_CHARS as int) + "..."@
    } else {
        message
    }
}

/// An error in short.
pub fn short_error(message: &str) -> (r: String)
    ensures
        r@ == shortened(message@),
{
    let mut out = String::new();
    for c in it: message.chars()
        invariant
            it.seq() == message@,
            it.index() <= SHORT_ERROR_CHARS,
            out@ == message@.take(it.index() as int),
    {
        if out.as_str().unicode_len() == SHORT_ERROR_CHARS {
            out.append("...");
            return out;
        }
        proof {
            assert(message@.take(it.index() + 1) =~= out@.push(c));
        }
        out.push(c);
    }
    proof {
        assert(message@.take(message@.len() as int) =~= message@);
    }
    out
}

/// What is said of a panic. `message` is what the panic carried, if that is a
/// text.
pub fn panic_message(message: Option<String>) -> (r: String)
    ensures
        r@ == match message {
            Some(m) => m@,
            None => "unknown panic"@,
        },
{
    match message {
        Some(m) => m,
        None => "unknown panic".to_owned(),
    }
}

/// The message before the text is extracted.
pub fn extracting(settings: ModeSettings) -> (r: String)
    ensures
        r@ == "Extracting PDF in "@ + settings.label_text() + " mode..."@,
{
    let mut out = "Extracting PDF in ".to_owned();
    out.append(settings.label());
    out.append(" mode...");
    out
}

/// The message before the chunks are spoken.
pub fn generating(settings: ModeSettings, worker_count: usize) -> (r: String)
    ensures
        r@ == "Generating audio in "@ + settings.label_text() + " mode with "@ + numbers::decimal(
            worker_count as nat,
        ) + " worker"@ + (if worker_count == 1 {
            ""@
        } else {
            "s"@
        }) + "..."@,
{
    let mut out = "Generating audio in ".to_owned();
    out.append(settings.label());
    out.append(" mode with ");
    out.append(numbers::to_decimal(worker_count as u64).as_str());
    out.append(" worker");
    if worker_count == 1 {
        out.append("");
    } else {
        out.append("s");
    }
    out.append("...");
    out
}

/// The message when a number of chunks is done.
pub fn chunk_progress(number: usize, total: usize) -> (r: String)
    ensures
        r@ == "Generating audio chunk "@ + numbers::decimal(number as nat) + " / "@
            + numbers::decimal(total as nat) + "..."@,
{
    let mut out = "Generating audio chunk ".to_owned();
    out.append(numbers::to_decimal(number as u64).as_str());
    out.append(" / ");
    out.append(numbers::to_decimal(total as u64).as_str());
    out.append("...");
    out
}

/// The message when the audiobook is there.
pub fn saved(output_path: &str) -> (r: String)
    ensures
        r@ == "Done. Saved "@ + (match paths::name_of(output_path@) {
            Some(name) => name,
            None => "audiobook.m4b"@,
        }) + " in ~/Documents/Paper2Voice/."@,
{
    let mut out = "Done. Saved ".to_owned();
    match paths::file_name(output_path) {
        Some(name) => {
            out.append(name.as_str());
        },
        None => {
            out.append("audiobook.m4b");
        },
    }
    out.append(" in ~/Documents/Paper2Voice/.");
    out
}

// ---------------------------------------------------------------------------
// Chunks that cannot be spoken
// ---------------------------------------------------------------------------

/// How often it was tried to speak a chunk.
#[derive(Clone, Copy, Debug, PartialEq, Eq, Structural)]
pub enum Attempt {
    First,
    Second,
}

/// What is done after it was tried to speak a chunk.
pub enum NextStep {
    /// The audio is kept. Where the speech model was started anew for it, that
    /// one speaks the chunks to come in place of the one before.
    Keep { replace_engine: bool },
    /// The user is told, and it is tried a second time, with the speech model
    /// started anew or not.
    Retry { message: String, fresh_engine: bool },
    /// The user is told, and silence stands for the chunk.
    Silence { message: String },
}

/// What the user is told of a chunk that could not be spoken.
pub open spec fn failure_text(
    backend: TtsBackend,
    attempt: Attempt,
    number: int,
    total: int,
    error: Seq<char>,
) -> Seq<char> {
    let lead = match backend {
        TtsBackend::MacosSay => "Fast speech chunk "@,
        TtsBackend::Kokoro => "Chunk "@,
    };
    let what = match attempt {
        Attempt::First => " failed once; retrying. "@,
        Attempt::Second => " failed after retry; inserting silence and continuing. "@,
    };
    lead + numbers::decimal(number as nat) + " / "@ + numbers::decimal(total as nat) + what
        + shortened(error)
}

/// What is done after it was tried to speak the chunk with this number. `error` is
/// what went wrong, if anything did.
pub fn after_attempt(
    backend: TtsBackend,
    attempt: Attempt,
    number: usize,
    total: usize,
    error: Option<String>,
) -> (r: NextStep)
    ensures
        match r {
            NextStep::Keep { replace_engine } => {
                &&& error is None
                &&& replace_engine == (backend is Kokoro && attempt is Second)
            },
            NextStep::Retry { message, fresh_engine } => {
                &&& attempt is First
                &&& fresh_engine == (backend is Kokoro)
                &&& error matches Some(e)
                &&& message@ == failure_text(
                    backend,
                    Attempt::First,
                    number as int,
                    total as int,
                    e@,
                )
            },
            NextStep::Silence { message } => {
                &&& attempt is Second
                &&& error matches Some(e)
                &&& message@ == failure_text(
                    backend,
                    Attempt::Second,
                    number as int,
                    total as int,
                    e@,
                )
            },
        },
{
    let restarts = match backend {
        TtsBackend::MacosSay => false,
        TtsBackend::Kokoro => true,
    };
    let error = match error {
        Some(error) => error,
        None => {
            let replace_engine = match attempt {
                Attempt::First => false,
                Attempt::Second => restarts,
            };
            return NextStep::Keep { replace_engine };
        },
    };
    let mut message = match backend {
        TtsBackend::MacosSay => "Fast speech chunk ".to_owned(),
        TtsBackend::Kokoro => "Chunk ".to_owned(),
    };
    message.append(numbers::to_decimal(number as u64).as_str());
    message.append(" / ");
    message.append(numbers::to_decimal(total as u64).as_str());
    match attempt {
        Attempt::First => {
            message.append(" failed once; retrying. ");
            message.append(short_error(error.as_str()).as_str());
            NextStep::Retry { message, fresh_engine: restarts }
        },
        Attempt::Second => {
            message.append(" failed after retry; inserting silence and continuing. ");
            message.append(short_error(error.as_str()).as_str());
            NextStep::Silence { message }
        },
    }
}

// ---------------------------------------------------------------------------
// Laws
// ---------------------------------------------------------------------------

/// However long an error is, the user is shown no more than its first characters
/// and three dots.
pub proof fn law_short_errors_are_short(message: Seq<char>)
    ensures
        shortened(message).len() <= SHORT_ERROR_CHARS + 3,
{
    reveal_strlit("...");
}

} // verus!
