//! What can go wrong, and how it is told to the user.

use vstd::prelude::*;

use crate::numbers;

verus! {

broadcast use vstd::string::group_string_axioms;

/// A reason for which a conversion cannot go on.
#[derive(Debug)]
pub enum Failure {
    /// A file that must be there is not.
    FileMissing { label: String, path: String },
    /// Something other than a file stands where a file must be.
    NotAFile { label: String, path: String },
    /// A chunk may not be limited to no characters at all.
    ZeroMaxChars,
    /// The pages of the PDF hold next to no text.
    NoText,
    /// The PDF to convert is not there.
    PdfMissing { path: String },
    /// The file to convert is not a PDF.
    NotAPdf { path: String },
    /// Nothing is left to speak once the text is cleaned.
    NoChunks,
    /// No directory holds both the models and the scripts.
    RootMissing { searched: String },
    /// Neither of the tools that export audio is installed.
    NoExporter,
    /// The speech engine of macOS is not installed.
    SayMissing,
    /// The audio converter of macOS is not installed.
    ConverterMissing,
    /// The script that drives the speech model is not there.
    BridgeScriptMissing { path: String },
    /// The script that drives the speech model is nowhere around the program.
    BridgeScriptNotFound,
    /// A file of the speech model is not there.
    ModelMissing { label: String, path: String },
    /// Something other than a file stands where a file of the model must be.
    ModelNotAFile { label: String, path: String },
    /// A file of the speech model is too short to be whole.
    ModelIncomplete { label: String, path: String, bytes: u64 },
    /// The process that drives the speech model has ended.
    BridgeClosed,
    /// The process that drives the speech model reported a failure.
    BridgeFailed { message: String },
    /// The speech engine of macOS reported a failure.
    SpeechFailed { message: String },
    /// The audio converter of macOS reported a failure.
    ConversionFailed { message: String },
    /// No audio was made for a chunk. The first chunk has the number 1.
    ChunkMissing { number: usize },
    /// A worker that speaks with the speech engine of macOS panicked.
    SpeechWorkerPanicked,
    /// A worker that speaks with the speech model panicked.
    ModelWorkerPanicked,
    /// A worker panicked while it held what was made of the chunks.
    ResultsLost,
    /// There is no audio to merge.
    NoWavChunks,
    /// FFmpeg is needed and not installed.
    FfmpegMissing,
    /// A tool failed to export the audiobook.
    ExportFailed { tool: String, path: String },
    /// A WAV file cannot be read.
    WavUnreadable { path: String },
    /// The merged WAV file cannot be written in the format of the chunks.
    WavUnwritable { path: String },
    /// A WAV file differs in format from the first.
    WavMismatch { path: String },
    /// A WAV file ends early or holds samples that cannot be read.
    WavSampleUnreadable { path: String },
    /// There is no WAV file to merge.
    NothingToMerge,
    /// The header of the merged WAV file cannot count what the file holds.
    WavBeyondLimits { path: String },
    /// The saved session is no JSON.
    SessionUnreadable { path: String, error: String },
}

impl Failure {
    /// The words in which the user is told.
    pub open spec fn text(self) -> Seq<char> {
        match self {
            Failure::FileMissing { label, path } => label@ + " not found: "@ + path@,
            Failure::NotAFile { label, path } => label@ + " is not a file: "@ + path@,
            Failure::ZeroMaxChars => "--max-chars must be greater than zero."@,
            Failure::NoText =>
                "No extractable text found. This PDF may be scanned or image-based. MVP only supports selectable-text PDFs."@,
            Failure::PdfMissing { path } => "PDF not found: "@ + path@,
            Failure::NotAPdf { path } => "Selected file is not a PDF: "@ + path@,
            Failure::NoChunks => "No chunks were generated from the PDF text."@,
            Failure::RootMissing { searched } =>
                "Could not find project root containing models/ and scripts/. Searched from: "@
                + searched@,
            Failure::NoExporter =>
                "No audio exporter found. Paper2Voice needs FFmpeg or macOS afconvert."@,
            Failure::SayMissing => "macOS speech engine not found at /usr/bin/say."@,
            Failure::ConverterMissing => "macOS audio converter not found at /usr/bin/afconvert."@,
            Failure::BridgeScriptMissing { path } => "Kokoro bridge script not found: "@ + path@,
            Failure::BridgeScriptNotFound =>
                "Could not find scripts/kokoro_bridge.py from the app runtime location."@,
            Failure::ModelMissing { label, path } => label@ + " file not found: "@ + path@,
            Failure::ModelNotAFile { label, path } => label@ + " path is not a file: "@ + path@,
            Failure::ModelIncomplete { label, path, bytes } => label@ + " file looks incomplete: "@
                + path@ + " ("@ + numbers::decimal(bytes as nat) + " bytes)"@,
            Failure::BridgeClosed => "Kokoro bridge exited unexpectedly."@,
            Failure::BridgeFailed { message } => message@,
            Failure::SpeechFailed { message } => "macOS speech engine failed: "@ + message@,
            Failure::ConversionFailed { message } =>
                "afconvert failed while creating WAV chunk: "@ + message@,
            Failure::ChunkMissing { number } => "TTS failed to produce chunk_"@ + numbers::padded(
                number as nat,
                4,
            ) + ".wav"@,
            Failure::SpeechWorkerPanicked => "A macOS speech worker panicked."@,
            Failure::ModelWorkerPanicked => "A TTS worker panicked."@,
            Failure::ResultsLost => "TTS worker result lock poisoned."@,
            Failure::NoWavChunks => "No WAV chunks were generated."@,
            Failure::FfmpegMissing => "FFmpeg not found. Install it with: brew install ffmpeg"@,
            Failure::ExportFailed { tool, path } => tool@ + " failed while creating audiobook: "@
                + path@,
            Failure::WavUnreadable { path } => "Failed to open WAV chunk: "@ + path@,
            Failure::WavUnwritable { path } => "Failed to create merged WAV: "@ + path@,
            Failure::WavMismatch { path } => "WAV chunk format mismatch while merging: "@ + path@,
            Failure::WavSampleUnreadable { path } => "Failed to read WAV sample from "@ + path@,
            Failure::NothingToMerge => "No WAV chunks were provided for merge."@,
            Failure::WavBeyondLimits { path } => "Merged WAV exceeds the limits of its format: "@
                + path@,
            Failure::SessionUnreadable { path, error } =>
                "Failed to read saved Paper2Voice session at "@ + path@ + ": "@ + error@,
        }
    }

    /// The words in which the user is told.
    pub fn message(&self) -> (r: String)
        ensures
            r@ == self.text(),
    {
        match self {
            Failure::FileMissing { label, path } => between(label, " not found: ", path),
            Failure::NotAFile { label, path } => between(label, " is not a file: ", path),
            Failure::ZeroMaxChars => "--max-chars must be greater than zero.".to_owned(),
            Failure::NoText =>
                "No extractable text found. This PDF may be scanned or image-based. MVP only supports selectable-text PDFs.".to_owned(),
            Failure::PdfMissing { path } => behind("PDF not found: ", path),
            Failure::NotAPdf { path } => behind("Selected file is not a PDF: ", path),
            Failure::NoChunks => "No chunks were generated from the PDF text.".to_owned(),
            Failure::RootMissing { searched } => behind(
                "Could not find project root containing models/ and scripts/. Searched from: ",
                searched,
            ),
            Failure::NoExporter =>
                "No audio exporter found. Paper2Voice needs FFmpeg or macOS afconvert.".to_owned(),
            Failure::SayMissing => "macOS speech engine not found at /usr/bin/say.".to_owned(),
            Failure::ConverterMissing =>
                "macOS audio converter not found at /usr/bin/afconvert.".to_owned(),
            Failure::BridgeScriptMissing { path } => behind("Kokoro bridge script not found: ", path),
            Failure::BridgeScriptNotFound =>
                "Could not find scripts/kokoro_bridge.py from the app runtime location.".to_owned(),
            Failure::ModelMissing { label, path } => between(label, " file not found: ", path),
            Failure::ModelNotAFile { label, path } => between(label, " path is not a file: ", path),
            Failure::ModelIncomplete { label, path, bytes } => {
                let mut out = between(label, " file looks incomplete: ", path);
                out.append(" (");
                out.append(numbers::to_decimal(*bytes).as_str());
                out.append(" bytes)");
                out
            },
            Failure::BridgeClosed => "Kokoro bridge exited unexpectedly.".to_owned(),
            Failure::BridgeFailed { message } => message.as_str().to_owned(),
            Failure::SpeechFailed { message } => behind("macOS speech engine failed: ", message),
            Failure::ConversionFailed { message } => behind(
                "afconvert failed while creating WAV chunk: ",
                message,
            ),
            Failure::ChunkMissing { number } => {
                let mut out = "TTS failed to produce chunk_".to_owned();
                out.append(numbers::to_four_digits(*number as u64).as_str());
                out.append(".wav");
                out
            },
            Failure::SpeechWorkerPanicked => "A macOS speech worker panicked.".to_owned(),
            Failure::ModelWorkerPanicked => "A TTS worker panicked.".to_owned(),
            Failure::ResultsLost => "TTS worker result lock poisoned.".to_owned(),
            Failure::NoWavChunks => "No WAV chunks were generated.".to_owned(),
            Failure::FfmpegMissing =>
                "FFmpeg not found. Install it with: brew install ffmpeg".to_owned(),
            Failure::ExportFailed { tool, path } => between(
                tool,
                " failed while creating audiobook: ",
                path,
            ),
            Failure::WavUnreadable { path } => behind("Failed to open WAV chunk: ", path),
            Failure::WavUnwritable { path } => behind("Failed to create merged WAV: ", path),
            Failure::WavMismatch { path } => behind("WAV chunk format mismatch while merging: ", path),
            Failure::WavSampleUnreadable { path } => behind("Failed to read WAV sample from ", path),
            Failure::NothingToMerge => "No WAV chunks were provided for merge.".to_owned(),
            Failure::WavBeyondLimits { path } => behind(
                "Merged WAV exceeds the limits of its format: ",
                path,
            ),
            Failure::SessionUnreadable { path, error } => {
                let mut out = behind("Failed to read saved Paper2Voice session at ", path);
                out.append(": ");
                out.append(error.as_str());
                out
            },
        }
    }
}

fn behind(lead: &str, rest: &String) -> (r: String)
    ensures
        r@ == lead@ + rest@,
{
    let mut out = lead.to_owned();
    out.append(rest.as_str());
    out
}

fn between(first: &String, middle: &str, last: &String) -> (r: String)
    ensures
        r@ == first@ + middle@ + last@,
{
    let mut out = first.as_str().to_owned();
    out.append(middle);
    out.append(last.as_str());
    out
}

/// Checks that a file is there, given what was found at its path.
pub fn ensure_file_exists(path: &str, label: &str, exists: bool, is_file: bool) -> (r: Result<
    (),
    Failure,
>)
    ensures
        match r {
            Ok(()) => exists && is_file,
            Err(Failure::FileMissing { label: l, path: p }) => !exists && l@ == label@ && p@ == path@,
            Err(Failure::NotAFile { label: l, path: p }) => exists && !is_file && l@ == label@ && p@
                == path@,
            Err(_) => false,
        },
{
    if !exists {
        return Err(Failure::FileMissing { label: label.to_owned(), path: path.to_owned() });
    }
    if !is_file {
        return Err(Failure::NotAFile { label: label.to_owned(), path: path.to_owned() });
    }
    Ok(())
}

/// Checks the limit on the characters of a chunk.
pub fn ensure_max_chars(max_chars: usize) -> (r: Result<(), Failure>)
    ensures
        match r {
            Ok(()) => max_chars > 0,
            Err(Failure::ZeroMaxChars) => max_chars == 0,
            Err(_) => false,
        },
{
    if max_chars == 0 {
        return Err(Failure::ZeroMaxChars);
    }
    Ok(())
}

} // verus!
