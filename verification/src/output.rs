//! Where an audiobook and what belongs to it are kept, and what must be there
//! before one can be made.

use vstd::prelude::*;

use crate::errors::Failure;
use crate::mode::{ModeSettings, TtsBackend};
use crate::paths;
use crate::search;
use crate::text;

verus! {

broadcast use vstd::string::group_string_axioms;

// ---------------------------------------------------------------------------
// The name of the audiobook
// ---------------------------------------------------------------------------

/// A character that cannot stand in the name of a file on every system.
pub open spec fn is_unsafe(c: char) -> bool {
    c == '/' || c == '\\' || c == ':' || c == '\0'
}

/// The character, or an underscore in place of one that is not safe.
pub open spec fn made_safe(c: char) -> char {
    if is_unsafe(c) {
        '_'
    } else {
        c
    }
}

/// The text without the dots at its start.
pub open spec fn undotted_start(s: Seq<char>) -> Seq<char>
    decreases s.len(),
{
    if s.len() > 0 && s[0] == '.' {
        undotted_start(s.skip(1))
    } else {
        s
    }
}

/// The text without the dots at its end.
pub open spec fn undotted_end(s: Seq<char>) -> Seq<char>
    decreases s.len(),
{
    if s.len() > 0 && s.last() == '.' {
        undotted_end(s.drop_last())
    } else {
        s
    }
}

/// The stem of a path in a form that can stand in the name of a file. It is
/// empty where nothing is left of the stem.
pub open spec fn safe_stem(path: Seq<char>) -> Seq<char> {
    let stem = match paths::stem_of(path) {
        Some(stem) => stem,
        None => "audiobook"@,
    };
    undotted_end(undotted_start(text::trimmed(stem.map_values(|c: char| made_safe(c)))))
}

/// The name of the audiobook of a PDF.
pub open spec fn audiobook_name(path: Seq<char>) -> Seq<char> {
    if safe_stem(path).len() == 0 {
        "audiobook.m4b"@
    } else {
        safe_stem(path) + ".m4b"@
    }
}

fn make_safe(s: &str) -> (r: String)
    ensures
        r@ == s@.map_values(|c: char| made_safe(c)),
{
    let ghost all = s@.map_values(|c: char| made_safe(c));
    let mut out = String::new();
    for c in it: s.chars()
        invariant
            it.seq() == s@,
            all == s@.map_values(|c: char| made_safe(c)),
            out@ == all.take(it.index() as int),
    {
        let kept = if c == '/' || c == '\\' || c == ':' || c == '\0' {
            '_'
        } else {
            c
        };
        proof {
            assert(all.take(it.index() + 1) =~= out@.push(kept));
        }
        out.push(kept);
    }
    proof {
        assert(all.take(s@.len() as int) =~= all);
    }
    out
}

fn trim_dots(s: &str) -> (r: String)
    ensures
        r@ == undotted_end(undotted_start(s@)),
{
    let chars = text::to_chars(s);
    let mut from: usize = 0;
    proof {
        assert(s@.skip(0) =~= s@);
    }
    while from < chars.len() && chars[from] == '.'
        invariant
            chars@ == s@,
            from <= chars@.len(),
            undotted_start(s@) == undotted_start(s@.skip(from as int)),
        decreases chars@.len() - from,
    {
        proof {
            assert(s@.skip(from as int).skip(1) =~= s@.skip(from + 1));
        }
        from += 1;
    }
    let mut to: usize = chars.len();
    let ghost tail = s@.skip(from as int);
    proof {
        assert(undotted_start(s@) == tail);
        assert(tail =~= s@.subrange(from as int, to as int));
    }
    while to > from && chars[to - 1] == '.'
        invariant
            chars@ == s@,
            from <= to <= chars@.len(),
            undotted_end(tail) == undotted_end(s@.subrange(from as int, to as int)),
        decreases to,
    {
        proof {
            assert(s@.subrange(from as int, to as int).drop_last() =~= s@.subrange(
                from as int,
                to - 1,
            ));
        }
        to -= 1;
    }
    text::slice_text(&chars, from, to)
}

/// The name of the audiobook of a PDF: its stem, in a form that can stand in
/// the name of a file.
pub fn output_file_name(input_pdf: &str) -> (r: String)
    ensures
        r@ == audiobook_name(input_pdf@),
{
    let stem = match paths::file_stem(input_pdf) {
        Some(stem) => stem,
        None => "audiobook".to_owned(),
    };
    let mut safe = trim_dots(text::trim(make_safe(stem.as_str()).as_str()).as_str());
    if safe.as_str().is_empty() {
        return "audiobook.m4b".to_owned();
    }
    safe.append(".m4b");
    safe
}

// ---------------------------------------------------------------------------
// Paths
// ---------------------------------------------------------------------------

/// The files and directories of a conversion.
pub struct AppPaths {
    pub project_root: String,
    pub output_dir: String,
    pub text_dir: String,
    pub chunks_dir: String,
    pub output_path: String,
    pub raw_text_path: String,
    pub cleaned_text_path: String,
    pub model_path: String,
    pub voices_path: String,
}

/// The directory in which audiobooks are kept.
pub open spec fn base_dir(documents: Seq<char>) -> Seq<char> {
    paths::joined(documents, "Paper2Voice"@)
}

impl AppPaths {
    /// The paths for the conversion of a PDF.
    pub fn new(project_root: &str, documents: &str, input_pdf: &str) -> (r: Self)
        ensures
            r.project_root@ == project_root@,
            r.output_dir@ == base_dir(documents@),
            r.text_dir@ == paths::joined(base_dir(documents@), "text"@),
            r.chunks_dir@ == paths::joined(base_dir(documents@), "chunks"@),
            r.output_path@ == paths::joined(base_dir(documents@), audiobook_name(input_pdf@)),
            r.raw_text_path@ == paths::joined(r.text_dir@, "raw.txt"@),
            r.cleaned_text_path@ == paths::joined(r.text_dir@, "cleaned.txt"@),
            r.model_path@ == paths::joined(project_root@, "models/kokoro-v1.0.onnx"@),
            r.voices_path@ == paths::joined(project_root@, "models/voices-v1.0.bin"@),
    {
        let output_dir = output_base_dir(documents);
        let text_dir = paths::join(output_dir.as_str(), "text");
        let name = output_file_name(input_pdf);
        AppPaths {
            model_path: paths::join(project_root, "models/kokoro-v1.0.onnx"),
            voices_path: paths::join(project_root, "models/voices-v1.0.bin"),
            raw_text_path: paths::join(text_dir.as_str(), "raw.txt"),
            cleaned_text_path: paths::join(text_dir.as_str(), "cleaned.txt"),
            project_root: project_root.to_owned(),
            chunks_dir: paths::join(output_dir.as_str(), "chunks"),
            output_path: paths::join(output_dir.as_str(), name.as_str()),
            text_dir,
            output_dir,
        }
    }

    /// The paths that a check of the dependencies looks at. They are those of a
    /// PDF with the name `audiobook.pdf`.
    pub fn for_dependency_check(project_root: &str, documents: &str) -> (r: Self)
        ensures
            r.project_root@ == project_root@,
            r.output_dir@ == base_dir(documents@),
            r.text_dir@ == paths::joined(base_dir(documents@), "text"@),
            r.chunks_dir@ == paths::joined(base_dir(documents@), "chunks"@),
            r.output_path@ == paths::joined(base_dir(documents@), audiobook_name("audiobook.pdf"@)),
            r.raw_text_path@ == paths::joined(r.text_dir@, "raw.txt"@),
            r.cleaned_text_path@ == paths::joined(r.text_dir@, "cleaned.txt"@),
            r.model_path@ == paths::joined(project_root@, "models/kokoro-v1.0.onnx"@),
            r.voices_path@ == paths::joined(project_root@, "models/voices-v1.0.bin"@),
    {
        AppPaths::new(project_root, documents, "audiobook.pdf")
    }
}

/// The directory in which audiobooks are kept.
pub fn output_base_dir(documents: &str) -> (r: String)
    ensures
        r@ == base_dir(documents@),
{
    paths::join(documents, "Paper2Voice")
}

/// The file in which the state of the application is kept.
pub fn session_path(documents: &str) -> (r: String)
    ensures
        r@ == paths::joined(base_dir(documents@), "session.json"@),
{
    paths::join(output_base_dir(documents).as_str(), "session.json")
}

/// The folder that shows a path: the one in which a file is, and a folder
/// itself.
pub fn folder_to_open(path: &str, is_file: bool) -> (r: String)
    ensures
        r@ == match paths::parent_of(path@) {
            Some(parent) => if is_file {
                parent
            } else {
                path@
            },
            None => path@,
        },
{
    if is_file {
        match paths::parent(path) {
            Some(parent) => {
                return parent;
            },
            None => {},
        }
    }
    path.to_owned()
}

/// The directories that a project root must hold.
pub fn required_dirs(root: &str) -> (r: (String, String))
    ensures
        r.0@ == paths::joined(root@, "models"@),
        r.1@ == paths::joined(root@, "scripts"@),
{
    (paths::join(root, "models"), paths::join(root, "scripts"))
}

// ---------------------------------------------------------------------------
// Checks
// ---------------------------------------------------------------------------

/// Checks that the input is a PDF that is there.
pub fn check_input(input_pdf: &str, exists: bool) -> (r: Result<(), Failure>)
    ensures
        match r {
            Ok(()) => exists && paths::is_extension_of(input_pdf@, "pdf"@),
            Err(Failure::PdfMissing { path }) => !exists && path@ == input_pdf@,
            Err(Failure::NotAPdf { path }) => {
                &&& exists
                &&& !paths::is_extension_of(input_pdf@, "pdf"@)
                &&& path@ == input_pdf@
            },
            Err(_) => false,
        },
{
    if !exists {
        return Err(Failure::PdfMissing { path: input_pdf.to_owned() });
    }
    if !paths::has_extension(input_pdf, "pdf") {
        return Err(Failure::NotAPdf { path: input_pdf.to_owned() });
    }
    Ok(())
}

/// What is installed.
#[derive(Clone, Copy, Debug, PartialEq, Eq, Structural)]
pub struct Installed {
    /// A tool that exports audio responds.
    pub exporter: bool,
    /// The speech engine of macOS is a file.
    pub say: bool,
    /// The audio converter of macOS is a file.
    pub converter: bool,
    /// The speech model is a file.
    pub model: bool,
    /// The voices of the speech model are a file.
    pub voices: bool,
    /// The script that drives the speech model is a file.
    pub bridge: bool,
}

/// Everything that a conversion needs is installed.
pub open spec fn is_ready(backend: TtsBackend, installed: Installed) -> bool {
    &&& installed.exporter
    &&& match backend {
        TtsBackend::MacosSay => installed.say && installed.converter,
        TtsBackend::Kokoro => installed.model && installed.voices && installed.bridge,
    }
}

/// The path of the script that drives the speech model.
pub fn bridge_script(project_root: &str) -> (r: String)
    ensures
        r@ == paths::joined(project_root@, search::BRIDGE_SCRIPT@),
{
    paths::join(project_root, search::BRIDGE_SCRIPT)
}

/// Checks that everything that a conversion needs is installed, and names the
/// first thing that is not.
pub fn ensure_dependencies(paths: &AppPaths, settings: ModeSettings, installed: Installed) -> (r:
    Result<(), Failure>)
    ensures
        match r {
            Ok(()) => is_ready(settings.tts_backend, installed),
            Err(Failure::NoExporter) => !installed.exporter,
            Err(Failure::SayMissing) => {
                &&& installed.exporter
                &&& settings.tts_backend is MacosSay
                &&& !installed.say
            },
            Err(Failure::ConverterMissing) => {
                &&& installed.exporter
                &&& settings.tts_backend is MacosSay
                &&& installed.say
                &&& !installed.converter
            },
            Err(Failure::ModelMissing { label, path }) => {
                &&& installed.exporter
                &&& settings.tts_backend is Kokoro
                &&& if !installed.model {
                    label@ == "Model"@ && path@ == paths.model_path@
                } else {
                    !installed.voices && label@ == "Voices"@ && path@ == paths.voices_path@
                }
            },
            Err(Failure::BridgeScriptMissing { path }) => {
                &&& installed.exporter
                &&& settings.tts_backend is Kokoro
                &&& installed.model
                &&& installed.voices
                &&& !installed.bridge
                &&& path@ == paths::joined(paths.project_root@, search::BRIDGE_SCRIPT@)
            },
            Err(_) => false,
        },
{
    if !installed.exporter {
        return Err(Failure::NoExporter);
    }
    match settings.tts_backend {
        TtsBackend::MacosSay => {
            if !installed.say {
                return Err(Failure::SayMissing);
            }
            if !installed.converter {
                return Err(Failure::ConverterMissing);
            }
            return Ok(());
        },
        TtsBackend::Kokoro => {},
    }
    if !installed.model {
        return Err(
            Failure::ModelMissing {
                label: "Model".to_owned(),
                path: paths.model_path.as_str().to_owned(),
            },
        );
    }
    if !installed.voices {
        return Err(
            Failure::ModelMissing {
                label: "Voices".to_owned(),
                path: paths.voices_path.as_str().to_owned(),
            },
        );
    }
    if !installed.bridge {
        return Err(
            Failure::BridgeScriptMissing { path: bridge_script(paths.project_root.as_str()) },
        );
    }
    Ok(())
}

/// What the user is told of the things that the application needs.
#[derive(Debug)]
pub struct DependencyStatus {
    pub ffmpeg_found: bool,
    pub ffmpeg_path: Option<String>,
    pub model_found: bool,
    pub voices_found: bool,
}

/// What the user is told, given the tools that were found.
pub fn check_dependencies(
    ffmpeg: Option<String>,
    afconvert: Option<String>,
    model_found: bool,
    voices_found: bool,
) -> (r: DependencyStatus)
    ensures
        paths::content(r.ffmpeg_path) == match ffmpeg {
            Some(path) => Some(path@),
            None => paths::content(afconvert),
        },
        r.ffmpeg_found == (ffmpeg is Some || afconvert is Some),
        r.model_found == model_found,
        r.voices_found == voices_found,
{
    let tool = match ffmpeg {
        Some(path) => Some(path),
        None => afconvert,
    };
    DependencyStatus { ffmpeg_found: tool.is_some(), ffmpeg_path: tool, model_found, voices_found }
}

// ---------------------------------------------------------------------------
// Laws
// ---------------------------------------------------------------------------

proof fn lemma_undotted(s: Seq<char>) -> (r: (int, int))
    ensures
        0 <= r.0 <= r.1 <= s.len(),
        undotted_end(undotted_start(s)) == s.subrange(r.0, r.1),
        r.0 < r.1 ==> s[r.0] != '.' && s[r.1 - 1] != '.',
{
    let a = lemma_undotted_start(s);
    let b = lemma_undotted_end(s.skip(a));
    assert(s.skip(a).take(b) =~= s.subrange(a, a + b));
    (a, a + b)
}

proof fn lemma_undotted_start(s: Seq<char>) -> (k: int)
    ensures
        0 <= k <= s.len(),
        undotted_start(s) == s.skip(k),
        k < s.len() ==> s[k] != '.',
    decreases s.len(),
{
    if s.len() > 0 && s[0] == '.' {
        let k = lemma_undotted_start(s.skip(1));
        assert(s.skip(1).skip(k) =~= s.skip(k + 1));
        k + 1
    } else {
        assert(s.skip(0) =~= s);
        0
    }
}

proof fn lemma_undotted_end(s: Seq<char>) -> (k: int)
    ensures
        0 <= k <= s.len(),
        undotted_end(s) == s.take(k),
        k > 0 ==> s[k - 1] != '.',
    decreases s.len(),
{
    if s.len() > 0 && s.last() == '.' {
        let k = lemma_undotted_end(s.drop_last());
        assert(s.drop_last().take(k) =~= s.take(k));
        k
    } else {
        assert(s.take(s.len() as int) =~= s);
        s.len() as int
    }
}

proof fn lemma_safe_stem(path: Seq<char>)
    ensures
        forall|i: int| 0 <= i < safe_stem(path).len() ==> !is_unsafe(#[trigger] safe_stem(path)[i]),
        safe_stem(path).len() > 0 ==> safe_stem(path)[0] != '.' && safe_stem(path).last() != '.',
{
    let stem = match paths::stem_of(path) {
        Some(stem) => stem,
        None => "audiobook"@,
    };
    let safe = stem.map_values(|c: char| made_safe(c));
    let (a, b) = text::lemma_trimmed_is_part(safe);
    let (c, d) = lemma_undotted(text::trimmed(safe));
    assert forall|i: int| 0 <= i < safe_stem(path).len() implies !is_unsafe(
        #[trigger] safe_stem(path)[i],
    ) by {
        assert(safe_stem(path)[i] == text::trimmed(safe)[c + i]);
        assert(text::trimmed(safe)[c + i] == safe[a + c + i]);
        assert(safe[a + c + i] == made_safe(stem[a + c + i]));
    }
}

/// The name of an audiobook holds no character that is not safe, does not start
/// with a dot, and ends in `.m4b` with no other dot in front of it.
pub proof fn law_audiobook_name_is_safe(path: Seq<char>)
    ensures
        forall|i: int|
            0 <= i < audiobook_name(path).len() ==> !is_unsafe(#[trigger] audiobook_name(path)[i]),
        audiobook_name(path).len() > 4,
        audiobook_name(path).skip(audiobook_name(path).len() - 4) == ".m4b"@,
        audiobook_name(path)[0] != '.',
        audiobook_name(path)[audiobook_name(path).len() - 5] != '.',
{
    lemma_safe_stem(path);
    reveal_strlit("audiobook.m4b");
    reveal_strlit(".m4b");
    let name = audiobook_name(path);
    assert forall|i: int| 0 <= i < name.len() implies !is_unsafe(#[trigger] name[i]) by {
        if safe_stem(path).len() > 0 {
            if i < safe_stem(path).len() {
                assert(name[i] == safe_stem(path)[i]);
            } else {
                assert(name[i] == ".m4b"@[i - safe_stem(path).len()]);
            }
        }
    }
    assert(name.skip(name.len() - 4) =~= ".m4b"@);
}

/// Whatever the PDF is called, its audiobook stands in the directory of the
/// audiobooks itself, under its own name.
pub proof fn law_audiobook_stays_in_its_folder(documents: Seq<char>, path: Seq<char>)
    ensures
        paths::name_of(paths::joined(base_dir(documents), audiobook_name(path))) == Some(
            audiobook_name(path),
        ),
        paths::parent_of(paths::joined(base_dir(documents), audiobook_name(path))) == Some(
            paths::stripped(base_dir(documents)),
        ),
{
    law_audiobook_name_is_safe(path);
    let name = audiobook_name(path);
    assert forall|i: int| 0 <= i < name.len() implies #[trigger] name[i] != '/' by {
        assert(!is_unsafe(name[i]));
    }
    assert(name.len() > 4);
    assert(seq!['.'].len() == 1 && seq!['.', '.'].len() == 2);
    assert(paths::is_plain_name(name));
    paths::law_joined_name_stays_below(base_dir(documents), name);
}

/// A stem that is safe as it stands, without white space or dots at its ends,
/// is the stem of the audiobook.
pub proof fn law_plain_stems_are_kept(path: Seq<char>, stem: Seq<char>)
    requires
        paths::stem_of(path) == Some(stem),
        stem.len() > 0,
        forall|i: int| 0 <= i < stem.len() ==> !is_unsafe(#[trigger] stem[i]),
        text::is_tight(stem),
        stem[0] != '.',
        stem.last() != '.',
    ensures
        audiobook_name(path) == stem + ".m4b"@,
{
    assert(stem.map_values(|c: char| made_safe(c)) =~= stem);
    text::lemma_tight_is_trimmed(stem);
}

} // verus!
