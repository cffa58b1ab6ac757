//! Exporting the audio of all chunks as one audiobook.

use vstd::prelude::*;

use crate::errors::Failure;
use crate::paths;
use crate::text;

verus! {

broadcast use vstd::string::group_string_axioms;

/// A program that exports audio, and where it is.
pub enum Exporter {
    Ffmpeg { path: String },
    Afconvert { path: String },
}

/// Checks that there is audio to export.
pub fn require_wav_chunks(count: usize) -> (r: Result<(), Failure>)
    ensures
        match r {
            Ok(()) => count > 0,
            Err(Failure::NoWavChunks) => count == 0,
            Err(_) => false,
        },
{
    if count == 0 {
        return Err(Failure::NoWavChunks);
    }
    Ok(())
}

/// The program that exports the audiobook: FFmpeg where it is installed, or
/// else the audio converter of macOS.
pub fn choose_exporter(ffmpeg: Option<String>, afconvert: Option<String>) -> (r: Result<
    Exporter,
    Failure,
>)
    ensures
        match r {
            Ok(Exporter::Ffmpeg { path }) => paths::content(ffmpeg) == Some(path@),
            Ok(Exporter::Afconvert { path }) => {
                &&& ffmpeg is None
                &&& paths::content(afconvert) == Some(path@)
            },
            Err(Failure::FfmpegMissing) => ffmpeg is None && afconvert is None,
            Err(_) => false,
        },
{
    match ffmpeg {
        Some(path) => Ok(Exporter::Ffmpeg { path }),
        None => match afconvert {
            Some(path) => Ok(Exporter::Afconvert { path }),
            None => Err(Failure::FfmpegMissing),
        },
    }
}

/// Checks that FFmpeg still responds.
pub fn ensure_ffmpeg_available(succeeded: bool) -> (r: Result<(), Failure>)
    ensures
        match r {
            Ok(()) => succeeded,
            Err(Failure::FfmpegMissing) => !succeeded,
            Err(_) => false,
        },
{
    if !succeeded {
        return Err(Failure::FfmpegMissing);
    }
    Ok(())
}

/// Checks how the program that exports the audiobook ended.
pub fn check_export(tool: &str, succeeded: bool, output_path: &str) -> (r: Result<(), Failure>)
    ensures
        match r {
            Ok(()) => succeeded,
            Err(Failure::ExportFailed { tool: t, path }) => {
                &&& !succeeded
                &&& t@ == tool@
                &&& path@ == output_path@
            },
            Err(_) => false,
        },
{
    if !succeeded {
        return Err(
            Failure::ExportFailed { tool: tool.to_owned(), path: output_path.to_owned() },
        );
    }
    Ok(())
}

// ---------------------------------------------------------------------------
// The list of files for FFmpeg
// ---------------------------------------------------------------------------

/// A path as it stands between single quotes: a quote in it is written as a
/// quote that ends the quoted part, a quote behind a backslash, and a quote
/// that starts the next quoted part.
pub open spec fn escaped(path: Seq<char>) -> Seq<char>
    decreases path.len(),
{
    if path.len() == 0 {
        Seq::empty()
    } else if path.last() == '\'' {
        escaped(path.drop_last()) + seq!['\'', '\\', '\'', '\'']
    } else {
        escaped(path.drop_last()).push(path.last())
    }
}

/// The line for a file.
pub open spec fn concat_line(path: Seq<char>) -> Seq<char> {
    "file '"@ + escaped(path) + "'\n"@
}

/// The list of the files.
pub open spec fn concat_list(wav_paths: Seq<Seq<char>>) -> Seq<char>
    decreases wav_paths.len(),
{
    if wav_paths.len() == 0 {
        Seq::empty()
    } else {
        concat_list(wav_paths.drop_last()) + concat_line(wav_paths.last())
    }
}

fn escape(path: &str) -> (r: String)
    ensures
        r@ == escaped(path@),
{
    let mut out = String::new();
    proof {
        reveal_strlit("'\\''");
        assert("'\\''"@ =~= seq!['\'', '\\', '\'', '\'']);
    }
    for c in it: path.chars()
        invariant
            it.seq() == path@,
            "'\\''"@ == seq!['\'', '\\', '\'', '\''],
            out@ == escaped(path@.take(it.index() as int)),
    {
        proof {
            assert(path@.take(it.index() + 1).drop_last() =~= path@.take(it.index() as int));
            assert(path@.take(it.index() + 1).last() == c);
        }
        if c == '\'' {
            out.append("'\\''");
        } else {
            out.push(c);
        }
    }
    proof {
        assert(path@.take(path@.len() as int) =~= path@);
    }
    out
}

/// The list of the files that FFmpeg is to put one behind the other.
pub fn concat_content(wav_paths: &Vec<String>) -> (r: String)
    ensures
        r@ == concat_list(text::contents(wav_paths@)),
{
    let ghost all = text::contents(wav_paths@);
    let mut content = String::new();
    let mut i: usize = 0;
    while i < wav_paths.len()
        invariant
            all == text::contents(wav_paths@),
            i <= wav_paths@.len(),
            content@ == concat_list(all.take(i as int)),
        decreases wav_paths@.len() - i,
    {
        let ghost before = content@;
        content.append("file '");
        content.append(escape(wav_paths[i].as_str()).as_str());
        content.append("'\n");
        proof {
            assert(all.take(i + 1).drop_last() =~= all.take(i as int));
            assert(all.take(i + 1).last() == wav_paths@[i as int]@);
            assert(content@ =~= before + concat_line(wav_paths@[i as int]@));
        }
        i += 1;
    }
    proof {
        assert(all.take(i as int) =~= all);
    }
    content
}

// ---------------------------------------------------------------------------
// Calls
// ---------------------------------------------------------------------------

/// The directory of the first file, or the current directory where there is
/// none.
pub open spec fn first_dir(wav_paths: Seq<Seq<char>>) -> Seq<char> {
    if wav_paths.len() == 0 {
        "."@
    } else {
        match paths::parent_of(wav_paths[0]) {
            Some(parent) => parent,
            None => "."@,
        }
    }
}

/// A file with the given name, beside the first file.
pub fn beside_first(wav_paths: &Vec<String>, name: &str) -> (r: String)
    ensures
        r@ == paths::joined(first_dir(text::contents(wav_paths@)), name@),
{
    let ghost all = text::contents(wav_paths@);
    if wav_paths.len() > 0 {
        proof {
            assert(all[0] == wav_paths@[0]@);
        }
        match paths::parent(wav_paths[0].as_str()) {
            Some(parent) => {
                return paths::join(parent.as_str(), name);
            },
            None => {},
        }
    }
    paths::join(".", name)
}

/// The arguments with which FFmpeg makes the audiobook of the files in a list.
pub fn ffmpeg_arguments(concat_path: &str, output_path: &str) -> (r: Vec<String>)
    ensures
        text::contents(r@) == seq![
            "-y"@,
            "-f"@,
            "concat"@,
            "-safe"@,
            "0"@,
            "-i"@,
            concat_path@,
            "-c:a"@,
            "aac"@,
            "-b:a"@,
            "96k"@,
            output_path@,
        ],
{
    let mut out: Vec<String> = Vec::new();
    out.push("-y".to_owned());
    out.push("-f".to_owned());
    out.push("concat".to_owned());
    out.push("-safe".to_owned());
    out.push("0".to_owned());
    out.push("-i".to_owned());
    out.push(concat_path.to_owned());
    out.push("-c:a".to_owned());
    out.push("aac".to_owned());
    out.push("-b:a".to_owned());
    out.push("96k".to_owned());
    out.push(output_path.to_owned());
    proof {
        assert(text::contents(out@) =~= seq![
            "-y"@,
            "-f"@,
            "concat"@,
            "-safe"@,
            "0"@,
            "-i"@,
            concat_path@,
            "-c:a"@,
            "aac"@,
            "-b:a"@,
            "96k"@,
            output_path@,
        ]);
    }
    out
}

/// The arguments with which the audio converter of macOS makes the audiobook of
/// a WAV file.
pub fn afconvert_arguments(wav_path: &str, output_path: &str) -> (r: Vec<String>)
    ensures
        text::contents(r@) == seq![
            "-f"@,
            "m4af"@,
            "-d"@,
            "aac"@,
            "-b"@,
            "96000"@,
            wav_path@,
            output_path@,
        ],
{
    let mut out: Vec<String> = Vec::new();
    out.push("-f".to_owned());
    out.push("m4af".to_owned());
    out.push("-d".to_owned());
    out.push("aac".to_owned());
    out.push("-b".to_owned());
    out.push("96000".to_owned());
    out.push(wav_path.to_owned());
    out.push(output_path.to_owned());
    proof {
        assert(text::contents(out@) =~= seq![
            "-f"@,
            "m4af"@,
            "-d"@,
            "aac"@,
            "-b"@,
            "96000"@,
            wav_path@,
            output_path@,
        ]);
    }
    out
}

/// The arguments with which `ffprobe` tells how long the audio of a file is.
pub fn ffprobe_arguments(path: &str) -> (r: Vec<String>)
    ensures
        text::contents(r@) == seq![
            "-v"@,
            "error"@,
            "-show_entries"@,
            "format=duration"@,
            "-of"@,
            "default=noprint_wrappers=1:nokey=1"@,
            path@,
        ],
{
    let mut out: Vec<String> = Vec::new();
    out.push("-v".to_owned());
    out.push("error".to_owned());
    out.push("-show_entries".to_owned());
    out.push("format=duration".to_owned());
    out.push("-of".to_owned());
    out.push("default=noprint_wrappers=1:nokey=1".to_owned());
    out.push(path.to_owned());
    proof {
        assert(text::contents(out@) =~= seq![
            "-v"@,
            "error"@,
            "-show_entries"@,
            "format=duration"@,
            "-of"@,
            "default=noprint_wrappers=1:nokey=1"@,
            path@,
        ]);
    }
    out
}

// ---------------------------------------------------------------------------
// Laws
// ---------------------------------------------------------------------------

/// What a reader makes of a text with quotes: between two quotes every
/// character stands for itself, and outside of them a backslash stands in front
/// of a character that does. `inside` says whether the text starts between
/// quotes.
pub open spec fn unquoted(s: Seq<char>, inside: bool) -> Seq<char>
    decreases s.len(),
{
    if s.len() == 0 {
        Seq::empty()
    } else if s[0] == '\'' {
        unquoted(s.skip(1), !inside)
    } else if !inside && s[0] == '\\' && s.len() > 1 {
        seq![s[1]] + unquoted(s.skip(2), inside)
    } else {
        seq![s[0]] + unquoted(s.skip(1), inside)
    }
}

proof fn lemma_unquoted_escaped(path: Seq<char>, tail: Seq<char>)
    ensures
        unquoted(escaped(path) + tail, true) == path + unquoted(tail, true),
    decreases path.len(),
{
    if path.len() == 0 {
        assert(escaped(path) + tail =~= tail);
        assert(path + unquoted(tail, true) =~= unquoted(tail, true));
    } else {
        let front = path.drop_last();
        let c = path.last();
        if c == '\'' {
            let quote = seq!['\'', '\\', '\'', '\''];
            let rest = quote + tail;
            assert(escaped(path) + tail =~= escaped(front) + rest);
            lemma_unquoted_escaped(front, rest);
            let after_one = rest.skip(1);
            let after_three = after_one.skip(2);
            assert(after_three =~= seq!['\''] + tail);
            assert(after_three.skip(1) =~= tail);
            assert(unquoted(after_three, false) == unquoted(tail, true));
            assert(unquoted(after_one, false) == seq!['\''] + unquoted(after_three, false));
            assert(unquoted(rest, true) == unquoted(after_one, false));
        } else {
            let rest = seq![c] + tail;
            assert(escaped(path) + tail =~= escaped(front) + rest);
            lemma_unquoted_escaped(front, rest);
            assert(rest.skip(1) =~= tail);
            assert(unquoted(rest, true) == seq![c] + unquoted(tail, true));
        }
        assert(front + (seq![c] + unquoted(tail, true)) =~= path + unquoted(tail, true));
    }
}

/// Whatever characters a path holds, a reader of its quoted form gets the path
/// back.
pub proof fn law_quoted_paths_are_read_back(path: Seq<char>)
    ensures
        unquoted(seq!['\''] + escaped(path) + seq!['\''], false) == path,
{
    let quoted = seq!['\''] + escaped(path) + seq!['\''];
    let rest = escaped(path) + seq!['\''];
    assert(quoted.skip(1) =~= rest);
    lemma_unquoted_escaped(path, seq!['\'']);
    assert(seq!['\''].skip(1) =~= Seq::<char>::empty());
    assert(unquoted(Seq::<char>::empty(), false) =~= Seq::<char>::empty());
    assert(unquoted(seq!['\''], true) =~= Seq::<char>::empty());
    assert(path + unquoted(seq!['\''], true) =~= path);
}

/// A path is quoted part by part.
pub proof fn law_paths_are_quoted_part_by_part(a: Seq<char>, b: Seq<char>)
    ensures
        escaped(a + b) == escaped(a) + escaped(b),
    decreases b.len(),
{
    if b.len() == 0 {
        assert(a + b =~= a);
        assert(escaped(a) + escaped(b) =~= escaped(a));
    } else {
        assert((a + b).drop_last() =~= a + b.drop_last());
        law_paths_are_quoted_part_by_part(a, b.drop_last());
        assert(escaped(a + b) =~= escaped(a) + escaped(b));
    }
}

/// A path without quotes stands in the list as it is, and a quote stands there as
/// a quote, a backslash and two more quotes.
pub proof fn law_only_quotes_are_changed(path: Seq<char>)
    ensures
        (forall|i: int| 0 <= i < path.len() ==> #[trigger] path[i] != '\'') ==> escaped(path)
            == path,
        escaped(seq!['\'']) == seq!['\'', '\\', '\'', '\''],
    decreases path.len(),
{
    let quote = seq!['\''];
    assert(quote.drop_last() =~= Seq::<char>::empty());
    assert(escaped(quote.drop_last()) =~= Seq::<char>::empty());
    assert(escaped(quote) =~= seq!['\'', '\\', '\'', '\'']);
    if path.len() > 0 {
        law_only_quotes_are_changed(path.drop_last());
        if forall|i: int| 0 <= i < path.len() ==> #[trigger] path[i] != '\'' {
            assert forall|i: int| 0 <= i < path.drop_last().len() implies #[trigger]
                path.drop_last()[i] != '\'' by {
                assert(path.drop_last()[i] == path[i]);
            }
            assert(path[path.len() - 1] != '\'');
            assert(path.drop_last().push(path.last()) =~= path);
        }
    } else {
        assert(escaped(path) =~= path);
    }
}

/// The list of files of two lists is the list of the one and then the list of the
/// other.
pub proof fn law_lists_of_files_follow_each_other(a: Seq<Seq<char>>, b: Seq<Seq<char>>)
    ensures
        concat_list(a + b) == concat_list(a) + concat_list(b),
    decreases b.len(),
{
    if b.len() == 0 {
        assert(a + b =~= a);
        assert(concat_list(a) + concat_list(b) =~= concat_list(a));
    } else {
        assert((a + b).drop_last() =~= a + b.drop_last());
        assert((a + b).last() == b.last());
        law_lists_of_files_follow_each_other(a, b.drop_last());
        assert(concat_list(a + b) =~= concat_list(a) + concat_list(b));
    }
}

/// A single file is one line: the word `file`, a space, the quoted path and a
/// line end.
pub proof fn law_a_file_is_a_line(path: Seq<char>)
    ensures
        concat_list(seq![path]) == seq!['f', 'i', 'l', 'e', ' ', '\''] + escaped(path)
            + seq!['\'', '\n'],
{
    let one = seq![path];
    reveal_strlit("file '");
    reveal_strlit("'\n");
    assert(one.drop_last() =~= Seq::<Seq<char>>::empty());
    assert(concat_list(one.drop_last()) =~= Seq::<char>::empty());
    assert("file '"@ =~= seq!['f', 'i', 'l', 'e', ' ', '\'']);
    assert("'\n"@ =~= seq!['\'', '\n']);
    assert(concat_list(one) =~= concat_line(path));
}

/// The length of the first line of a text with quotes: a line end between quotes,
/// or behind a backslash outside of them, belongs to the line.
pub open spec fn quoted_line_len(s: Seq<char>, inside: bool) -> nat
    decreases s.len(),
{
    if s.len() == 0 {
        0
    } else if s[0] == '\'' {
        1 + quoted_line_len(s.skip(1), !inside)
    } else if !inside && s[0] == '\\' && s.len() > 1 {
        2 + quoted_line_len(s.skip(2), inside)
    } else if !inside && s[0] == '\n' {
        0
    } else {
        1 + quoted_line_len(s.skip(1), inside)
    }
}

/// The files that a reader finds in a list: on each line, what stands behind the
/// word `file` and a space.
pub open spec fn files_in(s: Seq<char>) -> Seq<Seq<char>>
    decreases s.len(),
{
    let n = quoted_line_len(s, false) as int;
    if s.len() == 0 {
        Seq::empty()
    } else if n >= s.len() {
        seq![unquoted(s.skip(5), false)]
    } else {
        seq![unquoted(s.subrange(5, n), false)] + files_in(s.skip(n + 1))
    }
}

proof fn lemma_quoted_line_len(path: Seq<char>, tail: Seq<char>)
    ensures
        quoted_line_len(escaped(path) + tail, true) == escaped(path).len() + quoted_line_len(
            tail,
            true,
        ),
    decreases path.len(),
{
    if path.len() == 0 {
        assert(escaped(path) + tail =~= tail);
    } else {
        let front = path.drop_last();
        let c = path.last();
        if c == '\'' {
            let quote = seq!['\'', '\\', '\'', '\''];
            let rest = quote + tail;
            assert(escaped(path) + tail =~= escaped(front) + rest);
            lemma_quoted_line_len(front, rest);
            let after_one = rest.skip(1);
            let after_three = after_one.skip(2);
            assert(after_three =~= seq!['\''] + tail);
            assert(after_three.skip(1) =~= tail);
            assert(quoted_line_len(after_three, false) == 1 + quoted_line_len(tail, true));
            assert(quoted_line_len(after_one, false) == 2 + quoted_line_len(after_three, false));
            assert(quoted_line_len(rest, true) == 1 + quoted_line_len(after_one, false));
        } else {
            let rest = seq![c] + tail;
            assert(escaped(path) + tail =~= escaped(front) + rest);
            lemma_quoted_line_len(front, rest);
            assert(rest.skip(1) =~= tail);
        }
    }
}

proof fn lemma_ordinary_character(c: char, s: Seq<char>)
    requires
        c != '\'' && c != '\\' && c != '\n',
    ensures
        quoted_line_len(seq![c] + s, false) == 1 + quoted_line_len(s, false),
{
    let t = seq![c] + s;
    assert(t[0] == c);
    assert(t.skip(1) =~= s);
}

proof fn lemma_quoted_path(path: Seq<char>, rest: Seq<char>)
    ensures
        quoted_line_len(
            seq!['\''] + escaped(path) + seq!['\''] + seq!['\n'] + rest,
            false,
        ) == escaped(path).len() + 2,
{
    let end = seq!['\n'] + rest;
    let tail = seq!['\''] + end;
    let body = escaped(path) + tail;
    let whole = seq!['\''] + body;
    assert(end[0] == '\n');
    assert(quoted_line_len(end, false) == 0);
    assert(tail[0] == '\'');
    assert(tail.skip(1) =~= end);
    assert(quoted_line_len(tail, true) == 1);
    lemma_quoted_line_len(path, tail);
    assert(whole[0] == '\'');
    assert(whole.skip(1) =~= body);
    assert(whole =~= seq!['\''] + escaped(path) + seq!['\''] + seq!['\n'] + rest);
}

proof fn lemma_file_word(s: Seq<char>)
    ensures
        quoted_line_len(seq!['f', 'i', 'l', 'e', ' '] + s, false) == 5 + quoted_line_len(s, false),
{
    let t1 = seq![' '] + s;
    let t2 = seq!['e'] + t1;
    let t3 = seq!['l'] + t2;
    let t4 = seq!['i'] + t3;
    let t5 = seq!['f'] + t4;
    lemma_ordinary_character(' ', s);
    lemma_ordinary_character('e', t1);
    lemma_ordinary_character('l', t2);
    lemma_ordinary_character('i', t3);
    lemma_ordinary_character('f', t4);
    assert(seq!['f', 'i', 'l', 'e', ' '] + s =~= t5);
}

/// A reader of the list finds every file in it once and in order, however many
/// there are and whatever characters their paths hold.
pub proof fn law_listed_files_are_read_back(wav_paths: Seq<Seq<char>>)
    ensures
        files_in(concat_list(wav_paths)) == wav_paths,
    decreases wav_paths.len(),
{
    let s = concat_list(wav_paths);
    if wav_paths.len() == 0 {
        assert(files_in(s) =~= wav_paths);
    } else {
        let first = wav_paths[0];
        let others = wav_paths.skip(1);
        let rest = concat_list(others);
        let quoted = seq!['\''] + escaped(first) + seq!['\''];
        let n = 5 + quoted.len() as int;
        assert(seq![first] + others =~= wav_paths);
        law_lists_of_files_follow_each_other(seq![first], others);
        law_a_file_is_a_line(first);
        lemma_quoted_path(first, rest);
        let line = quoted + seq!['\n'] + rest;
        lemma_file_word(line);
        assert(s =~= seq!['f', 'i', 'l', 'e', ' '] + line);
        assert(s.subrange(5, n) =~= quoted);
        assert(s.skip(n + 1) =~= rest);
        law_quoted_paths_are_read_back(first);
        law_listed_files_are_read_back(others);
        assert(files_in(s) =~= wav_paths);
    }
}

} // verus!
