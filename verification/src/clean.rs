//! Cleans the raw text of a page: words broken at a line end are joined, lines
//! are joined into paragraphs, and page numbers are dropped.

use vstd::prelude::*;

use crate::clean_laws;
use crate::text;

verus! {

broadcast use vstd::string::group_string_axioms;

// ---------------------------------------------------------------------------
// Models
// ---------------------------------------------------------------------------

/// The text with every line end written as a single `\n`.
pub open spec fn unix_lines(s: Seq<char>) -> Seq<char>
    decreases s.len(),
{
    if s.len() == 0 {
        Seq::empty()
    } else if s[0] == '\r' && s.len() > 1 && s[1] == '\n' {
        seq!['\n'] + unix_lines(s.skip(2))
    } else if s[0] == '\r' {
        seq!['\n'] + unix_lines(s.skip(1))
    } else {
        seq![s[0]] + unix_lines(s.skip(1))
    }
}

/// The ASCII letters.
pub open spec fn is_letter(c: char) -> bool {
    'a' <= c <= 'z' || 'A' <= c <= 'Z'
}

/// Whether the text starts with a word that is broken at a line end: a letter,
/// a hyphen, a line end and a letter.
pub open spec fn starts_broken(s: Seq<char>) -> bool {
    s.len() >= 4 && is_letter(s[0]) && s[1] == '-' && s[2] == '\n' && is_letter(s[3])
}

/// The text with the words joined that are broken at a line end. A letter that
/// closes one break opens no other.
pub open spec fn hyphens_joined(s: Seq<char>) -> Seq<char>
    decreases s.len(),
{
    if s.len() == 0 {
        Seq::empty()
    } else if starts_broken(s) {
        seq![s[0], s[3]] + hyphens_joined(s.skip(4))
    } else {
        seq![s[0]] + hyphens_joined(s.skip(1))
    }
}

/// Spaces and tabs.
pub open spec fn is_blank(c: char) -> bool {
    c == ' ' || c == '\t'
}

/// The text with every run of spaces and tabs written as a single space.
pub open spec fn blanks_collapsed(s: Seq<char>) -> Seq<char>
    decreases s.len(),
{
    if s.len() == 0 {
        Seq::empty()
    } else if is_blank(s[0]) && s.len() > 1 && is_blank(s[1]) {
        blanks_collapsed(s.skip(1))
    } else if is_blank(s[0]) {
        seq![' '] + blanks_collapsed(s.skip(1))
    } else {
        seq![s[0]] + blanks_collapsed(s.skip(1))
    }
}

/// The zeros of Unicode 16.0: each starts a block of ten decimal digits, and
/// these blocks make up the general category `Nd`.
pub open spec fn digit_zeros() -> Seq<u32> {
    seq![
        0x30, 0x660, 0x6f0, 0x7c0, 0x966, 0x9e6, 0xa66, 0xae6, 0xb66, 0xbe6, 0xc66, 0xce6, 0xd66,
        0xde6, 0xe50, 0xed0, 0xf20, 0x1040, 0x1090, 0x17e0, 0x1810, 0x1946, 0x19d0, 0x1a80,
        0x1a90, 0x1b50, 0x1bb0, 0x1c40, 0x1c50, 0xa620, 0xa8d0, 0xa900, 0xa9d0, 0xa9f0, 0xaa50,
        0xabf0, 0xff10, 0x104a0, 0x10d30, 0x10d40, 0x11066, 0x110f0, 0x11136, 0x111d0, 0x112f0,
        0x11450, 0x114d0, 0x11650, 0x116c0, 0x116d0, 0x116da, 0x11730, 0x118e0, 0x11950, 0x11bf0,
        0x11c50, 0x11d50, 0x11da0, 0x11f50, 0x16130, 0x16a60, 0x16ac0, 0x16b50, 0x16d70, 0x1ccf0,
        0x1d7ce, 0x1d7d8, 0x1d7e2, 0x1d7ec, 0x1d7f6, 0x1e140, 0x1e2f0, 0x1e4f0, 0x1e5f1, 0x1e950,
        0x1fbf0,
    ]
}

/// The decimal digits of all scripts.
pub open spec fn is_digit(c: char) -> bool {
    exists|i: int|
        0 <= i < digit_zeros().len() && #[trigger] digit_zeros()[i] <= c as u32 <= digit_zeros()[i]
            + 9
}

/// A line that holds a page number: decimal digits, and white space around
/// them.
pub open spec fn is_page_number(s: Seq<char>) -> bool {
    let t = text::trimmed(s);
    t.len() > 0 && forall|i: int| 0 <= i < t.len() ==> is_digit(#[trigger] t[i])
}

/// The position of the first line end, or the length of the text.
pub open spec fn line_len(s: Seq<char>) -> nat
    decreases s.len(),
{
    if s.len() == 0 || s[0] == '\n' {
        0
    } else {
        1 + line_len(s.skip(1))
    }
}

/// The lines of a text without their line ends. The last line needs none.
pub open spec fn lines(s: Seq<char>) -> Seq<Seq<char>>
    decreases s.len(),
{
    let n = line_len(s) as int;
    if s.len() == 0 {
        Seq::empty()
    } else if n < s.len() {
        seq![s.take(n)] + lines(s.skip(n + 1))
    } else {
        seq![s]
    }
}

/// A line with its ends trimmed and its blanks collapsed.
pub open spec fn tidy(s: Seq<char>) -> Seq<char> {
    blanks_collapsed(text::trimmed(s))
}

/// A line behind the lines of a paragraph that came before it.
pub open spec fn continued(paragraph: Seq<char>, line: Seq<char>) -> Seq<char> {
    if paragraph.len() == 0 {
        line
    } else {
        paragraph + seq![' '] + line
    }
}

/// A list of the paragraph, or of nothing where it is empty.
pub open spec fn unless_empty(paragraph: Seq<char>) -> Seq<Seq<char>> {
    if paragraph.len() == 0 {
        Seq::empty()
    } else {
        seq![paragraph]
    }
}

/// The paragraphs that a list of lines makes, the first of which has already
/// begun. An empty line ends a paragraph, a page number is passed over, and
/// any other line continues the paragraph.
pub open spec fn paragraphs_from(begun: Seq<char>, list: Seq<Seq<char>>) -> Seq<Seq<char>>
    decreases list.len(),
{
    if list.len() == 0 {
        unless_empty(begun)
    } else {
        let line = tidy(list[0]);
        if line.len() == 0 {
            unless_empty(begun) + paragraphs_from(Seq::empty(), list.skip(1))
        } else if is_page_number(line) {
            paragraphs_from(begun, list.skip(1))
        } else {
            paragraphs_from(continued(begun, line), list.skip(1))
        }
    }
}

/// The paragraphs of a raw text.
pub open spec fn clean_paragraphs(raw: Seq<char>) -> Seq<Seq<char>> {
    paragraphs_from(Seq::empty(), lines(hyphens_joined(unix_lines(raw))))
}

/// Texts joined with a separator between each two of them.
pub open spec fn joined(list: Seq<Seq<char>>, separator: Seq<char>) -> Seq<char>
    decreases list.len(),
{
    if list.len() == 0 {
        Seq::empty()
    } else if list.len() == 1 {
        list[0]
    } else {
        joined(list.drop_last(), separator) + separator + list.last()
    }
}

/// The clean form of a raw text: its paragraphs with a blank line between each
/// two of them.
pub open spec fn cleaned(raw: Seq<char>) -> Seq<char> {
    joined(clean_paragraphs(raw), seq!['\n', '\n'])
}

// ---------------------------------------------------------------------------
// Regular expressions
// ---------------------------------------------------------------------------

/// A word that is broken at a line end, its two letters captured.
pub const HYPHEN_BREAK: &'static str = "([[:alpha:]])-\\n([[:alpha:]])";

/// The two letters that `HYPHEN_BREAK` captures.
pub const BOTH_LETTERS: &'static str = "$1$2";

/// A run of spaces and tabs.
pub const BLANKS: &'static str = "[ \\t]+";

/// A single space.
pub const SPACE: &'static str = " ";

/// A line that holds nothing but a page number.
pub const PAGE_NUMBER: &'static str = "^\\s*\\d+\\s*$";

/// `regex::Regex::replace_all`, for the two patterns that the library uses,
/// compiled with `regex::Regex::new`. The matches do not overlap and are found
/// from left to right. With `HYPHEN_BREAK`, each match is four characters and
/// leaves its two letters; `[[:alpha:]]` is an ASCII letter. With `BLANKS`,
/// each match is a run of spaces and tabs that cannot be made longer, and
/// leaves a space.
#[verifier::external_body]
fn replace_all(pattern: &str, haystack: &str, replacement: &str) -> (r: String)
    requires
        (pattern@ == HYPHEN_BREAK@ && replacement@ == BOTH_LETTERS@) || (pattern@ == BLANKS@
            && replacement@ == SPACE@),
    ensures
        pattern@ == HYPHEN_BREAK@ ==> r@ == hyphens_joined(haystack@),
        pattern@ == BLANKS@ ==> r@ == blanks_collapsed(haystack@),
{
    regex::Regex::new(pattern).expect("valid regex").replace_all(haystack, replacement).to_string()
}

/// `regex::Regex::is_match`, for the pattern `PAGE_NUMBER`, compiled with
/// `regex::Regex::new`. The pattern is anchored at both ends of the text; `\s`
/// is the Unicode property `White_Space` and `\d` the Unicode category `Nd`.
#[verifier::external_body]
fn is_match(pattern: &str, haystack: &str) -> (r: bool)
    requires
        pattern@ == PAGE_NUMBER@,
    ensures
        r == is_page_number(haystack@),
{
    regex::Regex::new(pattern).expect("valid regex").is_match(haystack)
}

// ---------------------------------------------------------------------------
// Cleaning
// ---------------------------------------------------------------------------

/// Writes every line end as a single `\n`.
pub fn normalize_newlines(raw: &str) -> (r: String)
    ensures
        r@ == unix_lines(raw@),
{
    let chars = text::to_chars(raw);
    let ghost s = raw@;
    let mut out = String::new();
    let mut i: usize = 0;
    proof {
        assert(s.skip(0) =~= s);
        assert(out@ + unix_lines(s) =~= unix_lines(s));
    }
    while i < chars.len()
        invariant
            chars@ == s,
            i <= chars@.len(),
            unix_lines(s) == out@ + unix_lines(s.skip(i as int)),
        decreases chars@.len() - i,
    {
        let ghost rest = s.skip(i as int);
        let ghost before = out@;
        proof {
            assert(rest.skip(1) =~= s.skip(i + 1));
            if rest.len() > 1 {
                assert(rest.skip(2) =~= s.skip(i + 2));
            }
        }
        if chars[i] == '\r' {
            out.push('\n');
            if i + 1 < chars.len() && chars[i + 1] == '\n' {
                i += 1;
            }
        } else {
            out.push(chars[i]);
        }
        i += 1;
        proof {
            assert(out@ + unix_lines(s.skip(i as int)) =~= before + unix_lines(rest));
        }
    }
    proof {
        assert(out@ + unix_lines(s.skip(i as int)) =~= out@);
    }
    out
}

/// Splits a text into its lines.
pub fn split_lines(s: &str) -> (r: Vec<String>)
    ensures
        text::contents(r@) == lines(s@),
{
    let chars = text::to_chars(s);
    let mut found: Vec<String> = Vec::new();
    let mut start: usize = 0;
    let mut i: usize = 0;
    proof {
        assert(s@.skip(0) =~= s@);
        assert(text::contents(found@) + lines(s@) =~= lines(s@));
    }
    while i < chars.len()
        invariant
            chars@ == s@,
            start <= i <= chars@.len(),
            lines(s@) == text::contents(found@) + lines(s@.skip(start as int)),
            line_len(s@.skip(start as int)) == (i - start) + line_len(s@.skip(i as int)),
        decreases chars@.len() - i,
    {
        let ghost rest = s@.skip(start as int);
        let ghost here = s@.skip(i as int);
        if chars[i] == '\n' {
            let ghost before = text::contents(found@);
            found.push(text::slice_text(&chars, start, i));
            proof {
                assert(rest.take(i - start) =~= s@.subrange(start as int, i as int));
                assert(rest.skip(i - start + 1) =~= s@.skip(i + 1));
                assert(text::contents(found@) =~= before.push(s@.subrange(start as int, i as int)));
                assert(text::contents(found@) + lines(s@.skip(i + 1)) =~= before + lines(rest));
            }
            i += 1;
            start = i;
        } else {
            proof {
                assert(here.skip(1) =~= s@.skip(i + 1));
            }
            i += 1;
        }
    }
    proof {
        let rest = s@.skip(start as int);
        assert(rest =~= s@.subrange(start as int, s@.len() as int));
    }
    let ghost before = text::contents(found@);
    if start < chars.len() {
        found.push(text::slice_text(&chars, start, chars.len()));
    }
    proof {
        assert(text::contents(found@) =~= before + lines(s@.skip(start as int)));
    }
    found
}

/// Joins texts with a separator between each two of them.
pub fn join(list: &Vec<String>, separator: &str) -> (r: String)
    ensures
        r@ == joined(text::contents(list@), separator@),
{
    let mut out = String::new();
    let ghost all = text::contents(list@);
    let mut i: usize = 0;
    while i < list.len()
        invariant
            all == text::contents(list@),
            i <= list@.len(),
            out@ == joined(all.take(i as int), separator@),
        decreases list@.len() - i,
    {
        let ghost before = out@;
        if i > 0 {
            out.append(separator);
        }
        out.append(list[i].as_str());
        proof {
            let next = all.take(i + 1);
            assert(next.drop_last() =~= all.take(i as int));
            assert(next.last() == list@[i as int]@);
            if i == 0 {
                assert(out@ =~= next[0]);
            } else {
                assert(out@ =~= before + separator@ + next.last());
            }
        }
        i += 1;
    }
    proof {
        assert(all.take(i as int) =~= all);
    }
    out
}

/// Trims a line and collapses its blanks.
fn tidy_line(line: &str) -> (r: String)
    ensures
        r@ == tidy(line@),
{
    replace_all(BLANKS, text::trim(line).as_str(), SPACE)
}

/// Joins the lines of a text into paragraphs.
fn collect_paragraphs(joined_text: &str) -> (r: Vec<String>)
    ensures
        text::contents(r@) == paragraphs_from(Seq::empty(), lines(joined_text@)),
{
    let list = split_lines(joined_text);
    let ghost all = lines(joined_text@);
    let mut paragraphs: Vec<String> = Vec::new();
    let mut current = String::new();
    let mut i: usize = 0;
    proof {
        assert(all.skip(0) =~= all);
        assert(text::contents(paragraphs@) + paragraphs_from(Seq::empty(), all) =~= paragraphs_from(
            Seq::empty(),
            all,
        ));
        assert(current@ =~= Seq::empty());
    }
    while i < list.len()
        invariant
            text::contents(list@) == all,
            i <= list@.len(),
            paragraphs_from(Seq::empty(), all) == text::contents(paragraphs@) + paragraphs_from(
                current@,
                all.skip(i as int),
            ),
        decreases list@.len() - i,
    {
        let ghost rest = all.skip(i as int);
        let ghost before = text::contents(paragraphs@);
        let ghost begun = current@;
        let line = tidy_line(list[i].as_str());
        proof {
            assert(rest[0] == list@[i as int]@);
            assert(rest.skip(1) =~= all.skip(i + 1));
        }
        if line.as_str().is_empty() {
            if !current.as_str().is_empty() {
                paragraphs.push(current);
                current = String::new();
            }
            proof {
                assert(text::contents(paragraphs@) =~= before + unless_empty(begun));
                assert(current@ =~= Seq::empty());
                assert(text::contents(paragraphs@) + paragraphs_from(Seq::empty(), rest.skip(1))
                    =~= before + paragraphs_from(begun, rest));
            }
        } else if !is_match(PAGE_NUMBER, line.as_str()) {
            if !current.as_str().is_empty() {
                current.push(' ');
            }
            current.append(line.as_str());
            proof {
                assert(current@ =~= continued(begun, line@));
            }
        }
        i += 1;
    }
    let ghost before = text::contents(paragraphs@);
    let ghost begun = current@;
    if !current.as_str().is_empty() {
        paragraphs.push(current);
    }
    proof {
        assert(text::contents(paragraphs@) =~= before + unless_empty(begun));
    }
    paragraphs
}

/// Cleans the raw text of a page.
pub fn clean_text(raw: &str) -> (r: String)
    ensures
        r@ == cleaned(raw@),
{
    let unix = normalize_newlines(raw);
    let whole = replace_all(HYPHEN_BREAK, unix.as_str(), BOTH_LETTERS);
    let list = collect_paragraphs(whole.as_str());
    let ghost all = clean_paragraphs(raw@);
    proof {
        clean_laws::lemma_clean_paragraphs(raw@);
    }
    let mut kept: Vec<String> = Vec::new();
    let mut i: usize = 0;
    while i < list.len()
        invariant
            text::contents(list@) == all,
            clean_laws::all_clean(all),
            i <= list@.len(),
            text::contents(kept@) == all.take(i as int),
        decreases list@.len() - i,
    {
        let ghost before = text::contents(kept@);
        let paragraph = tidy_line(list[i].as_str());
        proof {
            assert(all[i as int] == list@[i as int]@);
            assert(clean_laws::is_clean_paragraph(all[i as int]));
            clean_laws::lemma_tidy_again(all[i as int]);
        }
        if !paragraph.as_str().is_empty() {
            kept.push(paragraph);
        }
        proof {
            assert(text::contents(kept@) =~= before.push(all[i as int]));
            assert(all.take(i + 1) =~= before.push(all[i as int]));
        }
        i += 1;
    }
    proof {
        reveal_strlit("\n\n");
        assert("\n\n"@ =~= seq!['\n', '\n']);
        assert(all.take(i as int) =~= all);
        clean_laws::lemma_joined_is_tight(all, seq!['\n', '\n']);
        text::lemma_tight_is_trimmed(joined(all, seq!['\n', '\n']));
    }
    text::trim(join(&kept, "\n\n").as_str())
}

} // verus!
