//! Splits cleaned text into chunks that a speech engine can take one at a time.
//!
//! Paragraphs are packed greedily, as many as fit into one chunk. A paragraph
//! that is too long is packed sentence by sentence, and a sentence that is too
//! long word by word.

use vstd::prelude::*;

use crate::text;

verus! {

broadcast use vstd::string::group_string_axioms;

// ---------------------------------------------------------------------------
// Models
// ---------------------------------------------------------------------------

/// The position of the first blank line break, or the length of the text.
pub open spec fn break_at(s: Seq<char>) -> nat
    decreases s.len(),
{
    if s.len() < 2 {
        s.len()
    } else if s[0] == '\n' && s[1] == '\n' {
        0
    } else {
        1 + break_at(s.skip(1))
    }
}

/// The pieces between the blank line breaks of a text, as they stand.
pub open spec fn pieces(s: Seq<char>) -> Seq<Seq<char>>
    decreases s.len(),
{
    let n = break_at(s) as int;
    if n + 2 <= s.len() {
        seq![s.take(n)] + pieces(s.skip(n + 2))
    } else {
        seq![s]
    }
}

/// The paragraphs of a list of pieces: each trimmed, the empty ones left out.
pub open spec fn nonblank(list: Seq<Seq<char>>) -> Seq<Seq<char>>
    decreases list.len(),
{
    if list.len() == 0 {
        Seq::empty()
    } else {
        let paragraph = text::trimmed(list[0]);
        let rest = nonblank(list.skip(1));
        if paragraph.len() == 0 {
            rest
        } else {
            seq![paragraph] + rest
        }
    }
}

/// The paragraphs of a text.
pub open spec fn paragraphs(s: Seq<char>) -> Seq<Seq<char>> {
    nonblank(pieces(s))
}

/// Whether a sentence may end with this character.
pub open spec fn is_terminator(c: char) -> bool {
    c == '.' || c == '!' || c == '?'
}

/// Whether a sentence ends at position `i`: a terminator stands there, and
/// white space or nothing follows it.
pub open spec fn ends_sentence(s: Seq<char>, i: int) -> bool {
    is_terminator(s[i]) && (i + 1 >= s.len() || text::is_space(s[i + 1]))
}

/// The length of the first sentence with its terminator, or of the whole text
/// where no sentence ends.
pub open spec fn sentence_len(s: Seq<char>) -> nat
    decreases s.len(),
{
    if s.len() == 0 {
        0
    } else if ends_sentence(s, 0) {
        1
    } else {
        1 + sentence_len(s.skip(1))
    }
}

/// The sentences of a text, each trimmed.
pub open spec fn sentences(s: Seq<char>) -> Seq<Seq<char>>
    decreases s.len(),
{
    let n = sentence_len(s) as int;
    let first = text::trimmed(s.take(n));
    if first.len() == 0 || !(0 < n <= s.len()) {
        Seq::empty()
    } else {
        seq![first] + sentences(s.skip(n))
    }
}

/// The chunks that are complete and the text of the one being filled.
pub struct Packing {
    pub done: Seq<Seq<char>>,
    pub current: Seq<char>,
}

/// Nothing packed yet.
pub open spec fn nothing_packed() -> Packing {
    Packing { done: Seq::empty(), current: Seq::empty() }
}

/// Completes the chunk being filled, unless there is no text in it.
pub open spec fn flushed(p: Packing) -> Packing {
    let text = text::trimmed(p.current);
    Packing {
        done: if text.len() == 0 {
            p.done
        } else {
            p.done.push(text)
        },
        current: Seq::empty(),
    }
}

/// Adds a text to the chunk being filled, behind the separator, where the
/// whole stays within `max` characters; else a new chunk starts with it.
pub open spec fn packed(p: Packing, separator: Seq<char>, text: Seq<char>, max: nat) -> Packing {
    if p.current.len() > 0 && p.current.len() + separator.len() + text.len() <= max {
        Packing { done: p.done, current: p.current + separator + text::trimmed(text) }
    } else {
        Packing { done: flushed(p).done, current: text::trimmed(text) }
    }
}

/// The separator between paragraphs and sentences in one chunk.
pub open spec fn blank_line() -> Seq<char> {
    seq!['\n', '\n']
}

/// The separator between words in one chunk.
pub open spec fn one_space() -> Seq<char> {
    seq![' ']
}

/// Packs the words of a list one after the other.
pub open spec fn packed_words(p: Packing, list: Seq<Seq<char>>, max: nat) -> Packing
    decreases list.len(),
{
    if list.len() == 0 {
        p
    } else {
        packed_words(packed(p, one_space(), list[0], max), list.skip(1), max)
    }
}

/// A text packed word by word into chunks of its own.
pub open spec fn word_chunks(s: Seq<char>, max: nat) -> Seq<Seq<char>> {
    flushed(packed_words(nothing_packed(), text::words(s), max)).done
}

/// Packs one sentence. One that is too long closes the chunk being filled and
/// is packed word by word.
pub open spec fn packed_sentence(p: Packing, s: Seq<char>, max: nat) -> Packing {
    if s.len() <= max {
        packed(p, blank_line(), s, max)
    } else {
        Packing { done: flushed(p).done + word_chunks(s, max), current: Seq::empty() }
    }
}

/// Packs the sentences of a list one after the other.
pub open spec fn packed_sentences(p: Packing, list: Seq<Seq<char>>, max: nat) -> Packing
    decreases list.len(),
{
    if list.len() == 0 {
        p
    } else {
        packed_sentences(packed_sentence(p, list[0], max), list.skip(1), max)
    }
}

/// Packs one paragraph. One that is too long closes the chunk being filled and
/// is packed sentence by sentence.
pub open spec fn packed_paragraph(p: Packing, s: Seq<char>, max: nat) -> Packing {
    if s.len() <= max {
        packed(p, blank_line(), s, max)
    } else {
        packed_sentences(flushed(p), sentences(s), max)
    }
}

/// Packs the paragraphs of a list one after the other.
pub open spec fn packed_paragraphs(p: Packing, list: Seq<Seq<char>>, max: nat) -> Packing
    decreases list.len(),
{
    if list.len() == 0 {
        p
    } else {
        packed_paragraphs(packed_paragraph(p, list[0], max), list.skip(1), max)
    }
}

/// The chunks of a text, of at most `max` characters each where its words
/// allow it.
pub open spec fn chunks_of(s: Seq<char>, max: nat) -> Seq<Seq<char>> {
    if max == 0 {
        Seq::empty()
    } else {
        flushed(packed_paragraphs(nothing_packed(), paragraphs(s), max)).done
    }
}

// ---------------------------------------------------------------------------
// Splitting
// ---------------------------------------------------------------------------

/// What a list of finished chunks and the chunk being filled stand for.
pub open spec fn packing(chunks: Seq<String>, current: Seq<char>) -> Packing {
    Packing { done: text::contents(chunks), current }
}

/// Splits a text at its blank line breaks.
fn split_pieces(cleaned: &str) -> (r: Vec<String>)
    ensures
        text::contents(r@) == pieces(cleaned@),
{
    let chars = text::to_chars(cleaned);
    let ghost s = cleaned@;
    let mut found: Vec<String> = Vec::new();
    let mut start: usize = 0;
    let mut i: usize = 0;
    proof {
        assert(s.skip(0) =~= s);
        assert(text::contents(found@) + pieces(s) =~= pieces(s));
    }
    while i < chars.len() && i + 1 < chars.len()
        invariant
            chars@ == s,
            start <= i <= chars@.len(),
            pieces(s) == text::contents(found@) + pieces(s.skip(start as int)),
            break_at(s.skip(start as int)) == (i - start) + break_at(s.skip(i as int)),
        decreases chars@.len() - i,
    {
        let ghost rest = s.skip(start as int);
        let ghost here = s.skip(i as int);
        if chars[i] == '\n' && chars[i + 1] == '\n' {
            let ghost before = text::contents(found@);
            found.push(text::slice_text(&chars, start, i));
            proof {
                assert(here[0] == '\n' && here[1] == '\n');
                assert(rest.take(i - start) =~= s.subrange(start as int, i as int));
                assert(rest.skip(i - start + 2) =~= s.skip(i + 2));
                assert(text::contents(found@) =~= before.push(s.subrange(start as int, i as int)));
                assert(text::contents(found@) + pieces(s.skip(i + 2)) =~= before + pieces(rest));
            }
            i += 2;
            start = i;
        } else {
            proof {
                assert(here.skip(1) =~= s.skip(i + 1));
                assert(here[0] == chars@[i as int] && here[1] == chars@[i + 1]);
            }
            i += 1;
        }
    }
    proof {
        let rest = s.skip(start as int);
        assert(break_at(rest) + 2 > rest.len());
        assert(rest =~= s.subrange(start as int, s.len() as int));
    }
    let ghost before = text::contents(found@);
    found.push(text::slice_text(&chars, start, chars.len()));
    proof {
        assert(text::contents(found@) =~= before.push(s.skip(start as int)));
        assert(text::contents(found@) =~= before + pieces(s.skip(start as int)));
    }
    found
}

/// Closes the chunk being filled: it becomes a chunk of its own, trimmed,
/// unless there is no text in it.
pub fn flush_current(chunks: &mut Vec<String>, current: &mut String)
    ensures
        packing(final(chunks)@, final(current)@) == flushed(packing(old(chunks)@, old(current)@)),
{
    let trimmed = text::trim(current.as_str());
    if !trimmed.as_str().is_empty() {
        chunks.push(trimmed);
        proof {
            assert(text::contents(chunks@) =~= text::contents(old(chunks)@).push(trimmed@));
        }
    }
    *current = String::new();
}

/// Adds a text to the chunk being filled, behind a blank line, where the whole
/// stays within `max_chars`; else the chunk is closed and a new one starts.
pub fn push_or_accumulate(
    chunks: &mut Vec<String>,
    current: &mut String,
    text: &str,
    max_chars: usize,
)
    ensures
        packing(final(chunks)@, final(current)@) == packed(
            packing(old(chunks)@, old(current)@),
            blank_line(),
            text@,
            max_chars as nat,
        ),
{
    let filled: usize = text::char_count(current.as_str());
    let added: usize = text::char_count(text);
    let trimmed = text::trim(text);
    if filled > 0 && max_chars >= 2 && filled <= max_chars - 2 && added <= max_chars - 2 - filled {
        current.push('\n');
        current.push('\n');
        current.append(trimmed.as_str());
        proof {
            assert(current@ =~= old(current)@ + blank_line() + trimmed@);
        }
    } else {
        flush_current(chunks, current);
        current.append(trimmed.as_str());
        proof {
            assert(current@ =~= trimmed@);
        }
    }
}

/// Splits a paragraph into its sentences. A sentence ends with `.`, `!` or `?`
/// where white space or nothing follows.
pub fn split_sentences(paragraph: &str) -> (r: Vec<String>)
    ensures
        text::contents(r@) == sentences(paragraph@),
{
    let chars = text::to_chars(paragraph);
    let ghost s = paragraph@;
    let mut found: Vec<String> = Vec::new();
    let mut start: usize = 0;
    let mut i: usize = 0;
    proof {
        assert(s.skip(0) =~= s);
        assert(text::contents(found@) + sentences(s) =~= sentences(s));
    }
    while i < chars.len()
        invariant
            chars@ == s,
            start <= i <= chars@.len(),
            sentences(s) == text::contents(found@) + sentences(s.skip(start as int)),
            sentence_len(s.skip(start as int)) == (i - start) + sentence_len(s.skip(i as int)),
        decreases chars@.len() - i,
    {
        let ghost rest = s.skip(start as int);
        let ghost here = s.skip(i as int);
        let c = chars[i];
        let terminator = c == '.' || c == '!' || c == '?';
        i += 1;
        if terminator && (i == chars.len() || text::is_whitespace(chars[i])) {
            let sentence = text::trim(text::slice_text(&chars, start, i).as_str());
            let ghost before = text::contents(found@);
            proof {
                assert(ends_sentence(here, 0));
                assert(rest.take(i - start) =~= s.subrange(start as int, i as int));
                assert(rest.skip(i - start) =~= s.skip(i as int));
                text::lemma_trimmed_keeps(rest.take(i - start), i - start - 1);
            }
            found.push(sentence);
            start = i;
            proof {
                assert(text::contents(found@) =~= before.push(sentence@));
                assert(text::contents(found@) + sentences(s.skip(i as int)) =~= before + sentences(
                    rest,
                ));
            }
        } else {
            proof {
                assert(!ends_sentence(here, 0));
                assert(here.skip(1) =~= s.skip(i as int));
            }
        }
    }
    let tail = text::trim(text::slice_text(&chars, start, chars.len()).as_str());
    proof {
        let rest = s.skip(start as int);
        assert(rest.take(rest.len() as int) =~= s.subrange(start as int, s.len() as int));
        assert(s.skip(s.len() as int).len() == 0);
        assert(rest.skip(rest.len() as int).len() == 0);
        assert(sentences(rest.skip(rest.len() as int)) =~= Seq::<Seq<char>>::empty()) by {
            text::lemma_trimmed_shrinks(rest.skip(rest.len() as int).take(0));
        }
    }
    let ghost before = text::contents(found@);
    if !tail.as_str().is_empty() {
        found.push(tail);
        proof {
            assert(text::contents(found@) =~= before + seq![tail@]);
        }
    }
    proof {
        let rest = s.skip(start as int);
        assert(text::contents(found@) =~= before + sentences(rest));
    }
    found
}

/// Packs a text word by word into chunks of at most `max_chars`. A word that
/// is longer than that becomes a chunk of its own.
pub fn hard_split(text: &str, max_chars: usize) -> (r: Vec<String>)
    ensures
        text::contents(r@) == word_chunks(text@, max_chars as nat),
{
    let list = text::split_whitespace(text);
    let mut chunks: Vec<String> = Vec::new();
    let mut current = String::new();
    let ghost all = text::words(text@);
    let mut i: usize = 0;
    proof {
        assert(text::contents(chunks@) =~= Seq::<Seq<char>>::empty());
        assert(all.skip(0) =~= all);
    }
    while i < list.len()
        invariant
            text::contents(list@) == all,
            all == text::words(text@),
            i <= list@.len(),
            packed_words(nothing_packed(), all, max_chars as nat) == packed_words(
                packing(chunks@, current@),
                all.skip(i as int),
                max_chars as nat,
            ),
        decreases list@.len() - i,
    {
        let ghost before = packing(chunks@, current@);
        let word = list[i].as_str();
        proof {
            assert(all.skip(i as int)[0] == all[i as int]);
            assert(all[i as int] == list@[i as int]@);
            assert(all.skip(i as int).skip(1) =~= all.skip(i + 1));
            text::lemma_words_are_solid(text@, i as int);
        }
        let filled: usize = text::char_count(current.as_str());
        let added: usize = text::char_count(word);
        if filled > 0 && max_chars >= 1 && filled <= max_chars - 1 && added <= max_chars - 1
            - filled {
            let ghost old_current = current@;
            current.push(' ');
            current.append(word);
            proof {
                assert(current@ =~= old_current + one_space() + word@);
            }
        } else {
            flush_current(&mut chunks, &mut current);
            current.append(word);
            proof {
                assert(current@ =~= word@);
            }
        }
        proof {
            assert(packing(chunks@, current@) == packed(
                before,
                one_space(),
                word@,
                max_chars as nat,
            ));
        }
        i += 1;
    }
    flush_current(&mut chunks, &mut current);
    chunks
}

/// Packs the sentences of a paragraph that is too long for one chunk.
fn pack_sentences(
    chunks: &mut Vec<String>,
    current: &mut String,
    paragraph: &str,
    max_chars: usize,
)
    ensures
        packing(final(chunks)@, final(current)@) == packed_sentences(
            packing(old(chunks)@, old(current)@),
            sentences(paragraph@),
            max_chars as nat,
        ),
{
    let list = split_sentences(paragraph);
    let ghost all = sentences(paragraph@);
    let ghost before = packing(chunks@, current@);
    let mut i: usize = 0;
    proof {
        assert(all.skip(0) =~= all);
    }
    while i < list.len()
        invariant
            text::contents(list@) == all,
            i <= list@.len(),
            packed_sentences(before, all, max_chars as nat) == packed_sentences(
                packing(chunks@, current@),
                all.skip(i as int),
                max_chars as nat,
            ),
        decreases list@.len() - i,
    {
        let sentence = list[i].as_str();
        proof {
            assert(all.skip(i as int)[0] == list@[i as int]@);
            assert(all.skip(i as int).skip(1) =~= all.skip(i + 1));
        }
        if text::char_count(sentence) <= max_chars {
            push_or_accumulate(chunks, current, sentence, max_chars);
        } else {
            flush_current(chunks, current);
            let mut tail = hard_split(sentence, max_chars);
            let ghost done = text::contents(chunks@);
            let ghost added = text::contents(tail@);
            chunks.append(&mut tail);
            proof {
                assert(text::contents(chunks@) =~= done + added);
            }
        }
        i += 1;
    }
}

/// Splits cleaned text into chunks of at most `max_chars` characters, except
/// that a longer word stays whole. No chunks come of `max_chars == 0`.
pub fn chunk_text(cleaned: &str, max_chars: usize) -> (r: Vec<String>)
    ensures
        text::contents(r@) == chunks_of(cleaned@, max_chars as nat),
{
    let mut chunks: Vec<String> = Vec::new();
    proof {
        assert(text::contents(chunks@) =~= Seq::<Seq<char>>::empty());
    }
    if max_chars == 0 {
        return chunks;
    }
    let list = split_pieces(cleaned);
    let mut current = String::new();
    let ghost all = pieces(cleaned@);
    let mut i: usize = 0;
    proof {
        assert(all.skip(0) =~= all);
    }
    while i < list.len()
        invariant
            text::contents(list@) == all,
            i <= list@.len(),
            packed_paragraphs(nothing_packed(), nonblank(all), max_chars as nat)
                == packed_paragraphs(
                packing(chunks@, current@),
                nonblank(all.skip(i as int)),
                max_chars as nat,
            ),
        decreases list@.len() - i,
    {
        let ghost rest = all.skip(i as int);
        let paragraph = text::trim(list[i].as_str());
        proof {
            assert(rest[0] == list@[i as int]@);
            assert(rest.skip(1) =~= all.skip(i + 1));
        }
        if !paragraph.as_str().is_empty() {
            proof {
                let more = nonblank(rest.skip(1));
                assert(nonblank(rest) == seq![paragraph@] + more);
                assert(nonblank(rest).skip(1) =~= more);
            }
            if text::char_count(paragraph.as_str()) <= max_chars {
                push_or_accumulate(&mut chunks, &mut current, paragraph.as_str(), max_chars);
            } else {
                flush_current(&mut chunks, &mut current);
                pack_sentences(&mut chunks, &mut current, paragraph.as_str(), max_chars);
            }
        }
        i += 1;
    }
    proof {
        assert(nonblank(all.skip(i as int)) =~= Seq::<Seq<char>>::empty());
    }
    flush_current(&mut chunks, &mut current);
    chunks
}

} // verus!
