//! A chunk stays as it is when it is chunked again.

use vstd::prelude::*;

use crate::chunk;
use crate::chunk_laws;
use crate::clean;
use crate::clean_laws;
use crate::text;

verus! {

// ---------------------------------------------------------------------------
// Blocks
// ---------------------------------------------------------------------------

/// No blank line breaks the text.
spec fn is_unbroken(s: Seq<char>) -> bool {
    forall|i: int, j: int|
        0 <= i && j == i + 1 && j < s.len() ==> !(#[trigger] s[i] == '\n' && #[trigger] s[j]
            == '\n')
}

/// A text that is made of paragraphs with exactly a blank line between each two
/// of them.
spec fn is_block(s: Seq<char>) -> bool {
    &&& s.len() > 0
    &&& text::is_tight(s)
    &&& chunk_laws::all_tight(chunk::pieces(s))
}

/// All finished chunks are such texts, and so is the one being filled once there
/// is text in it.
spec fn holds_blocks(p: chunk::Packing) -> bool {
    &&& forall|i: int| 0 <= i < p.done.len() ==> is_block(#[trigger] p.done[i])
    &&& p.current.len() > 0 ==> is_block(p.current)
}

proof fn lemma_unbroken_part(s: Seq<char>, a: int, b: int)
    requires
        is_unbroken(s),
        0 <= a <= b <= s.len(),
    ensures
        is_unbroken(s.subrange(a, b)),
{
    let t = s.subrange(a, b);
    assert forall|i: int, j: int| 0 <= i && j == i + 1 && j < t.len() implies !(#[trigger] t[i]
        == '\n' && #[trigger] t[j] == '\n') by {
        assert(t[i] == s[a + i] && t[j] == s[a + j]);
    }
}

proof fn lemma_unbroken_trimmed(s: Seq<char>)
    requires
        is_unbroken(s),
    ensures
        is_unbroken(text::trimmed(s)),
{
    let (a, b) = text::lemma_trimmed_is_part(s);
    lemma_unbroken_part(s, a, b);
}

/// A text in which no two line ends follow each other is one piece.
pub proof fn lemma_one_piece(s: Seq<char>)
    requires
        forall|i: int, j: int|
            0 <= i && j == i + 1 && j < s.len() ==> !(#[trigger] s[i] == '\n' && #[trigger] s[j]
                == '\n'),
    ensures
        chunk::pieces(s) == seq![s],
{
    lemma_unbroken_is_one_piece(s);
}

proof fn lemma_unbroken_is_one_piece(s: Seq<char>)
    requires
        is_unbroken(s),
    ensures
        chunk::pieces(s) == seq![s],
{
    lemma_no_break(s);
}

proof fn lemma_no_break(s: Seq<char>)
    requires
        is_unbroken(s),
    ensures
        chunk::break_at(s) + 2 > s.len(),
    decreases s.len(),
{
    if s.len() >= 2 {
        assert(!(s[0] == '\n' && s[1] == '\n'));
        assert(s.skip(1) =~= s.subrange(1, s.len() as int));
        lemma_unbroken_part(s, 1, s.len() as int);
        lemma_no_break(s.skip(1));
    }
}

proof fn lemma_unbroken_is_block(s: Seq<char>)
    requires
        s.len() > 0,
        text::is_tight(s),
        is_unbroken(s),
    ensures
        is_block(s),
{
    lemma_unbroken_is_one_piece(s);
}

proof fn lemma_first_piece(s: Seq<char>)
    ensures
        chunk::break_at(s) <= s.len(),
        is_unbroken(s.take(chunk::break_at(s) as int)),
        chunk::break_at(s) + 2 > s.len() ==> is_unbroken(s),
    decreases s.len(),
{
    let n = chunk::break_at(s) as int;
    if s.len() >= 2 && !(s[0] == '\n' && s[1] == '\n') {
        let rest = s.skip(1);
        lemma_first_piece(rest);
        let head = s.take(n);
        assert forall|i: int, j: int|
            0 <= i && j == i + 1 && j < head.len() implies !(#[trigger] head[i] == '\n'
            && #[trigger] head[j] == '\n') by {
            if i > 0 {
                let t = rest.take(n - 1);
                assert(t[i - 1] == head[i] && t[j - 1] == head[j]);
            }
        }
        if n + 2 > s.len() {
            assert forall|i: int, j: int|
                0 <= i && j == i + 1 && j < s.len() implies !(#[trigger] s[i] == '\n'
                && #[trigger] s[j] == '\n') by {
                if i > 0 {
                    assert(rest[i - 1] == s[i] && rest[j - 1] == s[j]);
                }
            }
        }
    }
}

proof fn lemma_pieces_are_unbroken(s: Seq<char>, i: int)
    requires
        0 <= i < chunk::pieces(s).len(),
    ensures
        is_unbroken(chunk::pieces(s)[i]),
    decreases s.len(),
{
    let n = chunk::break_at(s) as int;
    lemma_first_piece(s);
    if n + 2 <= s.len() && i > 0 {
        lemma_pieces_are_unbroken(s.skip(n + 2), i - 1);
    }
}

proof fn lemma_paragraphs_are_unbroken(list: Seq<Seq<char>>, i: int)
    requires
        forall|k: int| 0 <= k < list.len() ==> is_unbroken(#[trigger] list[k]),
        0 <= i < chunk::nonblank(list).len(),
    ensures
        is_unbroken(chunk::nonblank(list)[i]),
    decreases list.len(),
{
    let rest = list.skip(1);
    lemma_unbroken_trimmed(list[0]);
    assert forall|k: int| 0 <= k < rest.len() implies is_unbroken(#[trigger] rest[k]) by {
        assert(rest[k] == list[k + 1]);
    }
    if text::trimmed(list[0]).len() == 0 {
        lemma_paragraphs_are_unbroken(rest, i);
    } else if i > 0 {
        lemma_paragraphs_are_unbroken(rest, i - 1);
    }
}

proof fn lemma_sentences_are_unbroken(s: Seq<char>, i: int)
    requires
        is_unbroken(s),
        0 <= i < chunk::sentences(s).len(),
    ensures
        is_unbroken(chunk::sentences(s)[i]),
    decreases s.len(),
{
    let n = chunk::sentence_len(s) as int;
    assert(s.take(n) =~= s.subrange(0, n));
    assert(s.skip(n) =~= s.subrange(n, s.len() as int));
    lemma_unbroken_part(s, 0, n);
    lemma_unbroken_part(s, n, s.len() as int);
    lemma_unbroken_trimmed(s.take(n));
    if i > 0 {
        lemma_sentences_are_unbroken(s.skip(n), i - 1);
    }
}

// ---------------------------------------------------------------------------
// Pieces of a block
// ---------------------------------------------------------------------------

proof fn lemma_break_in_front(a: Seq<char>, b: Seq<char>)
    requires
        a.len() > 0,
        a.last() != '\n',
    ensures
        chunk::break_at(a + chunk::blank_line() + b) == if chunk::break_at(a) + 2 <= a.len() {
            chunk::break_at(a)
        } else {
            a.len()
        },
    decreases a.len(),
{
    let gap = chunk::blank_line();
    let s = a + gap + b;
    if a.len() == 1 {
        assert(s.skip(1) =~= gap + b);
        assert((gap + b)[0] == '\n' && (gap + b)[1] == '\n');
        assert(s[0] == a.last());
        assert(chunk::break_at(gap + b) == 0);
    } else if !(a[0] == '\n' && a[1] == '\n') {
        assert(s[0] == a[0] && s[1] == a[1]);
        assert(s.skip(1) =~= a.skip(1) + gap + b);
        assert(a.skip(1).last() == a.last());
        lemma_break_in_front(a.skip(1), b);
        assert(chunk::break_at(s) == 1 + chunk::break_at(s.skip(1)));
    } else {
        assert(s[0] == a[0] && s[1] == a[1]);
    }
}

/// A blank line behind a text that ends with no line end parts the pieces.
pub proof fn lemma_pieces_append(a: Seq<char>, b: Seq<char>)
    requires
        a.len() > 0,
        a.last() != '\n',
    ensures
        chunk::pieces(a + chunk::blank_line() + b) == chunk::pieces(a) + chunk::pieces(b),
    decreases a.len(),
{
    let gap = chunk::blank_line();
    let s = a + gap + b;
    let n = chunk::break_at(a) as int;
    lemma_break_in_front(a, b);
    if n + 2 <= a.len() {
        chunk_laws::lemma_break_at(a);
        let rest = a.skip(n + 2);
        assert(a[a.len() - 1] != '\n');
        assert(n + 2 < a.len());
        assert(rest.last() == a.last());
        lemma_pieces_append(rest, b);
        assert(s.take(n) =~= a.take(n));
        assert(s.skip(n + 2) =~= rest + gap + b);
        assert(chunk::pieces(s) =~= chunk::pieces(a) + chunk::pieces(b));
    } else {
        assert(s.take(a.len() as int) =~= a);
        assert(s.skip(a.len() as int + 2) =~= b);
        assert(chunk::pieces(s) =~= chunk::pieces(a) + chunk::pieces(b));
    }
}

proof fn lemma_pieces_are_joined_back(s: Seq<char>)
    ensures
        chunk::pieces(s).len() > 0,
        clean::joined(chunk::pieces(s), chunk::blank_line()) == s,
    decreases s.len(),
{
    let n = chunk::break_at(s) as int;
    if n + 2 <= s.len() {
        let gap = chunk::blank_line();
        let rest = s.skip(n + 2);
        chunk_laws::lemma_break_at(s);
        lemma_pieces_are_joined_back(rest);
        clean_laws::lemma_joined_front(chunk::pieces(s), gap);
        assert(chunk::pieces(s).skip(1) =~= chunk::pieces(rest));
        assert(s.take(n) + gap + rest =~= s);
    }
}

proof fn lemma_tight_is_nonblank(list: Seq<Seq<char>>)
    requires
        chunk_laws::all_tight(list),
    ensures
        chunk::nonblank(list) == list,
    decreases list.len(),
{
    if list.len() > 0 {
        let rest = list.skip(1);
        text::lemma_tight_is_trimmed(list[0]);
        assert forall|i: int| 0 <= i < rest.len() implies (#[trigger] rest[i]).len() > 0
            && text::is_tight(rest[i]) by {
            assert(rest[i] == list[i + 1]);
        }
        lemma_tight_is_nonblank(rest);
        assert(seq![list[0]] + rest =~= list);
    }
}

// ---------------------------------------------------------------------------
// Packing
// ---------------------------------------------------------------------------

proof fn lemma_flushed_blocks(p: chunk::Packing)
    requires
        holds_blocks(p),
    ensures
        holds_blocks(chunk::flushed(p)),
{
    let f = chunk::flushed(p);
    text::lemma_tight_is_trimmed(p.current);
    assert forall|i: int| 0 <= i < f.done.len() implies is_block(#[trigger] f.done[i]) by {
        if i < p.done.len() {
            assert(f.done[i] == p.done[i]);
        }
    }
}

proof fn lemma_packed_blocks(p: chunk::Packing, s: Seq<char>, max: nat)
    requires
        holds_blocks(p),
        is_block(s),
    ensures
        holds_blocks(chunk::packed(p, chunk::blank_line(), s, max)),
{
    let gap = chunk::blank_line();
    let q = chunk::packed(p, gap, s, max);
    text::lemma_tight_is_trimmed(s);
    if p.current.len() > 0 && p.current.len() + gap.len() + s.len() <= max {
        let a = chunk::pieces(p.current);
        let b = chunk::pieces(s);
        lemma_pieces_append(p.current, s);
        assert(q.current[0] == p.current[0]);
        assert(q.current.last() == s.last());
        assert forall|i: int| 0 <= i < (a + b).len() implies (#[trigger] (a + b)[i]).len() > 0
            && text::is_tight((a + b)[i]) by {
            if i < a.len() {
                assert((a + b)[i] == a[i]);
            } else {
                assert((a + b)[i] == b[i - a.len()]);
            }
        }
    } else {
        lemma_flushed_blocks(p);
    }
}

/// All chunks are on one line.
spec fn holds_lines(p: chunk::Packing) -> bool {
    &&& forall|i: int|
        0 <= i < p.done.len() ==> clean_laws::lacks(#[trigger] p.done[i], '\n') && is_block(
            p.done[i],
        )
    &&& clean_laws::lacks(p.current, '\n')
    &&& text::is_tight(p.current)
}

proof fn lemma_line_is_block(s: Seq<char>)
    requires
        s.len() > 0,
        text::is_tight(s),
        clean_laws::lacks(s, '\n'),
    ensures
        is_block(s),
{
    lemma_unbroken_is_block(s);
}

proof fn lemma_flushed_lines(p: chunk::Packing)
    requires
        holds_lines(p),
    ensures
        holds_lines(chunk::flushed(p)),
{
    let f = chunk::flushed(p);
    text::lemma_tight_is_trimmed(p.current);
    if p.current.len() > 0 {
        lemma_line_is_block(p.current);
    }
    assert forall|i: int| 0 <= i < f.done.len() implies clean_laws::lacks(
        #[trigger] f.done[i],
        '\n',
    ) && is_block(f.done[i]) by {
        if i < p.done.len() {
            assert(f.done[i] == p.done[i]);
        }
    }
}

proof fn lemma_packed_lines(p: chunk::Packing, list: Seq<Seq<char>>, max: nat)
    requires
        holds_lines(p),
        forall|i: int|
            0 <= i < list.len() ==> (#[trigger] list[i]).len() > 0 && text::is_solid(list[i]),
    ensures
        holds_lines(chunk::packed_words(p, list, max)),
    decreases list.len(),
{
    if list.len() > 0 {
        let w = list[0];
        let gap = chunk::one_space();
        let q = chunk::packed(p, gap, w, max);
        assert(w.len() > 0 && text::is_solid(w));
        assert(text::is_tight(w));
        text::lemma_tight_is_trimmed(w);
        lemma_flushed_lines(p);
        assert(clean_laws::lacks(w, '\n')) by {
            assert forall|i: int| 0 <= i < w.len() implies #[trigger] w[i] != '\n' by {
                assert(!text::is_space(w[i]));
            }
        }
        if p.current.len() > 0 && p.current.len() + gap.len() + w.len() <= max {
            let c = p.current + gap + w;
            assert forall|i: int| 0 <= i < c.len() implies #[trigger] c[i] != '\n' by {
                if i < p.current.len() {
                    assert(c[i] == p.current[i]);
                } else if i > p.current.len() {
                    assert(c[i] == w[i - p.current.len() - 1]);
                }
            }
            assert(c[0] == p.current[0]);
            assert(c.last() == w.last());
        }
        assert(holds_lines(q));
        let rest = list.skip(1);
        assert forall|i: int| 0 <= i < rest.len() implies (#[trigger] rest[i]).len() > 0
            && text::is_solid(rest[i]) by {
            assert(rest[i] == list[i + 1]);
        }
        lemma_packed_lines(q, rest, max);
    }
}

proof fn lemma_word_chunks_are_blocks(s: Seq<char>, max: nat, i: int)
    requires
        0 <= i < chunk::word_chunks(s, max).len(),
    ensures
        is_block(chunk::word_chunks(s, max)[i]),
{
    let none = chunk::nothing_packed();
    let list = text::words(s);
    assert forall|k: int| 0 <= k < list.len() implies (#[trigger] list[k]).len() > 0
        && text::is_solid(list[k]) by {
        text::lemma_words_are_solid(s, k);
    }
    lemma_packed_lines(none, list, max);
    lemma_flushed_lines(chunk::packed_words(none, list, max));
}

proof fn lemma_sentence_blocks(p: chunk::Packing, list: Seq<Seq<char>>, max: nat)
    requires
        holds_blocks(p),
        forall|i: int| 0 <= i < list.len() ==> is_block(#[trigger] list[i]),
    ensures
        holds_blocks(chunk::packed_sentences(p, list, max)),
    decreases list.len(),
{
    if list.len() > 0 {
        let s = list[0];
        let q = chunk::packed_sentence(p, s, max);
        assert(is_block(s));
        if s.len() <= max {
            lemma_packed_blocks(p, s, max);
        } else {
            let f = chunk::flushed(p);
            let more = chunk::word_chunks(s, max);
            lemma_flushed_blocks(p);
            assert forall|i: int| 0 <= i < q.done.len() implies is_block(#[trigger] q.done[i]) by {
                if i < f.done.len() {
                    assert(q.done[i] == f.done[i]);
                } else {
                    lemma_word_chunks_are_blocks(s, max, i - f.done.len());
                }
            }
        }
        let rest = list.skip(1);
        assert forall|i: int| 0 <= i < rest.len() implies is_block(#[trigger] rest[i]) by {
            assert(rest[i] == list[i + 1]);
        }
        lemma_sentence_blocks(q, rest, max);
    }
}

proof fn lemma_paragraph_blocks(p: chunk::Packing, list: Seq<Seq<char>>, max: nat)
    requires
        holds_blocks(p),
        chunk_laws::all_tight(list),
        forall|i: int| 0 <= i < list.len() ==> is_unbroken(#[trigger] list[i]),
    ensures
        holds_blocks(chunk::packed_paragraphs(p, list, max)),
    decreases list.len(),
{
    if list.len() > 0 {
        let s = list[0];
        assert(s.len() > 0 && text::is_tight(s));
        assert(is_unbroken(s));
        if s.len() <= max {
            lemma_unbroken_is_block(s);
            lemma_packed_blocks(p, s, max);
        } else {
            let parts = chunk::sentences(s);
            lemma_flushed_blocks(p);
            chunk_laws::lemma_sentences(s);
            assert forall|i: int| 0 <= i < parts.len() implies is_block(#[trigger] parts[i]) by {
                lemma_sentences_are_unbroken(s, i);
                lemma_unbroken_is_block(parts[i]);
            }
            lemma_sentence_blocks(chunk::flushed(p), parts, max);
        }
        let rest = list.skip(1);
        assert forall|i: int| 0 <= i < rest.len() implies (#[trigger] rest[i]).len() > 0
            && text::is_tight(rest[i]) && is_unbroken(rest[i]) by {
            assert(rest[i] == list[i + 1]);
        }
        lemma_paragraph_blocks(chunk::packed_paragraph(p, s, max), rest, max);
    }
}

proof fn lemma_chunks_are_blocks(s: Seq<char>, max: nat, i: int)
    requires
        0 <= i < chunk::chunks_of(s, max).len(),
    ensures
        is_block(chunk::chunks_of(s, max)[i]),
{
    let none = chunk::nothing_packed();
    let parts = chunk::pieces(s);
    let list = chunk::paragraphs(s);
    chunk_laws::lemma_nonblank(parts);
    assert forall|k: int| 0 <= k < parts.len() implies is_unbroken(#[trigger] parts[k]) by {
        lemma_pieces_are_unbroken(s, k);
    }
    assert forall|k: int| 0 <= k < list.len() implies is_unbroken(#[trigger] list[k]) by {
        lemma_paragraphs_are_unbroken(parts, k);
    }
    lemma_paragraph_blocks(none, list, max);
    lemma_flushed_blocks(chunk::packed_paragraphs(none, list, max));
}

// ---------------------------------------------------------------------------
// Laws
// ---------------------------------------------------------------------------

proof fn lemma_solid_is_one_sentence(s: Seq<char>)
    requires
        text::is_solid(s),
    ensures
        chunk::sentence_len(s) == s.len(),
    decreases s.len(),
{
    if s.len() > 0 {
        let rest = s.skip(1);
        assert forall|i: int| 0 <= i < rest.len() implies !text::is_space(#[trigger] rest[i]) by {
            assert(rest[i] == s[i + 1]);
        }
        lemma_solid_is_one_sentence(rest);
        if s.len() > 1 {
            assert(!text::is_space(s[1]));
        }
    }
}

proof fn lemma_long_word_again(c: Seq<char>, max: nat)
    requires
        c.len() > max > 0,
        text::is_solid(c),
    ensures
        chunk::chunks_of(c, max) == seq![c],
{
    let none = chunk::nothing_packed();
    let one = seq![c];
    let nothing = Seq::<Seq<char>>::empty();
    assert(text::is_tight(c));
    text::lemma_tight_is_trimmed(c);
    assert(clean_laws::lacks(c, '\n')) by {
        assert forall|i: int| 0 <= i < c.len() implies #[trigger] c[i] != '\n' by {
            assert(!text::is_space(c[i]));
        }
    }
    lemma_unbroken_is_one_piece(c);
    assert(chunk_laws::all_tight(one));
    lemma_tight_is_nonblank(one);
    assert(one.skip(1) =~= nothing);

    lemma_solid_is_one_sentence(c);
    assert(c.take(c.len() as int) =~= c);
    let end = c.skip(c.len() as int);
    assert(end.len() == 0);
    assert(chunk::sentences(end) =~= nothing);
    assert(chunk::sentences(c) =~= one);

    text::lemma_solid_is_one_word(c);
    let filled = chunk::packed(none, chunk::one_space(), c, max);
    assert(filled.current == c);
    assert(filled.done =~= nothing);
    assert(chunk::packed_words(filled, nothing, max) == filled);
    assert(chunk::packed_words(none, one, max) == filled);
    assert(chunk::word_chunks(c, max) =~= one);

    let f = chunk::flushed(none);
    assert(f.done =~= nothing);
    let q = chunk::packed_sentence(f, c, max);
    assert(q.done =~= one);
    assert(chunk::packed_sentences(q, nothing, max) == q);
    assert(chunk::packed_sentences(f, one, max) == q);
    assert(chunk::packed_paragraph(none, c, max) == q);
    assert(chunk::packed_paragraphs(q, nothing, max) == q);
    assert(chunk::packed_paragraphs(none, one, max) == q);
    assert(text::trimmed(q.current).len() == 0);
    assert(chunk::flushed(q).done == q.done);
}

/// A chunk that is chunked again with the same limit comes back as that one
/// chunk.
pub proof fn law_chunks_stay_whole(s: Seq<char>, max: nat, i: int)
    requires
        0 <= i < chunk::chunks_of(s, max).len(),
    ensures
        chunk::chunks_of(chunk::chunks_of(s, max)[i], max) == seq![chunk::chunks_of(s, max)[i]],
{
    let c = chunk::chunks_of(s, max)[i];
    chunk_laws::lemma_chunks(s, max);
    assert(chunk_laws::is_chunk(c, max));
    if c.len() <= max {
        lemma_chunks_are_blocks(s, max, i);
        lemma_tight_is_nonblank(chunk::pieces(c));
        lemma_pieces_are_joined_back(c);
        chunk_laws::law_short_text_is_one_chunk(c, max);
    } else {
        lemma_long_word_again(c, max);
    }
}

} // verus!
