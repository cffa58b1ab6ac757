//! What holds of the chunks of every text.

use vstd::prelude::*;

use crate::chunk;
use crate::clean;
use crate::clean_laws;
use crate::text;

verus! {

/// A chunk that may be handed out: there is text in it, no white space at its
/// ends, and it keeps to the limit unless it is a single word.
pub open spec fn is_chunk(c: Seq<char>, max: nat) -> bool {
    &&& c.len() > 0
    &&& text::is_tight(c)
    &&& c.len() <= max || text::is_solid(c)
}

/// Every finished chunk may be handed out, and so may the one being filled
/// once there is text in it.
pub open spec fn is_sound(p: chunk::Packing, max: nat) -> bool {
    &&& forall|i: int| 0 <= i < p.done.len() ==> is_chunk(#[trigger] p.done[i], max)
    &&& p.current.len() > 0 ==> is_chunk(p.current, max)
}

/// The words packed so far.
pub open spec fn packed_so_far(p: chunk::Packing) -> Seq<Seq<char>> {
    text::words_of_all(p.done) + text::words(p.current)
}

proof fn lemma_flushed(p: chunk::Packing, max: nat)
    requires
        is_sound(p, max),
    ensures
        is_sound(chunk::flushed(p), max),
        packed_so_far(chunk::flushed(p)) == packed_so_far(p),
        text::words_of_all(chunk::flushed(p).done) == packed_so_far(p),
{
    text::lemma_tight_is_trimmed(p.current);
    let f = chunk::flushed(p);
    assert(text::words(f.current) =~= Seq::<Seq<char>>::empty());
    if p.current.len() > 0 {
        assert(f.done.drop_last() =~= p.done);
        assert forall|i: int| 0 <= i < f.done.len() implies is_chunk(#[trigger] f.done[i], max) by {
            if i < p.done.len() {
                assert(f.done[i] == p.done[i]);
            }
        }
    } else {
        assert(text::words(p.current) =~= Seq::<Seq<char>>::empty());
    }
    assert(packed_so_far(f) =~= text::words_of_all(f.done));
    assert(packed_so_far(p) =~= text::words_of_all(f.done));
}

proof fn lemma_packed(p: chunk::Packing, separator: Seq<char>, s: Seq<char>, max: nat)
    requires
        is_sound(p, max),
        is_chunk(s, max),
        separator == chunk::blank_line() || separator == chunk::one_space(),
    ensures
        is_sound(chunk::packed(p, separator, s, max), max),
        packed_so_far(chunk::packed(p, separator, s, max)) == packed_so_far(p) + text::words(s),
{
    text::lemma_tight_is_trimmed(s);
    let q = chunk::packed(p, separator, s, max);
    if p.current.len() > 0 && p.current.len() + separator.len() + s.len() <= max {
        let joined = p.current + separator;
        text::lemma_words_append(p.current, separator);
        text::lemma_space_has_no_words(separator);
        assert(text::words(p.current) + text::words(separator) =~= text::words(p.current));
        text::lemma_words_append(joined, s);
        assert(q.current[0] == p.current[0]);
        assert(q.current.last() == s.last());
    } else {
        lemma_flushed(p, max);
    }
    assert(packed_so_far(q) =~= packed_so_far(p) + text::words(s));
}

proof fn lemma_packed_words(p: chunk::Packing, list: Seq<Seq<char>>, max: nat)
    requires
        is_sound(p, max),
        forall|i: int|
            0 <= i < list.len() ==> (#[trigger] list[i]).len() > 0 && text::is_solid(list[i]),
    ensures
        is_sound(chunk::packed_words(p, list, max), max),
        packed_so_far(chunk::packed_words(p, list, max)) == packed_so_far(p) + list,
    decreases list.len(),
{
    if list.len() == 0 {
        assert(packed_so_far(p) + list =~= packed_so_far(p));
    } else {
        let w = list[0];
        assert(is_chunk(w, max));
        lemma_packed(p, chunk::one_space(), w, max);
        text::lemma_solid_is_one_word(w);
        let q = chunk::packed(p, chunk::one_space(), w, max);
        lemma_packed_words(q, list.skip(1), max);
        assert(packed_so_far(p) + list =~= packed_so_far(q) + list.skip(1));
    }
}

proof fn lemma_word_chunks(s: Seq<char>, max: nat)
    ensures
        forall|i: int|
            0 <= i < chunk::word_chunks(s, max).len() ==> is_chunk(
                #[trigger] chunk::word_chunks(s, max)[i],
                max,
            ),
        text::words_of_all(chunk::word_chunks(s, max)) == text::words(s),
{
    let none = chunk::nothing_packed();
    let list = text::words(s);
    assert forall|i: int| 0 <= i < list.len() implies (#[trigger] list[i]).len() > 0
        && text::is_solid(list[i]) by {
        text::lemma_words_are_solid(s, i);
    }
    assert(text::words(none.current) =~= Seq::<Seq<char>>::empty());
    assert(packed_so_far(none) =~= Seq::<Seq<char>>::empty());
    lemma_packed_words(none, list, max);
    lemma_flushed(chunk::packed_words(none, list, max), max);
    assert(packed_so_far(none) + list =~= list);
}

proof fn lemma_packed_sentence(p: chunk::Packing, s: Seq<char>, max: nat)
    requires
        is_sound(p, max),
        s.len() > 0,
        text::is_tight(s),
    ensures
        is_sound(chunk::packed_sentence(p, s, max), max),
        packed_so_far(chunk::packed_sentence(p, s, max)) == packed_so_far(p) + text::words(s),
{
    if s.len() <= max {
        lemma_packed(p, chunk::blank_line(), s, max);
    } else {
        let q = chunk::packed_sentence(p, s, max);
        let f = chunk::flushed(p);
        let more = chunk::word_chunks(s, max);
        lemma_flushed(p, max);
        lemma_word_chunks(s, max);
        text::lemma_words_of_all_append(f.done, more);
        assert forall|i: int| 0 <= i < q.done.len() implies is_chunk(#[trigger] q.done[i], max) by {
            if i < f.done.len() {
                assert(q.done[i] == f.done[i]);
            } else {
                assert(q.done[i] == more[i - f.done.len()]);
            }
        }
        assert(text::words(q.current) =~= Seq::<Seq<char>>::empty());
        assert(packed_so_far(q) =~= packed_so_far(p) + text::words(s));
    }
}

/// A list of texts none of which is empty or has white space at its ends.
pub open spec fn all_tight(list: Seq<Seq<char>>) -> bool {
    forall|i: int| 0 <= i < list.len() ==> (#[trigger] list[i]).len() > 0 && text::is_tight(list[i])
}

proof fn lemma_packed_sentences(p: chunk::Packing, list: Seq<Seq<char>>, max: nat)
    requires
        is_sound(p, max),
        all_tight(list),
    ensures
        is_sound(chunk::packed_sentences(p, list, max), max),
        packed_so_far(chunk::packed_sentences(p, list, max)) == packed_so_far(p)
            + text::words_of_all(list),
    decreases list.len(),
{
    if list.len() == 0 {
        assert(packed_so_far(p) + text::words_of_all(list) =~= packed_so_far(p));
    } else {
        let s = list[0];
        let q = chunk::packed_sentence(p, s, max);
        lemma_packed_sentence(p, s, max);
        lemma_packed_sentences(q, list.skip(1), max);
        assert(seq![s] + list.skip(1) =~= list);
        text::lemma_words_of_all_append(seq![s], list.skip(1));
        text::lemma_words_of_one(s);
        assert(packed_so_far(p) + text::words_of_all(list) =~= packed_so_far(q)
            + text::words_of_all(list.skip(1)));
    }
}

proof fn lemma_sentence_len(s: Seq<char>)
    ensures
        chunk::sentence_len(s) <= s.len(),
        s.len() > 0 ==> chunk::sentence_len(s) > 0,
        chunk::sentence_len(s) < s.len() ==> text::is_space(s[chunk::sentence_len(s) as int]),
    decreases s.len(),
{
    if s.len() > 0 && !chunk::ends_sentence(s, 0) {
        lemma_sentence_len(s.skip(1));
        let n = chunk::sentence_len(s.skip(1)) as int;
        if n < s.skip(1).len() {
            assert(s.skip(1)[n] == s[n + 1]);
        }
    }
}

/// Sentences are not empty, have no white space at their ends, and keep the words
/// of the text.
pub proof fn lemma_sentences(s: Seq<char>)
    ensures
        all_tight(chunk::sentences(s)),
        text::words_of_all(chunk::sentences(s)) == text::words(s),
    decreases s.len(),
{
    let n = chunk::sentence_len(s) as int;
    lemma_sentence_len(s);
    let head = s.take(n);
    let first = text::trimmed(head);
    text::lemma_trimmed_is_tight(head);
    text::lemma_words_of_trimmed(head);
    assert(head + s.skip(n) =~= s);
    if first.len() == 0 || n == 0 {
        if n < s.len() {
            assert(false) by {
                lemma_sentence_ends(s);
                assert(head[n - 1] == s[n - 1]);
                text::lemma_trimmed_keeps(head, n - 1);
            }
        }
        assert(head =~= s);
        assert(text::words(first) =~= Seq::<Seq<char>>::empty());
    } else {
        let rest = chunk::sentences(s.skip(n));
        lemma_sentences(s.skip(n));
        let list = seq![first] + rest;
        text::lemma_words_append(head, s.skip(n));
        text::lemma_words_of_all_append(seq![first], rest);
        text::lemma_words_of_one(first);
        assert forall|i: int| 0 <= i < list.len() implies (#[trigger] list[i]).len() > 0
            && text::is_tight(list[i]) by {
            if i > 0 {
                assert(list[i] == rest[i - 1]);
            }
        }
    }
}

proof fn lemma_sentence_ends(s: Seq<char>)
    requires
        chunk::sentence_len(s) < s.len(),
    ensures
        0 < chunk::sentence_len(s),
        chunk::is_terminator(s[chunk::sentence_len(s) - 1]),
    decreases s.len(),
{
    if s.len() > 0 && !chunk::ends_sentence(s, 0) {
        lemma_sentence_ends(s.skip(1));
        let n = chunk::sentence_len(s.skip(1)) as int;
        assert(s.skip(1)[n - 1] == s[n]);
    }
}

proof fn lemma_packed_paragraphs(p: chunk::Packing, list: Seq<Seq<char>>, max: nat)
    requires
        is_sound(p, max),
        all_tight(list),
    ensures
        is_sound(chunk::packed_paragraphs(p, list, max), max),
        packed_so_far(chunk::packed_paragraphs(p, list, max)) == packed_so_far(p)
            + text::words_of_all(list),
    decreases list.len(),
{
    if list.len() == 0 {
        assert(packed_so_far(p) + text::words_of_all(list) =~= packed_so_far(p));
    } else {
        let s = list[0];
        let q = chunk::packed_paragraph(p, s, max);
        if s.len() <= max {
            lemma_packed(p, chunk::blank_line(), s, max);
        } else {
            lemma_flushed(p, max);
            lemma_sentences(s);
            lemma_packed_sentences(chunk::flushed(p), chunk::sentences(s), max);
        }
        lemma_packed_paragraphs(q, list.skip(1), max);
        assert(seq![s] + list.skip(1) =~= list);
        text::lemma_words_of_all_append(seq![s], list.skip(1));
        text::lemma_words_of_one(s);
        assert(packed_so_far(p) + text::words_of_all(list) =~= packed_so_far(q)
            + text::words_of_all(list.skip(1)));
    }
}

/// Paragraphs are not empty and have no white space at their ends, and they keep
/// the words of the pieces.
pub proof fn lemma_nonblank(list: Seq<Seq<char>>)
    ensures
        all_tight(chunk::nonblank(list)),
        text::words_of_all(chunk::nonblank(list)) == text::words_of_all(list),
    decreases list.len(),
{
    if list.len() > 0 {
        let rest = chunk::nonblank(list.skip(1));
        let paragraph = text::trimmed(list[0]);
        let all = chunk::nonblank(list);
        lemma_nonblank(list.skip(1));
        text::lemma_trimmed_is_tight(list[0]);
        text::lemma_words_of_trimmed(list[0]);
        assert(seq![list[0]] + list.skip(1) =~= list);
        text::lemma_words_of_all_append(seq![list[0]], list.skip(1));
        text::lemma_words_of_one(list[0]);
        if paragraph.len() == 0 {
            assert(text::words(paragraph) =~= Seq::<Seq<char>>::empty());
            assert(text::words_of_all(list) =~= text::words_of_all(list.skip(1)));
        } else {
            text::lemma_words_of_all_append(seq![paragraph], rest);
            text::lemma_words_of_one(paragraph);
            assert forall|i: int| 0 <= i < all.len() implies (#[trigger] all[i]).len() > 0
                && text::is_tight(all[i]) by {
                if i > 0 {
                    assert(all[i] == rest[i - 1]);
                }
            }
        }
    }
}

/// The first blank line break, where there is one, is two line ends.
pub proof fn lemma_break_at(s: Seq<char>)
    ensures
        chunk::break_at(s) <= s.len(),
        chunk::break_at(s) + 2 <= s.len() ==> s[chunk::break_at(s) as int] == '\n'
            && s[chunk::break_at(s) as int + 1] == '\n',
    decreases s.len(),
{
    if s.len() >= 2 && !(s[0] == '\n' && s[1] == '\n') {
        lemma_break_at(s.skip(1));
        let n = chunk::break_at(s.skip(1)) as int;
        if n + 2 <= s.skip(1).len() {
            assert(s.skip(1)[n] == s[n + 1]);
            assert(s.skip(1)[n + 1] == s[n + 2]);
        }
    }
}

proof fn lemma_pieces(s: Seq<char>)
    ensures
        text::words_of_all(chunk::pieces(s)) == text::words(s),
    decreases s.len(),
{
    let n = chunk::break_at(s) as int;
    lemma_break_at(s);
    if n + 2 <= s.len() {
        let head = s.take(n);
        let gap = s.subrange(n, n + 2);
        let tail = s.skip(n + 2);
        lemma_pieces(tail);
        assert(head + gap + tail =~= s);
        text::lemma_words_append(head + gap, tail);
        text::lemma_words_append(head, gap);
        text::lemma_space_has_no_words(gap);
        assert(text::words(head) + text::words(gap) =~= text::words(head));
        text::lemma_words_of_all_append(seq![head], chunk::pieces(tail));
        text::lemma_words_of_one(head);
    } else {
        text::lemma_words_of_one(s);
    }
}

/// Every chunk may be handed out, and the chunks keep the words of the text.
pub proof fn lemma_chunks(s: Seq<char>, max: nat)
    requires
        max > 0,
    ensures
        forall|i: int|
            0 <= i < chunk::chunks_of(s, max).len() ==> is_chunk(
                #[trigger] chunk::chunks_of(s, max)[i],
                max,
            ),
        text::words_of_all(chunk::chunks_of(s, max)) == text::words(s),
{
    let none = chunk::nothing_packed();
    assert(text::words(none.current) =~= Seq::<Seq<char>>::empty());
    assert(packed_so_far(none) =~= Seq::<Seq<char>>::empty());
    lemma_pieces(s);
    lemma_nonblank(chunk::pieces(s));
    lemma_packed_paragraphs(none, chunk::paragraphs(s), max);
    lemma_flushed(chunk::packed_paragraphs(none, chunk::paragraphs(s), max), max);
    assert(packed_so_far(none) + text::words(s) =~= text::words(s));
}

/// No chunk is empty, and none starts or ends with white space.
pub proof fn law_chunks_hold_text(s: Seq<char>, max: nat, i: int)
    requires
        0 <= i < chunk::chunks_of(s, max).len(),
    ensures
        chunk::chunks_of(s, max)[i].len() > 0,
        text::trimmed(chunk::chunks_of(s, max)[i]) == chunk::chunks_of(s, max)[i],
{
    lemma_chunks(s, max);
    assert(is_chunk(chunk::chunks_of(s, max)[i], max));
}

/// No chunk is longer than the limit, except a single word that is longer by
/// itself.
pub proof fn law_chunks_keep_to_the_limit(s: Seq<char>, max: nat, i: int)
    requires
        0 <= i < chunk::chunks_of(s, max).len(),
    ensures
        chunk::chunks_of(s, max)[i].len() <= max || text::words(chunk::chunks_of(s, max)[i])
            == seq![chunk::chunks_of(s, max)[i]],
{
    lemma_chunks(s, max);
    let c = chunk::chunks_of(s, max)[i];
    assert(is_chunk(c, max));
    if c.len() > max {
        text::lemma_solid_is_one_word(c);
    }
}

/// The chunks hold the words of the text, all of them and in order, and no
/// others.
pub proof fn law_chunks_keep_every_word(s: Seq<char>, max: nat)
    requires
        max > 0,
    ensures
        text::words_of_all(chunk::chunks_of(s, max)) == text::words(s),
{
    lemma_chunks(s, max);
}

spec fn run_on(first: Seq<char>, rest: Seq<Seq<char>>) -> Seq<char>
    decreases rest.len(),
{
    if rest.len() == 0 {
        first
    } else {
        run_on(first + chunk::blank_line() + rest[0], rest.skip(1))
    }
}

proof fn lemma_run_on_grows(first: Seq<char>, rest: Seq<Seq<char>>)
    ensures
        run_on(first, rest).len() >= first.len(),
    decreases rest.len(),
{
    if rest.len() > 0 {
        lemma_run_on_grows(first + chunk::blank_line() + rest[0], rest.skip(1));
    }
}

proof fn lemma_all_fit(p: chunk::Packing, list: Seq<Seq<char>>, max: nat)
    requires
        p.current.len() > 0,
        all_tight(list),
        run_on(p.current, list).len() <= max,
    ensures
        chunk::packed_paragraphs(p, list, max) == (chunk::Packing {
            done: p.done,
            current: run_on(p.current, list),
        }),
    decreases list.len(),
{
    if list.len() > 0 {
        let more = p.current + chunk::blank_line() + list[0];
        let rest = list.skip(1);
        lemma_run_on_grows(more, rest);
        text::lemma_tight_is_trimmed(list[0]);
        let next = chunk::Packing { done: p.done, current: more };
        assert(chunk::packed_paragraph(p, list[0], max) == next);
        assert(all_tight(rest)) by {
            assert forall|i: int| 0 <= i < rest.len() implies (#[trigger] rest[i]).len() > 0
                && text::is_tight(rest[i]) by {
                assert(rest[i] == list[i + 1]);
            }
        }
        lemma_all_fit(next, rest, max);
    }
}

proof fn lemma_run_on_is_joined(first: Seq<char>, rest: Seq<Seq<char>>)
    ensures
        run_on(first, rest) == clean::joined(seq![first] + rest, chunk::blank_line()),
    decreases rest.len(),
{
    let gap = chunk::blank_line();
    let list = seq![first] + rest;
    if rest.len() == 0 {
        assert(list =~= seq![first]);
    } else {
        let next = first + gap + rest[0];
        let tail = rest.skip(1);
        lemma_run_on_is_joined(next, tail);
        clean_laws::lemma_joined_front(list, gap);
        assert(list.skip(1) =~= rest);
        if tail.len() == 0 {
            assert(seq![next] + tail =~= seq![next]);
            assert(rest =~= seq![rest[0]]);
        } else {
            clean_laws::lemma_joined_front(seq![next] + tail, gap);
            clean_laws::lemma_joined_front(rest, gap);
            assert((seq![next] + tail).skip(1) =~= tail);
            let end = clean::joined(tail, gap);
            assert(next + gap + end =~= first + gap + (rest[0] + gap + end));
        }
    }
}

/// A text whose paragraphs fit into one chunk together is one chunk, which holds
/// all of them with a blank line between each two.
pub proof fn law_short_text_is_one_chunk(s: Seq<char>, max: nat)
    requires
        chunk::paragraphs(s).len() > 0,
        clean::joined(chunk::paragraphs(s), chunk::blank_line()).len() <= max,
    ensures
        chunk::chunks_of(s, max) == seq![
            clean::joined(chunk::paragraphs(s), chunk::blank_line()),
        ],
{
    let list = chunk::paragraphs(s);
    let rest = list.skip(1);
    let whole = run_on(list[0], rest);
    lemma_run_on_is_joined(list[0], rest);
    assert(seq![list[0]] + rest =~= list);
    lemma_nonblank(chunk::pieces(s));
    assert(list[0].len() > 0 && text::is_tight(list[0]));
    text::lemma_tight_is_trimmed(list[0]);
    lemma_run_on_grows(list[0], rest);
    assert(all_tight(rest)) by {
        assert forall|i: int| 0 <= i < rest.len() implies (#[trigger] rest[i]).len() > 0
            && text::is_tight(rest[i]) by {
            assert(rest[i] == list[i + 1]);
        }
    }
    let none = chunk::nothing_packed();
    let first = chunk::packed_paragraph(none, list[0], max);
    assert(first.current == list[0]);
    assert(first.done =~= Seq::<Seq<char>>::empty());
    lemma_all_fit(first, rest, max);
    let end = chunk::packed_paragraphs(none, list, max);
    assert(end == chunk::packed_paragraphs(first, rest, max));
    lemma_run_on_is_tight(list[0], rest);
    text::lemma_tight_is_trimmed(whole);
    assert(chunk::chunks_of(s, max) =~= seq![whole]);
}

proof fn lemma_run_on_is_tight(first: Seq<char>, rest: Seq<Seq<char>>)
    requires
        first.len() > 0,
        text::is_tight(first),
        all_tight(rest),
    ensures
        text::is_tight(run_on(first, rest)),
    decreases rest.len(),
{
    if rest.len() > 0 {
        let next = first + chunk::blank_line() + rest[0];
        let tail = rest.skip(1);
        assert(rest[0].len() > 0 && text::is_tight(rest[0]));
        assert(next[0] == first[0]);
        assert(next.last() == rest[0].last());
        assert(text::is_tight(next));
        assert forall|i: int| 0 <= i < tail.len() implies (#[trigger] tail[i]).len() > 0
            && text::is_tight(tail[i]) by {
            assert(tail[i] == rest[i + 1]);
        }
        lemma_run_on_is_tight(next, tail);
    }
}

} // verus!
