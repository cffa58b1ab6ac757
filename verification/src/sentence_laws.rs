//! Where sentences end, and what a chunk is made of.

use vstd::prelude::*;

use crate::chunk;
use crate::chunk_laws;
use crate::clean;
use crate::packing_laws;
use crate::rechunk_laws;
use crate::text;

verus! {

// ---------------------------------------------------------------------------
// Sentences
// ---------------------------------------------------------------------------

/// A full stop, an exclamation mark or a question mark stands at `i`, and white
/// space directly behind it.
pub open spec fn is_stop(s: Seq<char>, i: int) -> bool {
    &&& 0 <= i
    &&& i + 1 < s.len()
    &&& s[i] == '.' || s[i] == '!' || s[i] == '?'
    &&& text::is_space(s[i + 1])
}

/// There is no such place in the text.
pub open spec fn has_no_stop(s: Seq<char>) -> bool {
    forall|i: int| !#[trigger] is_stop(s, i)
}

proof fn lemma_sentence_end(s: Seq<char>)
    ensures
        chunk::sentence_len(s) <= s.len(),
        s.len() > 0 ==> chunk::sentence_len(s) > 0,
        forall|i: int| 0 <= i < chunk::sentence_len(s) - 1 ==> !#[trigger] is_stop(s, i),
        chunk::sentence_len(s) < s.len() ==> is_stop(s, chunk::sentence_len(s) - 1),
    decreases s.len(),
{
    if s.len() > 0 {
        let rest = s.skip(1);
        let n = chunk::sentence_len(s) as int;
        if !chunk::ends_sentence(s, 0) {
            lemma_sentence_end(rest);
            assert forall|i: int| 0 <= i < n - 1 implies !#[trigger] is_stop(s, i) by {
                if i > 0 {
                    assert(!is_stop(rest, i - 1));
                    assert(rest[i - 1] == s[i]);
                    if i + 1 < s.len() {
                        assert(rest[i] == s[i + 1]);
                    }
                }
            }
            if n < s.len() {
                assert(is_stop(rest, n - 2));
                assert(rest[n - 2] == s[n - 1] && rest[n - 1] == s[n]);
            }
        }
    }
}

proof fn lemma_no_stop_in_part(s: Seq<char>, a: int, b: int)
    requires
        0 <= a <= b <= s.len(),
        forall|i: int| a <= i < b - 1 ==> !#[trigger] is_stop(s, i),
    ensures
        has_no_stop(s.subrange(a, b)),
{
    let t = s.subrange(a, b);
    assert forall|i: int| !#[trigger] is_stop(t, i) by {
        if 0 <= i && i + 1 < t.len() {
            assert(!is_stop(s, a + i));
            assert(t[i] == s[a + i] && t[i + 1] == s[a + i + 1]);
        }
    }
}

proof fn lemma_no_stop_trimmed(s: Seq<char>)
    requires
        has_no_stop(s),
    ensures
        has_no_stop(text::trimmed(s)),
{
    let (a, b) = text::lemma_trimmed_is_part(s);
    lemma_no_stop_in_part(s, a, b);
}

proof fn lemma_no_stop_in_sentence(s: Seq<char>, k: int)
    requires
        0 <= k < chunk::sentences(s).len(),
    ensures
        has_no_stop(chunk::sentences(s)[k]),
    decreases s.len(),
{
    let n = chunk::sentence_len(s) as int;
    lemma_sentence_end(s);
    if k == 0 {
        lemma_no_stop_in_part(s, 0, n);
        assert(s.take(n) =~= s.subrange(0, n));
        lemma_no_stop_trimmed(s.take(n));
    } else {
        lemma_no_stop_in_sentence(s.skip(n), k - 1);
    }
}

/// No sentence holds, before its last character, a full stop, an exclamation mark
/// or a question mark with white space directly behind it.
pub proof fn law_sentences_are_not_run_together(s: Seq<char>, k: int, i: int)
    requires
        0 <= k < chunk::sentences(s).len(),
        0 <= i,
        i + 1 < chunk::sentences(s)[k].len(),
        text::is_space(chunk::sentences(s)[k][i + 1]),
    ensures
        chunk::sentences(s)[k][i] != '.',
        chunk::sentences(s)[k][i] != '!',
        chunk::sentences(s)[k][i] != '?',
{
    lemma_no_stop_in_sentence(s, k);
    assert(!is_stop(chunk::sentences(s)[k], i));
}

proof fn lemma_sentence_len_is(s: Seq<char>, n: int)
    requires
        0 < n <= s.len(),
        forall|i: int| 0 <= i < n - 1 ==> !#[trigger] is_stop(s, i),
        n == s.len() || is_stop(s, n - 1),
    ensures
        chunk::sentence_len(s) == n,
{
    lemma_sentence_end(s);
    let m = chunk::sentence_len(s) as int;
    if m < n {
        assert(is_stop(s, m - 1));
    } else if m > n {
        assert(is_stop(s, n - 1));
    }
}

/// A text that starts with a stretch without such a place and then comes to one
/// starts with the sentence that ends there. The sentences of the rest follow.
pub proof fn law_sentence_ends_at_a_stop(head: Seq<char>, tail: Seq<char>)
    requires
        has_no_stop(head),
        is_stop(head + tail, head.len() - 1),
    ensures
        chunk::sentences(head + tail) == seq![text::trimmed(head)] + chunk::sentences(tail),
{
    let s = head + tail;
    let n = head.len() as int;
    assert forall|i: int| 0 <= i < n - 1 implies !#[trigger] is_stop(s, i) by {
        assert(!is_stop(head, i));
        assert(s[i] == head[i] && s[i + 1] == head[i + 1]);
    }
    lemma_sentence_len_is(s, n);
    assert(s.take(n) =~= head);
    assert(s.skip(n) =~= tail);
    assert(head[n - 1] == s[n - 1]);
    text::lemma_trimmed_keeps(head, n - 1);
}

/// A text without such a place is one sentence, unless it is blank.
pub proof fn law_text_without_a_stop_is_one_sentence(s: Seq<char>)
    requires
        has_no_stop(s),
    ensures
        chunk::sentences(s) == if text::trimmed(s).len() == 0 {
            Seq::empty()
        } else {
            seq![text::trimmed(s)]
        },
{
    if s.len() > 0 {
        let n = s.len() as int;
        lemma_sentence_len_is(s, n);
        assert(s.take(n) =~= s);
        let end = s.skip(n);
        assert(end.len() == 0);
        assert(end.take(0) =~= end);
        assert(text::trimmed(end).len() == 0);
        assert(chunk::sentences(end) =~= Seq::<Seq<char>>::empty());
        if text::trimmed(s).len() > 0 {
            assert(seq![text::trimmed(s)] + chunk::sentences(end) =~= seq![text::trimmed(s)]);
        }
    } else {
        assert(s.take(0) =~= s);
        assert(text::trimmed(s).len() == 0);
    }
}

/// Every sentence but the last ends with a full stop, an exclamation mark or a
/// question mark.
pub proof fn law_sentences_end_with_a_mark(s: Seq<char>, k: int)
    requires
        0 <= k < chunk::sentences(s).len() - 1,
    ensures
        chunk::sentences(s)[k].len() > 0,
        chunk::sentences(s)[k].last() == '.' || chunk::sentences(s)[k].last() == '!'
            || chunk::sentences(s)[k].last() == '?',
    decreases s.len(),
{
    let n = chunk::sentence_len(s) as int;
    lemma_sentence_end(s);
    if k == 0 {
        if n == s.len() {
            let end = s.skip(n);
            assert(end.len() == 0);
            assert(end.take(0) =~= end);
            assert(chunk::sentences(end) =~= Seq::<Seq<char>>::empty());
        }
        assert(is_stop(s, n - 1));
        let head = s.take(n);
        assert(head.last() == s[n - 1]);
        text::lemma_trimmed_keeps(head, n - 1);
        lemma_trimmed_keeps_end(head);
    } else {
        law_sentences_end_with_a_mark(s.skip(n), k - 1);
    }
}

proof fn lemma_trimmed_keeps_end(s: Seq<char>)
    requires
        s.len() > 0,
        !text::is_space(s.last()),
    ensures
        text::trimmed(s).len() > 0,
        text::trimmed(s).last() == s.last(),
    decreases s.len(),
{
    text::lemma_trimmed_keeps(s, s.len() - 1);
    if text::is_space(s[0]) {
        let rest = s.skip(1);
        assert(rest.len() > 0);
        assert(rest.last() == s.last());
        lemma_trimmed_keeps_end(rest);
        assert(text::trimmed(s) == text::trimmed(rest));
    }
}

// ---------------------------------------------------------------------------
// Greedy packing
// ---------------------------------------------------------------------------

/// The groups, each of them joined to one text.
pub open spec fn each_joined(
    groups: Seq<Seq<Seq<char>>>,
    separator: Seq<char>,
) -> Seq<Seq<char>> {
    groups.map_values(|group: Seq<Seq<char>>| clean::joined(group, separator))
}

/// All groups can be chunks, and none of them has room for the first text of the
/// next.
pub open spec fn are_full(groups: Seq<Seq<Seq<char>>>, separator: Seq<char>, max: nat) -> bool {
    &&& packing_laws::are_groups(groups, separator, max)
    &&& forall|i: int, j: int|
        0 <= i && j == i + 1 && j < groups.len() ==> clean::joined(
            #[trigger] groups[i],
            separator,
        ).len() + separator.len() + (#[trigger] groups[j])[0].len() > max
}

/// The chunks hold the texts whole and in order, each chunk as many of them as
/// fit.
pub open spec fn is_packed(
    units: Seq<Seq<char>>,
    chunks: Seq<Seq<char>>,
    separator: Seq<char>,
    max: nat,
) -> bool {
    exists|groups: Seq<Seq<Seq<char>>>|
        {
            &&& are_full(groups, separator, max)
            &&& packing_laws::all_grouped(groups) == units
            &&& chunks == #[trigger] each_joined(groups, separator)
        }
}

spec fn packed_all(
    p: chunk::Packing,
    list: Seq<Seq<char>>,
    separator: Seq<char>,
    max: nat,
) -> chunk::Packing
    decreases list.len(),
{
    if list.len() == 0 {
        p
    } else {
        packed_all(chunk::packed(p, separator, list[0], max), list.skip(1), separator, max)
    }
}

proof fn lemma_pack_groups(
    p: chunk::Packing,
    group: Seq<Seq<char>>,
    list: Seq<Seq<char>>,
    separator: Seq<char>,
    max: nat,
) -> (groups: Seq<Seq<Seq<char>>>)
    requires
        packing_laws::is_group(group, separator, max),
        p.current == clean::joined(group, separator),
        p.current.len() > 0,
        text::is_tight(p.current),
        chunk_laws::all_tight(list),
    ensures
        groups.len() > 0,
        groups[0].len() > 0,
        groups[0][0] == group[0],
        are_full(groups, separator, max),
        packing_laws::all_grouped(groups) == group + list,
        chunk::flushed(packed_all(p, list, separator, max)).done == p.done + each_joined(
            groups,
            separator,
        ),
    decreases list.len(),
{
    let one = seq![group];
    text::lemma_tight_is_trimmed(p.current);
    assert(one.skip(1) =~= Seq::<Seq<Seq<char>>>::empty());
    assert(packing_laws::all_grouped(one.skip(1)) =~= Seq::<Seq<char>>::empty());
    if list.len() == 0 {
        assert(packing_laws::all_grouped(one) =~= group + list);
        assert(each_joined(one, separator) =~= seq![p.current]);
        assert(p.done.push(p.current) =~= p.done + each_joined(one, separator));
        one
    } else {
        let unit = list[0];
        let rest = list.skip(1);
        packing_laws::lemma_rest_is_tight(list);
        let q = packing_laws::lemma_packed_count(p, separator, unit, max);
        text::lemma_tight_is_trimmed(unit);
        if p.current.len() + separator.len() + unit.len() <= max {
            let more = group.push(unit);
            assert(more.drop_last() =~= group);
            assert(clean::joined(more, separator) == p.current + separator + unit);
            let groups = lemma_pack_groups(q, more, rest, separator, max);
            assert(more + rest =~= group + list);
            groups
        } else {
            let next = seq![unit];
            assert(clean::joined(next, separator) == unit);
            let others = lemma_pack_groups(q, next, rest, separator, max);
            let groups = one + others;
            assert(groups.skip(1) =~= others);
            assert(next + rest =~= list);
            assert(packing_laws::all_grouped(groups) =~= group + list);
            assert forall|i: int| 0 <= i < groups.len() implies packing_laws::is_group(
                #[trigger] groups[i],
                separator,
                max,
            ) by {
                if i > 0 {
                    assert(groups[i] == others[i - 1]);
                }
            }
            assert forall|i: int, j: int|
                0 <= i && j == i + 1 && j < groups.len() implies clean::joined(
                #[trigger] groups[i],
                separator,
            ).len() + separator.len() + (#[trigger] groups[j])[0].len() > max by {
                assert(groups[j] == others[j - 1]);
                if i > 0 {
                    assert(groups[i] == others[i - 1]);
                }
            }
            assert(q.done =~= p.done.push(p.current));
            assert(each_joined(groups, separator) =~= seq![p.current] + each_joined(
                others,
                separator,
            ));
            assert(q.done + each_joined(others, separator) =~= p.done + each_joined(
                groups,
                separator,
            ));
            groups
        }
    }
}

proof fn lemma_pack_all(
    done: Seq<Seq<char>>,
    list: Seq<Seq<char>>,
    separator: Seq<char>,
    max: nat,
) -> (chunks: Seq<Seq<char>>)
    requires
        chunk_laws::all_tight(list),
    ensures
        is_packed(list, chunks, separator, max),
        chunk::flushed(
            packed_all(chunk::Packing { done, current: Seq::empty() }, list, separator, max),
        ).done == done + chunks,
{
    let start = chunk::Packing { done, current: Seq::empty() };
    let empty = Seq::<Seq<char>>::empty();
    if list.len() == 0 {
        let groups = Seq::<Seq<Seq<char>>>::empty();
        assert(each_joined(groups, separator) =~= empty);
        assert(packing_laws::all_grouped(groups) =~= list);
        assert(is_packed(list, empty, separator, max));
        assert(text::trimmed(start.current).len() == 0);
        assert(done + empty =~= done);
        empty
    } else {
        packing_laws::lemma_rest_is_tight(list);
        text::lemma_tight_is_trimmed(list[0]);
        let first = chunk::packed(start, separator, list[0], max);
        assert(text::trimmed(start.current).len() == 0);
        assert(first.done == done && first.current == list[0]);
        let group = seq![list[0]];
        let groups = lemma_pack_groups(first, group, list.skip(1), separator, max);
        assert(group + list.skip(1) =~= list);
        assert(is_packed(list, each_joined(groups, separator), separator, max));
        each_joined(groups, separator)
    }
}

proof fn lemma_words_are_packed(p: chunk::Packing, list: Seq<Seq<char>>, max: nat)
    ensures
        chunk::packed_words(p, list, max) == packed_all(p, list, chunk::one_space(), max),
    decreases list.len(),
{
    if list.len() > 0 {
        lemma_words_are_packed(
            chunk::packed(p, chunk::one_space(), list[0], max),
            list.skip(1),
            max,
        );
    }
}

/// A text that is packed word by word: its words stay whole and in order, with a
/// space between each two in a chunk, and each chunk holds as many as fit.
pub proof fn law_words_fill_the_chunks(s: Seq<char>, max: nat)
    ensures
        is_packed(text::words(s), chunk::word_chunks(s, max), seq![' '], max),
{
    let list = text::words(s);
    let none = Seq::<Seq<char>>::empty();
    assert forall|i: int| 0 <= i < list.len() implies (#[trigger] list[i]).len() > 0
        && text::is_tight(list[i]) by {
        text::lemma_words_are_solid(s, i);
    }
    let chunks = lemma_pack_all(none, list, chunk::one_space(), max);
    lemma_words_are_packed(chunk::nothing_packed(), list, max);
    assert(none + chunks =~= chunks);
    assert(chunk::one_space() =~= seq![' ']);
}

// ---------------------------------------------------------------------------
// Sentences and paragraphs in chunks
// ---------------------------------------------------------------------------

/// The position of the first text that is too long for a chunk, or the length of
/// the list.
pub open spec fn first_long(units: Seq<Seq<char>>, max: nat) -> nat
    decreases units.len(),
{
    if units.len() == 0 || units[0].len() > max {
        0
    } else {
        1 + first_long(units.skip(1), max)
    }
}

/// The chunks hold the texts in order. Texts that fit stay whole, with a blank
/// line between each two in a chunk, and each chunk holds as many as fit. A text
/// that is too long is packed word by word into chunks of its own.
pub open spec fn is_split(units: Seq<Seq<char>>, chunks: Seq<Seq<char>>, max: nat) -> bool
    decreases units.len(),
{
    let k = first_long(units, max) as int;
    if k >= units.len() {
        is_packed(units, chunks, seq!['\n', '\n'], max)
    } else {
        exists|m: int, n: int|
            {
                &&& 0 <= m <= n <= chunks.len()
                &&& is_packed(units.take(k), chunks.take(m), seq!['\n', '\n'], max)
                &&& is_packed(
                    text::words(units[k]),
                    #[trigger] chunks.subrange(m, n),
                    seq![' '],
                    max,
                )
                &&& is_split(units.skip(k + 1), chunks.skip(n), max)
            }
    }
}

proof fn lemma_first_long(units: Seq<Seq<char>>, max: nat)
    ensures
        first_long(units, max) <= units.len(),
        forall|i: int| 0 <= i < first_long(units, max) ==> (#[trigger] units[i]).len() <= max,
        first_long(units, max) < units.len() ==> units[first_long(units, max) as int].len() > max,
    decreases units.len(),
{
    if units.len() > 0 && units[0].len() <= max {
        let rest = units.skip(1);
        lemma_first_long(rest, max);
        assert forall|i: int| 0 <= i < first_long(units, max) implies (
        #[trigger] units[i]).len() <= max by {
            if i > 0 {
                assert(rest[i - 1] == units[i]);
            }
        }
    }
}

proof fn lemma_sentences_append(
    p: chunk::Packing,
    a: Seq<Seq<char>>,
    b: Seq<Seq<char>>,
    max: nat,
)
    ensures
        chunk::packed_sentences(p, a + b, max) == chunk::packed_sentences(
            chunk::packed_sentences(p, a, max),
            b,
            max,
        ),
    decreases a.len(),
{
    if a.len() == 0 {
        assert(a + b =~= b);
    } else {
        assert((a + b).skip(1) =~= a.skip(1) + b);
        lemma_sentences_append(chunk::packed_sentence(p, a[0], max), a.skip(1), b, max);
    }
}

proof fn lemma_short_sentences(p: chunk::Packing, list: Seq<Seq<char>>, max: nat)
    requires
        forall|i: int| 0 <= i < list.len() ==> (#[trigger] list[i]).len() <= max,
    ensures
        chunk::packed_sentences(p, list, max) == packed_all(p, list, chunk::blank_line(), max),
    decreases list.len(),
{
    if list.len() > 0 {
        let rest = list.skip(1);
        assert(list[0].len() <= max);
        assert forall|i: int| 0 <= i < rest.len() implies (#[trigger] rest[i]).len() <= max by {
            assert(rest[i] == list[i + 1]);
        }
        lemma_short_sentences(chunk::packed_sentence(p, list[0], max), rest, max);
    }
}

proof fn lemma_tight_part(list: Seq<Seq<char>>, a: int, b: int)
    requires
        chunk_laws::all_tight(list),
        0 <= a <= b <= list.len(),
    ensures
        chunk_laws::all_tight(list.subrange(a, b)),
{
    let part = list.subrange(a, b);
    assert forall|i: int| 0 <= i < part.len() implies (#[trigger] part[i]).len() > 0
        && text::is_tight(part[i]) by {
        assert(part[i] == list[a + i]);
    }
}

proof fn lemma_split(done: Seq<Seq<char>>, units: Seq<Seq<char>>, max: nat) -> (chunks: Seq<
    Seq<char>,
>)
    requires
        chunk_laws::all_tight(units),
    ensures
        is_split(units, chunks, max),
        chunk::flushed(
            chunk::packed_sentences(
                chunk::Packing { done, current: Seq::empty() },
                units,
                max,
            ),
        ).done == done + chunks,
    decreases units.len(),
{
    let start = chunk::Packing { done, current: Seq::empty() };
    let gap = seq!['\n', '\n'];
    let k = first_long(units, max) as int;
    assert(chunk::blank_line() =~= gap);
    lemma_first_long(units, max);
    if k >= units.len() {
        lemma_short_sentences(start, units, max);
        lemma_pack_all(done, units, chunk::blank_line(), max)
    } else {
        let head = units.take(k);
        let long = units[k];
        let tail = units.skip(k + 1);
        assert(head =~= units.subrange(0, k));
        assert(tail =~= units.subrange(k + 1, units.len() as int));
        lemma_tight_part(units, 0, k);
        lemma_tight_part(units, k + 1, units.len() as int);
        assert forall|i: int| 0 <= i < head.len() implies (#[trigger] head[i]).len() <= max by {
            assert(head[i] == units[i]);
        }
        lemma_short_sentences(start, head, max);
        let first = lemma_pack_all(done, head, chunk::blank_line(), max);
        let q = chunk::packed_sentences(start, head, max);
        let words = chunk::word_chunks(long, max);
        law_words_fill_the_chunks(long, max);
        let after = chunk::packed_sentence(q, long, max);
        assert(after.done == done + first + words);
        assert(after.current =~= Seq::<char>::empty());
        let last = lemma_split(done + first + words, tail, max);
        assert(after == (chunk::Packing {
            done: done + first + words,
            current: Seq::empty(),
        }));
        assert(units =~= head + (seq![long] + tail));
        lemma_sentences_append(start, head, seq![long] + tail, max);
        assert((seq![long] + tail).skip(1) =~= tail);
        let chunks = first + words + last;
        let m = first.len() as int;
        let n = m + words.len();
        assert(chunks.take(m) =~= first);
        assert(chunks.subrange(m, n) =~= words);
        assert(chunks.skip(n) =~= last);
        assert(done + chunks =~= done + first + words + last);
        chunks
    }
}

proof fn lemma_short_paragraphs(p: chunk::Packing, list: Seq<Seq<char>>, max: nat)
    requires
        forall|i: int| 0 <= i < list.len() ==> (#[trigger] list[i]).len() <= max,
    ensures
        chunk::packed_paragraphs(p, list, max) == chunk::packed_sentences(p, list, max),
    decreases list.len(),
{
    if list.len() > 0 {
        let rest = list.skip(1);
        assert(list[0].len() <= max);
        assert forall|i: int| 0 <= i < rest.len() implies (#[trigger] rest[i]).len() <= max by {
            assert(rest[i] == list[i + 1]);
        }
        lemma_short_paragraphs(chunk::packed_paragraph(p, list[0], max), rest, max);
    }
}

/// The texts that are packed whole where they fit: the paragraphs, but the
/// sentences of a first paragraph that is too long.
pub open spec fn units_of(paragraphs: Seq<Seq<char>>, max: nat) -> Seq<Seq<char>> {
    if paragraphs.len() > 0 && paragraphs[0].len() > max {
        chunk::sentences(paragraphs[0]) + paragraphs.skip(1)
    } else {
        paragraphs
    }
}

/// A text of which no paragraph but the first is too long: the paragraphs stay
/// whole, and of a first one that is too long the sentences do. Only a sentence
/// that is too long itself is split.
pub proof fn law_paragraphs_and_sentences_fill_the_chunks(s: Seq<char>, max: nat)
    requires
        max > 0,
        forall|i: int|
            0 < i < chunk::paragraphs(s).len() ==> (#[trigger] chunk::paragraphs(s)[i]).len()
                <= max,
    ensures
        is_split(units_of(chunk::paragraphs(s), max), chunk::chunks_of(s, max), max),
{
    let list = chunk::paragraphs(s);
    let none = chunk::nothing_packed();
    let empty = Seq::<Seq<char>>::empty();
    let units = units_of(list, max);
    chunk_laws::lemma_nonblank(chunk::pieces(s));
    assert(none == (chunk::Packing { done: empty, current: Seq::empty() }));
    if list.len() > 0 && list[0].len() > max {
        let parts = chunk::sentences(list[0]);
        let rest = list.skip(1);
        chunk_laws::lemma_sentences(list[0]);
        assert(text::trimmed(none.current).len() == 0);
        assert(chunk::flushed(none) == none);
        assert forall|i: int| 0 <= i < rest.len() implies (#[trigger] rest[i]).len() <= max by {
            assert(rest[i] == list[i + 1]);
        }
        lemma_short_paragraphs(chunk::packed_sentences(none, parts, max), rest, max);
        lemma_sentences_append(none, parts, rest, max);
        assert forall|i: int| 0 <= i < units.len() implies (#[trigger] units[i]).len() > 0
            && text::is_tight(units[i]) by {
            if i < parts.len() {
                assert(units[i] == parts[i]);
            } else {
                assert(units[i] == list[i - parts.len() + 1]);
            }
        }
    } else {
        lemma_short_paragraphs(none, list, max);
    }
    let chunks = lemma_split(empty, units, max);
    assert(empty + chunks =~= chunks);
}

proof fn lemma_grouped(groups: Seq<Seq<Seq<char>>>, i: int, k: int) -> (at: int)
    requires
        0 <= i < groups.len(),
        0 <= k < groups[i].len(),
    ensures
        0 <= at < packing_laws::all_grouped(groups).len(),
        packing_laws::all_grouped(groups)[at] == groups[i][k],
        i + 1 < groups.len() && groups.last().len() > 0 ==> at + 1
            < packing_laws::all_grouped(groups).len(),
    decreases groups.len(),
{
    if i == 0 {
        if groups.len() > 1 && groups.last().len() > 0 {
            let rest = groups.skip(1);
            let n = lemma_grouped(rest, rest.len() - 1, 0);
        }
        k
    } else {
        groups[0].len() + lemma_grouped(groups.skip(1), i - 1, k)
    }
}

/// Where every sentence of a text fits the limit, no sentence is cut: every chunk
/// ends with the end of a paragraph or of a sentence.
pub proof fn law_chunks_end_with_sentences(s: Seq<char>, max: nat, i: int)
    requires
        max > 0,
        forall|j: int|
            0 < j < chunk::paragraphs(s).len() ==> (#[trigger] chunk::paragraphs(s)[j]).len()
                <= max,
        forall|j: int|
            0 <= j < units_of(chunk::paragraphs(s), max).len() ==> (#[trigger] units_of(
                chunk::paragraphs(s),
                max,
            )[j]).len() <= max,
        0 <= i < chunk::chunks_of(s, max).len(),
    ensures
        exists|j: int|
            0 <= j < units_of(chunk::paragraphs(s), max).len() && {
                let unit = #[trigger] units_of(chunk::paragraphs(s), max)[j];
                let c = chunk::chunks_of(s, max)[i];
                unit.len() <= c.len() && c.skip(c.len() - unit.len()) == unit
            },
{
    let units = units_of(chunk::paragraphs(s), max);
    let chunks = chunk::chunks_of(s, max);
    let gap = seq!['\n', '\n'];
    law_paragraphs_and_sentences_fill_the_chunks(s, max);
    lemma_first_long(units, max);
    assert(is_packed(units, chunks, gap, max));
    let groups = choose|groups: Seq<Seq<Seq<char>>>|
        {
            &&& are_full(groups, gap, max)
            &&& packing_laws::all_grouped(groups) == units
            &&& chunks == #[trigger] each_joined(groups, gap)
        };
    let group = groups[i];
    assert(packing_laws::is_group(group, gap, max));
    let at = lemma_grouped(groups, i, group.len() - 1);
    let unit = units[at];
    let c = chunks[i];
    assert(c == clean::joined(group, gap));
    assert(unit == group.last());
    assert(c.skip(c.len() - unit.len()) =~= unit);
}

/// Where a text is one paragraph and every stretch of it up to a full stop, an
/// exclamation mark or a question mark with white space behind it fits the limit,
/// every chunk but the last ends with such a mark.
pub proof fn law_chunks_end_with_a_mark(s: Seq<char>, max: nat, i: int)
    requires
        chunk::paragraphs(s).len() == 1,
        forall|j: int|
            0 <= j < chunk::sentences(chunk::paragraphs(s)[0]).len() ==> (
            #[trigger] chunk::sentences(chunk::paragraphs(s)[0])[j]).len() <= max,
        0 <= i < chunk::chunks_of(s, max).len() - 1,
    ensures
        chunk::chunks_of(s, max)[i].len() > 0,
        chunk::chunks_of(s, max)[i].last() == '.' || chunk::chunks_of(s, max)[i].last() == '!'
            || chunk::chunks_of(s, max)[i].last() == '?',
{
    let p = chunk::paragraphs(s)[0];
    let units = units_of(chunk::paragraphs(s), max);
    let chunks = chunk::chunks_of(s, max);
    let gap = seq!['\n', '\n'];
    law_paragraphs_and_sentences_fill_the_chunks(s, max);
    assert(chunk::paragraphs(s).skip(1).len() == 0);
    if p.len() > max {
        assert(units =~= chunk::sentences(p));
    }
    lemma_first_long(units, max);
    assert(is_packed(units, chunks, gap, max));
    let groups = choose|groups: Seq<Seq<Seq<char>>>|
        {
            &&& are_full(groups, gap, max)
            &&& packing_laws::all_grouped(groups) == units
            &&& chunks == #[trigger] each_joined(groups, gap)
        };
    let group = groups[i];
    assert(packing_laws::is_group(group, gap, max));
    assert(packing_laws::is_group(groups[groups.len() - 1], gap, max));
    let at = lemma_grouped(groups, i, group.len() - 1);
    assert(units[at] == group.last());
    if p.len() <= max {
        assert(units.len() == 1);
    } else {
        law_sentences_end_with_a_mark(p, at);
    }
    let c = chunks[i];
    assert(c == clean::joined(group, gap));
    assert(c.last() == group.last().last());
}

// ---------------------------------------------------------------------------
// Long paragraphs
// ---------------------------------------------------------------------------

spec fn behind(done: Seq<Seq<char>>, p: chunk::Packing) -> chunk::Packing {
    chunk::Packing { done: done + p.done, current: p.current }
}

proof fn lemma_flushed_behind(done: Seq<Seq<char>>, p: chunk::Packing)
    ensures
        chunk::flushed(behind(done, p)) == behind(done, chunk::flushed(p)),
{
    assert(chunk::flushed(behind(done, p)).done =~= done + chunk::flushed(p).done);
}

proof fn lemma_packed_behind(
    done: Seq<Seq<char>>,
    p: chunk::Packing,
    separator: Seq<char>,
    s: Seq<char>,
    max: nat,
)
    ensures
        chunk::packed(behind(done, p), separator, s, max) == behind(
            done,
            chunk::packed(p, separator, s, max),
        ),
{
    lemma_flushed_behind(done, p);
}

proof fn lemma_sentences_behind(
    done: Seq<Seq<char>>,
    p: chunk::Packing,
    list: Seq<Seq<char>>,
    max: nat,
)
    ensures
        chunk::packed_sentences(behind(done, p), list, max) == behind(
            done,
            chunk::packed_sentences(p, list, max),
        ),
    decreases list.len(),
{
    if list.len() > 0 {
        let s = list[0];
        lemma_flushed_behind(done, p);
        lemma_packed_behind(done, p, chunk::blank_line(), s, max);
        let q = chunk::packed_sentence(p, s, max);
        assert(chunk::packed_sentence(behind(done, p), s, max).done =~= behind(done, q).done);
        lemma_sentences_behind(done, q, list.skip(1), max);
    }
}

proof fn lemma_paragraphs_behind(
    done: Seq<Seq<char>>,
    p: chunk::Packing,
    list: Seq<Seq<char>>,
    max: nat,
)
    ensures
        chunk::packed_paragraphs(behind(done, p), list, max) == behind(
            done,
            chunk::packed_paragraphs(p, list, max),
        ),
    decreases list.len(),
{
    if list.len() > 0 {
        let s = list[0];
        lemma_flushed_behind(done, p);
        lemma_packed_behind(done, p, chunk::blank_line(), s, max);
        lemma_sentences_behind(done, chunk::flushed(p), chunk::sentences(s), max);
        lemma_paragraphs_behind(done, chunk::packed_paragraph(p, s, max), list.skip(1), max);
    }
}

proof fn lemma_paragraphs_in_turn(
    p: chunk::Packing,
    a: Seq<Seq<char>>,
    b: Seq<Seq<char>>,
    max: nat,
)
    ensures
        chunk::packed_paragraphs(p, a + b, max) == chunk::packed_paragraphs(
            chunk::packed_paragraphs(p, a, max),
            b,
            max,
        ),
    decreases a.len(),
{
    if a.len() == 0 {
        assert(a + b =~= b);
    } else {
        assert((a + b).skip(1) =~= a.skip(1) + b);
        lemma_paragraphs_in_turn(chunk::packed_paragraph(p, a[0], max), a.skip(1), b, max);
    }
}

/// The paragraphs of two texts with a blank line between them are those of the
/// first and then those of the second.
pub proof fn law_blank_lines_part_paragraphs(a: Seq<char>, b: Seq<char>)
    requires
        a.len() > 0 ==> a.last() != '\n',
    ensures
        chunk::paragraphs(a + seq!['\n', '\n'] + b) == chunk::paragraphs(a) + chunk::paragraphs(b),
{
    assert(chunk::blank_line() =~= seq!['\n', '\n']);
    if a.len() > 0 {
        rechunk_laws::lemma_pieces_append(a, b);
        lemma_nonblank_append(chunk::pieces(a), chunk::pieces(b));
    } else {
        let s = a + seq!['\n', '\n'] + b;
        let none = Seq::<char>::empty();
        law_unbroken_text_is_one_paragraph(a);
        assert(text::trimmed(a).len() == 0);
        assert(s[0] == '\n' && s[1] == '\n');
        assert(s.take(0) =~= none);
        assert(s.skip(2) =~= b);
        assert(chunk::pieces(s) == seq![none] + chunk::pieces(b));
        assert(text::trimmed(none).len() == 0);
        assert(chunk::pieces(s).skip(1) =~= chunk::pieces(b));
        assert(chunk::paragraphs(a) + chunk::paragraphs(b) =~= chunk::paragraphs(b));
    }
}

proof fn lemma_nonblank_append(a: Seq<Seq<char>>, b: Seq<Seq<char>>)
    ensures
        chunk::nonblank(a + b) == chunk::nonblank(a) + chunk::nonblank(b),
    decreases a.len(),
{
    if a.len() == 0 {
        assert(a + b =~= b);
        assert(chunk::nonblank(a) + chunk::nonblank(b) =~= chunk::nonblank(b));
    } else {
        assert((a + b).skip(1) =~= a.skip(1) + b);
        lemma_nonblank_append(a.skip(1), b);
        assert(chunk::nonblank(a + b) =~= chunk::nonblank(a) + chunk::nonblank(b));
    }
}

/// A text in which no two line ends follow each other is one paragraph: itself
/// without the white space at its ends, unless it is blank.
pub proof fn law_unbroken_text_is_one_paragraph(s: Seq<char>)
    requires
        forall|i: int, j: int|
            0 <= i && j == i + 1 && j < s.len() ==> !(#[trigger] s[i] == '\n' && #[trigger] s[j]
                == '\n'),
    ensures
        chunk::paragraphs(s) == if text::trimmed(s).len() == 0 {
            Seq::empty()
        } else {
            seq![text::trimmed(s)]
        },
{
    rechunk_laws::lemma_one_piece(s);
    let one = seq![s];
    assert(one.skip(1) =~= Seq::<Seq<char>>::empty());
    assert(chunk::nonblank(one.skip(1)) =~= Seq::<Seq<char>>::empty());
    assert(chunk::nonblank(one) =~= if text::trimmed(s).len() == 0 {
        Seq::empty()
    } else {
        seq![text::trimmed(s)]
    });
}

/// A paragraph that is too long starts a chunk of its own: what comes before it
/// is chunked as if nothing followed, and it and what follows as if nothing came
/// before.
pub proof fn law_long_paragraphs_start_a_chunk(a: Seq<char>, b: Seq<char>, max: nat)
    requires
        a.len() > 0,
        a.last() != '\n',
        chunk::paragraphs(b).len() > 0,
        chunk::paragraphs(b)[0].len() > max,
    ensures
        chunk::chunks_of(a + seq!['\n', '\n'] + b, max) == chunk::chunks_of(a, max)
            + chunk::chunks_of(b, max),
{
    if max > 0 {
        let none = chunk::nothing_packed();
        let first = chunk::paragraphs(a);
        let second = chunk::paragraphs(b);
        law_blank_lines_part_paragraphs(a, b);
        lemma_paragraphs_in_turn(none, first, second, max);
        let q = chunk::packed_paragraphs(none, first, max);
        let done = chunk::flushed(q).done;
        assert(text::trimmed(none.current).len() == 0);
        assert(chunk::flushed(none) == none);
        assert(chunk::flushed(q) == behind(done, none)) by {
            assert(done + none.done =~= done);
        }
        lemma_sentences_behind(done, none, chunk::sentences(second[0]), max);
        let p = chunk::packed_paragraph(none, second[0], max);
        assert(chunk::packed_paragraph(q, second[0], max) == behind(done, p));
        lemma_paragraphs_behind(done, p, second.skip(1), max);
        lemma_flushed_behind(done, chunk::packed_paragraphs(none, second, max));
    } else {
        assert(chunk::chunks_of(a, max) + chunk::chunks_of(b, max) =~= Seq::<Seq<char>>::empty());
    }
}

/// Without room for a single character there are no chunks, and with it there are
/// none exactly where the text is blank.
pub proof fn law_chunks_need_room_and_text(s: Seq<char>, max: nat)
    ensures
        chunk::chunks_of(s, 0).len() == 0,
        max > 0 ==> (chunk::chunks_of(s, max).len() == 0 <==> text::words(s).len() == 0),
{
    if max > 0 {
        let chunks = chunk::chunks_of(s, max);
        chunk_laws::law_chunks_keep_every_word(s, max);
        if chunks.len() > 0 {
            chunk_laws::law_chunks_hold_text(s, max, 0);
            let first = chunks[0];
            let rest = chunks.skip(1);
            assert(seq![first] + rest =~= chunks);
            text::lemma_words_of_all_append(seq![first], rest);
            text::lemma_words_of_one(first);
            if text::words(first).len() == 0 {
                lemma_wordless_is_void(first);
            }
        } else {
            assert(text::words_of_all(chunks).len() == 0);
        }
    }
}

proof fn lemma_wordless_is_void(s: Seq<char>)
    requires
        text::words(s).len() == 0,
    ensures
        text::trimmed(s).len() == 0,
    decreases s.len(),
{
    if s.len() == 0 {
        assert(text::trimmed(s).len() == 0);
    } else if text::is_space(s[0]) {
        lemma_wordless_is_void(s.skip(1));
        assert(text::trimmed(s) == text::trimmed(s.skip(1)));
    } else {
        text::lemma_word_len(s);
        assert(text::word_len(s) > 0);
        assert(text::words(s).len() > 0);
    }
}

} // verus!
