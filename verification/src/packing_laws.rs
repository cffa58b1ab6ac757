//! Packing uses as few chunks as any other way to fill them in order.

use vstd::prelude::*;

use crate::chunk;
use crate::chunk_laws;
use crate::clean;
use crate::clean_laws;
use crate::text;

verus! {

/// The texts of all groups, one group behind the other.
pub open spec fn all_grouped(groups: Seq<Seq<Seq<char>>>) -> Seq<Seq<char>>
    decreases groups.len(),
{
    if groups.len() == 0 {
        Seq::empty()
    } else {
        groups[0] + all_grouped(groups.skip(1))
    }
}

/// A group that can be a chunk: its texts, with the separator between each two
/// of them, keep to the limit. A text that stands alone may be longer.
pub open spec fn is_group(group: Seq<Seq<char>>, separator: Seq<char>, max: nat) -> bool {
    &&& group.len() > 0
    &&& group.len() == 1 || clean::joined(group, separator).len() <= max
}

/// All groups can be chunks.
pub open spec fn are_groups(
    groups: Seq<Seq<Seq<char>>>,
    separator: Seq<char>,
    max: nat,
) -> bool {
    forall|i: int| 0 <= i < groups.len() ==> is_group(#[trigger] groups[i], separator, max)
}

// ---------------------------------------------------------------------------
// Counting
// ---------------------------------------------------------------------------

/// The number of chunks for the texts of a list and the chunk being filled,
/// which holds `filled` characters. `gap` is the length of the separator.
spec fn count(filled: nat, list: Seq<Seq<char>>, gap: nat, max: nat) -> nat
    decreases list.len(),
{
    if list.len() == 0 {
        1
    } else if filled + gap + list[0].len() <= max {
        count(filled + gap + list[0].len(), list.skip(1), gap, max)
    } else {
        1 + count(list[0].len(), list.skip(1), gap, max)
    }
}

/// The number of chunks for the texts of a list.
spec fn count_all(list: Seq<Seq<char>>, gap: nat, max: nat) -> nat {
    if list.len() == 0 {
        0
    } else {
        count(list[0].len(), list.skip(1), gap, max)
    }
}

/// The characters that the texts of a list add to a chunk.
spec fn added(list: Seq<Seq<char>>, gap: nat) -> nat
    decreases list.len(),
{
    if list.len() == 0 {
        0
    } else {
        gap + list[0].len() + added(list.skip(1), gap)
    }
}

proof fn lemma_count(a: nat, b: nat, list: Seq<Seq<char>>, gap: nat, max: nat)
    ensures
        a <= b ==> count(a, list, gap, max) <= count(b, list, gap, max),
        count(a, list, gap, max) <= 1 + count(b, list, gap, max),
    decreases list.len(),
{
    if list.len() > 0 {
        let n = list[0].len();
        let rest = list.skip(1);
        lemma_count(a + gap + n, b + gap + n, rest, gap, max);
        lemma_count(a + gap + n, n, rest, gap, max);
        lemma_count(n, b + gap + n, rest, gap, max);
    }
}

proof fn lemma_count_joined(
    filled: nat,
    list: Seq<Seq<char>>,
    more: Seq<Seq<char>>,
    gap: nat,
    max: nat,
)
    requires
        list.len() > 0 ==> filled + added(list, gap) <= max,
    ensures
        count(filled, list + more, gap, max) <= 1 + count_all(more, gap, max),
    decreases list.len(),
{
    if list.len() == 0 {
        assert(list + more =~= more);
        if more.len() > 0 {
            lemma_count(filled + gap + more[0].len(), more[0].len(), more.skip(1), gap, max);
        }
    } else {
        let rest = list.skip(1);
        assert((list + more).skip(1) =~= rest + more);
        lemma_count_joined(filled + gap + list[0].len(), rest, more, gap, max);
    }
}

proof fn lemma_joined_len(group: Seq<Seq<char>>, separator: Seq<char>)
    requires
        group.len() > 0,
    ensures
        clean::joined(group, separator).len() == group[0].len() + added(
            group.skip(1),
            separator.len(),
        ),
    decreases group.len(),
{
    let rest = group.skip(1);
    if group.len() > 1 {
        clean_laws::lemma_joined_front(group, separator);
        lemma_joined_len(rest, separator);
    }
}

proof fn lemma_fewest(groups: Seq<Seq<Seq<char>>>, separator: Seq<char>, max: nat)
    requires
        are_groups(groups, separator, max),
    ensures
        count_all(all_grouped(groups), separator.len(), max) <= groups.len(),
    decreases groups.len(),
{
    if groups.len() > 0 {
        let group = groups[0];
        let others = groups.skip(1);
        let more = all_grouped(others);
        let gap = separator.len();
        assert(is_group(group, separator, max));
        assert forall|i: int| 0 <= i < others.len() implies is_group(
            #[trigger] others[i],
            separator,
            max,
        ) by {
            assert(others[i] == groups[i + 1]);
        }
        lemma_fewest(others, separator, max);
        lemma_joined_len(group, separator);
        lemma_count_joined(group[0].len(), group.skip(1), more, gap, max);
        let all = all_grouped(groups);
        assert(all[0] == group[0]);
        assert(all.skip(1) =~= group.skip(1) + more);
    }
}

// ---------------------------------------------------------------------------
// Packing
// ---------------------------------------------------------------------------

/// What packing one more text does to the chunk being filled.
pub proof fn lemma_packed_count(
    p: chunk::Packing,
    separator: Seq<char>,
    s: Seq<char>,
    max: nat,
) -> (q: chunk::Packing)
    requires
        p.current.len() > 0,
        text::is_tight(p.current),
        s.len() > 0,
        text::is_tight(s),
    ensures
        q == chunk::packed(p, separator, s, max),
        q.current.len() > 0,
        text::is_tight(q.current),
        if p.current.len() + separator.len() + s.len() <= max {
            &&& q.done.len() == p.done.len()
            &&& q.current.len() == p.current.len() + separator.len() + s.len()
        } else {
            &&& q.done.len() == p.done.len() + 1
            &&& q.current.len() == s.len()
        },
{
    text::lemma_tight_is_trimmed(s);
    text::lemma_tight_is_trimmed(p.current);
    let q = chunk::packed(p, separator, s, max);
    if p.current.len() + separator.len() + s.len() <= max {
        assert(q.current[0] == p.current[0]);
        assert(q.current.last() == s.last());
    }
    q
}

/// The first of such texts, and the others.
pub proof fn lemma_rest_is_tight(list: Seq<Seq<char>>)
    requires
        chunk_laws::all_tight(list),
        list.len() > 0,
    ensures
        list[0].len() > 0,
        text::is_tight(list[0]),
        chunk_laws::all_tight(list.skip(1)),
{
    let rest = list.skip(1);
    assert forall|i: int| 0 <= i < rest.len() implies (#[trigger] rest[i]).len() > 0
        && text::is_tight(rest[i]) by {
        assert(rest[i] == list[i + 1]);
    }
}

proof fn lemma_words_counted(p: chunk::Packing, list: Seq<Seq<char>>, max: nat)
    requires
        p.current.len() > 0,
        text::is_tight(p.current),
        chunk_laws::all_tight(list),
    ensures
        chunk::flushed(chunk::packed_words(p, list, max)).done.len() == p.done.len() + count(
            p.current.len(),
            list,
            1,
            max,
        ),
    decreases list.len(),
{
    if list.len() == 0 {
        text::lemma_tight_is_trimmed(p.current);
    } else {
        lemma_rest_is_tight(list);
        let q = lemma_packed_count(p, chunk::one_space(), list[0], max);
        lemma_words_counted(q, list.skip(1), max);
    }
}

proof fn lemma_paragraphs_counted(p: chunk::Packing, list: Seq<Seq<char>>, max: nat)
    requires
        p.current.len() > 0,
        text::is_tight(p.current),
        chunk_laws::all_tight(list),
        forall|i: int| 0 <= i < list.len() ==> (#[trigger] list[i]).len() <= max,
    ensures
        chunk::flushed(chunk::packed_paragraphs(p, list, max)).done.len() == p.done.len() + count(
            p.current.len(),
            list,
            2,
            max,
        ),
    decreases list.len(),
{
    if list.len() == 0 {
        text::lemma_tight_is_trimmed(p.current);
    } else {
        lemma_rest_is_tight(list);
        let rest = list.skip(1);
        let q = lemma_packed_count(p, chunk::blank_line(), list[0], max);
        assert forall|i: int| 0 <= i < rest.len() implies (#[trigger] rest[i]).len() <= max by {
            assert(rest[i] == list[i + 1]);
        }
        lemma_paragraphs_counted(q, rest, max);
    }
}

// ---------------------------------------------------------------------------
// Laws
// ---------------------------------------------------------------------------

/// A text that is packed word by word takes no more chunks than any other way to
/// put its words into chunks in order.
pub proof fn law_words_take_the_fewest_chunks(
    s: Seq<char>,
    max: nat,
    groups: Seq<Seq<Seq<char>>>,
)
    requires
        are_groups(groups, chunk::one_space(), max),
        all_grouped(groups) == text::words(s),
    ensures
        chunk::word_chunks(s, max).len() <= groups.len(),
{
    let list = text::words(s);
    let none = chunk::nothing_packed();
    lemma_fewest(groups, chunk::one_space(), max);
    if list.len() > 0 {
        assert(chunk_laws::all_tight(list)) by {
            assert forall|i: int| 0 <= i < list.len() implies (#[trigger] list[i]).len() > 0
                && text::is_tight(list[i]) by {
                text::lemma_words_are_solid(s, i);
            }
        }
        lemma_rest_is_tight(list);
        text::lemma_tight_is_trimmed(list[0]);
        let first = chunk::packed(none, chunk::one_space(), list[0], max);
        assert(first.done.len() == 0);
        lemma_words_counted(first, list.skip(1), max);
    }
}

/// A text none of whose paragraphs is too long takes no more chunks than any
/// other way to put its paragraphs into chunks in order.
pub proof fn law_paragraphs_take_the_fewest_chunks(
    s: Seq<char>,
    max: nat,
    groups: Seq<Seq<Seq<char>>>,
)
    requires
        forall|i: int|
            0 <= i < chunk::paragraphs(s).len() ==> (#[trigger] chunk::paragraphs(s)[i]).len()
                <= max,
        are_groups(groups, chunk::blank_line(), max),
        all_grouped(groups) == chunk::paragraphs(s),
    ensures
        chunk::chunks_of(s, max).len() <= groups.len(),
{
    let list = chunk::paragraphs(s);
    let none = chunk::nothing_packed();
    lemma_fewest(groups, chunk::blank_line(), max);
    if list.len() > 0 {
        chunk_laws::lemma_nonblank(chunk::pieces(s));
        lemma_rest_is_tight(list);
        text::lemma_tight_is_trimmed(list[0]);
        let rest = list.skip(1);
        let first = chunk::packed_paragraph(none, list[0], max);
        assert(first.done.len() == 0);
        assert(first.current == list[0]);
        assert forall|i: int| 0 <= i < rest.len() implies (#[trigger] rest[i]).len() <= max by {
            assert(rest[i] == list[i + 1]);
        }
        lemma_paragraphs_counted(first, rest, max);
    }
}

} // verus!
