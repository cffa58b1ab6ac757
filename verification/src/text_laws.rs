//! What trimming a text, taking its words and joining texts give.

use vstd::prelude::*;

use crate::clean;
use crate::clean_laws;
use crate::text;

verus! {

/// The text is empty or holds nothing but white space.
pub open spec fn is_void(s: Seq<char>) -> bool {
    forall|i: int| 0 <= i < s.len() ==> text::is_space(#[trigger] s[i])
}

proof fn lemma_start_void(a: Seq<char>, core: Seq<char>)
    requires
        is_void(a),
        core.len() > 0,
        !text::is_space(core[0]),
    ensures
        text::trimmed_start(a + core) == core,
    decreases a.len(),
{
    if a.len() == 0 {
        assert(a + core =~= core);
    } else {
        assert((a + core)[0] == a[0]);
        assert((a + core).skip(1) =~= a.skip(1) + core);
        assert forall|i: int| 0 <= i < a.skip(1).len() implies text::is_space(
            #[trigger] a.skip(1)[i],
        ) by {
            assert(a.skip(1)[i] == a[i + 1]);
        }
        lemma_start_void(a.skip(1), core);
    }
}

proof fn lemma_end_void(core: Seq<char>, b: Seq<char>)
    requires
        is_void(b),
        core.len() > 0,
        !text::is_space(core.last()),
    ensures
        text::trimmed_end(core + b) == core,
    decreases b.len(),
{
    if b.len() == 0 {
        assert(core + b =~= core);
    } else {
        assert((core + b).last() == b.last());
        assert((core + b).drop_last() =~= core + b.drop_last());
        assert(text::is_space(b[b.len() - 1]));
        lemma_end_void(core, b.drop_last());
    }
}

proof fn lemma_nothing_left(s: Seq<char>)
    requires
        is_void(s),
    ensures
        text::trimmed_start(s).len() == 0,
    decreases s.len(),
{
    if s.len() > 0 {
        assert(text::is_space(s[0]));
        assert forall|i: int| 0 <= i < s.skip(1).len() implies text::is_space(
            #[trigger] s.skip(1)[i],
        ) by {
            assert(s.skip(1)[i] == s[i + 1]);
        }
        lemma_nothing_left(s.skip(1));
    }
}

/// Trimming takes away the white space at both ends, and nothing else.
pub proof fn law_trimming_takes_the_space_around(a: Seq<char>, core: Seq<char>, b: Seq<char>)
    requires
        is_void(a),
        is_void(b),
        core.len() > 0,
        !text::is_space(core[0]),
        !text::is_space(core.last()),
    ensures
        text::trimmed(a + core + b) == core,
{
    assert(a + core + b =~= a + (core + b));
    assert((core + b)[0] == core[0]);
    lemma_start_void(a, core + b);
    lemma_end_void(core, b);
}

/// Trimming leaves nothing of a text exactly where it holds nothing but white
/// space.
pub proof fn law_blank_text_trims_to_nothing(s: Seq<char>)
    ensures
        text::trimmed(s).len() == 0 <==> is_void(s),
{
    if is_void(s) {
        lemma_nothing_left(s);
    } else {
        let i = choose|i: int| 0 <= i < s.len() && !text::is_space(#[trigger] s[i]);
        text::lemma_trimmed_keeps(s, i);
    }
}

/// A word with white space behind it is the first word of a text; the words of
/// the rest follow. White space in front changes nothing.
pub proof fn law_words_stand_between_white_space(
    space: Seq<char>,
    word: Seq<char>,
    rest: Seq<char>,
)
    requires
        is_void(space),
        word.len() > 0,
        text::is_solid(word),
        rest.len() > 0 ==> text::is_space(rest[0]),
    ensures
        text::words(space + word + rest) == seq![word] + text::words(rest),
        text::words(space + rest) == text::words(rest),
{
    text::lemma_space_has_no_words(space);
    text::lemma_solid_is_one_word(word);
    let none = Seq::<Seq<char>>::empty();
    if rest.len() == 0 {
        assert(word + rest =~= word);
        assert(space + rest =~= space);
        assert(text::words(rest) =~= none);
        assert(seq![word] + none =~= seq![word]);
    } else {
        text::lemma_words_append(word, rest);
    }
    if space.len() == 0 {
        assert(space + word + rest =~= word + rest);
        assert(space + rest =~= rest);
    } else {
        assert(text::is_space(space[space.len() - 1]));
        text::lemma_words_append(space, word + rest);
        assert(space + word + rest =~= space + (word + rest));
        text::lemma_words_append(space, rest);
        assert(none + text::words(word + rest) =~= text::words(word + rest));
        assert(none + text::words(rest) =~= text::words(rest));
    }
}

/// A text that is empty or holds nothing but white space has no words.
pub proof fn law_white_space_has_no_words(s: Seq<char>)
    requires
        is_void(s),
    ensures
        text::words(s).len() == 0,
{
    text::lemma_space_has_no_words(s);
}

/// The contents of a list of strings are those of its strings, one for one.
pub proof fn law_contents_are_one_for_one(list: Seq<String>)
    ensures
        text::contents(list).len() == list.len(),
        forall|i: int| 0 <= i < list.len() ==> (#[trigger] text::contents(list)[i]) == list[i]@,
{
}

/// Two lists of texts joined with a separator are each joined by itself, with a
/// separator between the two.
pub proof fn law_joined_lists_are_joined(
    a: Seq<Seq<char>>,
    b: Seq<Seq<char>>,
    separator: Seq<char>,
)
    requires
        a.len() > 0,
        b.len() > 0,
    ensures
        clean::joined(a + b, separator) == clean::joined(a, separator) + separator
            + clean::joined(b, separator),
    decreases a.len(),
{
    let whole = a + b;
    clean_laws::lemma_joined_front(whole, separator);
    if a.len() == 1 {
        assert(whole.skip(1) =~= b);
    } else {
        assert(whole.skip(1) =~= a.skip(1) + b);
        law_joined_lists_are_joined(a.skip(1), b, separator);
        clean_laws::lemma_joined_front(a, separator);
        assert(clean::joined(whole, separator) =~= clean::joined(a, separator) + separator
            + clean::joined(b, separator));
    }
}

/// A single text is joined to itself, and no text to an empty one.
pub proof fn law_one_text_is_joined_to_itself(s: Seq<char>, separator: Seq<char>)
    ensures
        clean::joined(seq![s], separator) == s,
        clean::joined(Seq::empty(), separator).len() == 0,
{
}

} // verus!
