//! Which words of a raw text are still there once it is cleaned.

use vstd::prelude::*;

use crate::clean;
use crate::clean_laws;
use crate::text;

verus! {

/// The words of the lines that are no page numbers.
pub open spec fn kept_words(list: Seq<Seq<char>>) -> Seq<Seq<char>>
    decreases list.len(),
{
    if list.len() == 0 {
        Seq::empty()
    } else {
        let first = if clean::is_page_number(clean::tidy(list[0])) {
            Seq::empty()
        } else {
            text::words(list[0])
        };
        first + kept_words(list.skip(1))
    }
}

// ---------------------------------------------------------------------------
// Steps of the cleaning
// ---------------------------------------------------------------------------

proof fn lemma_split_word(s: Seq<char>)
    requires
        s.len() > 0,
        !text::is_space(s[0]),
    ensures
        0 < text::word_len(s) <= s.len(),
        text::words(s) == text::words(s.take(text::word_len(s) as int)) + text::words(
            s.skip(text::word_len(s) as int),
        ),
{
    let n = text::word_len(s) as int;
    text::lemma_word_len(s);
    assert(s =~= s.take(n) + s.skip(n));
    text::lemma_words_append(s.take(n), s.skip(n));
}

proof fn lemma_unix_word(s: Seq<char>, n: int)
    requires
        0 <= n <= s.len(),
        forall|i: int| 0 <= i < n ==> !text::is_space(#[trigger] s[i]),
    ensures
        clean::unix_lines(s) == s.take(n) + clean::unix_lines(s.skip(n)),
    decreases n,
{
    if n == 0 {
        assert(s.skip(0) =~= s);
        assert(s.take(0) + clean::unix_lines(s) =~= clean::unix_lines(s));
    } else {
        assert(!text::is_space(s[0]));
        let rest = s.skip(1);
        assert forall|i: int| 0 <= i < n - 1 implies !text::is_space(#[trigger] rest[i]) by {
            assert(rest[i] == s[i + 1]);
        }
        lemma_unix_word(rest, n - 1);
        assert(rest.skip(n - 1) =~= s.skip(n));
        assert(seq![s[0]] + (rest.take(n - 1) + clean::unix_lines(s.skip(n))) =~= s.take(n)
            + clean::unix_lines(s.skip(n)));
    }
}

proof fn lemma_unix_lines_keep_words(s: Seq<char>)
    ensures
        text::words(clean::unix_lines(s)) == text::words(s),
        s.len() > 0 && text::is_space(s[0]) ==> clean::unix_lines(s).len() > 0 && text::is_space(
            clean::unix_lines(s)[0],
        ),
    decreases s.len(),
{
    if s.len() == 0 {
        assert(clean::unix_lines(s) =~= s);
    } else if text::is_space(s[0]) {
        let u = clean::unix_lines(s);
        let k: int = if s[0] == '\r' && s.len() > 1 && s[1] == '\n' {
            2
        } else {
            1
        };
        lemma_unix_lines_keep_words(s.skip(k));
        assert(u.skip(1) =~= clean::unix_lines(s.skip(k)));
        if k == 2 {
            assert(s.skip(1).skip(1) =~= s.skip(2));
            assert(text::words(s.skip(1)) == text::words(s.skip(2)));
        }
    } else {
        let n = text::word_len(s) as int;
        text::lemma_word_len(s);
        lemma_split_word(s);
        lemma_unix_word(s, n);
        let rest = s.skip(n);
        lemma_unix_lines_keep_words(rest);
        if n == s.len() {
            assert(clean::unix_lines(rest).len() == 0);
        }
        text::lemma_words_append(s.take(n), clean::unix_lines(rest));
    }
}

proof fn lemma_collapsed_word(s: Seq<char>, n: int)
    requires
        0 <= n <= s.len(),
        forall|i: int| 0 <= i < n ==> !text::is_space(#[trigger] s[i]),
    ensures
        clean::blanks_collapsed(s) == s.take(n) + clean::blanks_collapsed(s.skip(n)),
    decreases n,
{
    if n == 0 {
        assert(s.skip(0) =~= s);
        assert(s.take(0) + clean::blanks_collapsed(s) =~= clean::blanks_collapsed(s));
    } else {
        assert(!text::is_space(s[0]));
        let rest = s.skip(1);
        assert forall|i: int| 0 <= i < n - 1 implies !text::is_space(#[trigger] rest[i]) by {
            assert(rest[i] == s[i + 1]);
        }
        lemma_collapsed_word(rest, n - 1);
        assert(rest.skip(n - 1) =~= s.skip(n));
        assert(seq![s[0]] + (rest.take(n - 1) + clean::blanks_collapsed(s.skip(n))) =~= s.take(n)
            + clean::blanks_collapsed(s.skip(n)));
    }
}

proof fn lemma_collapsing_keeps_words(s: Seq<char>)
    ensures
        text::words(clean::blanks_collapsed(s)) == text::words(s),
        s.len() > 0 && text::is_space(s[0]) ==> clean::blanks_collapsed(s).len() > 0
            && text::is_space(clean::blanks_collapsed(s)[0]),
    decreases s.len(),
{
    if s.len() == 0 {
        assert(clean::blanks_collapsed(s) =~= s);
    } else if text::is_space(s[0]) {
        let b = clean::blanks_collapsed(s);
        lemma_collapsing_keeps_words(s.skip(1));
        if !(clean::is_blank(s[0]) && s.len() > 1 && clean::is_blank(s[1])) {
            assert(b.skip(1) =~= clean::blanks_collapsed(s.skip(1)));
        }
    } else {
        let n = text::word_len(s) as int;
        text::lemma_word_len(s);
        lemma_split_word(s);
        lemma_collapsed_word(s, n);
        let rest = s.skip(n);
        lemma_collapsing_keeps_words(rest);
        if n == s.len() {
            assert(clean::blanks_collapsed(rest).len() == 0);
        }
        text::lemma_words_append(s.take(n), clean::blanks_collapsed(rest));
    }
}

proof fn lemma_tidying_keeps_words(line: Seq<char>)
    ensures
        text::words(clean::tidy(line)) == text::words(line),
{
    text::lemma_words_of_trimmed(line);
    lemma_collapsing_keeps_words(text::trimmed(line));
}

proof fn lemma_words_of_all_front(first: Seq<char>, rest: Seq<Seq<char>>)
    ensures
        text::words_of_all(seq![first] + rest) == text::words(first) + text::words_of_all(rest),
{
    text::lemma_words_of_all_append(seq![first], rest);
    text::lemma_words_of_one(first);
}

proof fn lemma_lines_keep_words(s: Seq<char>)
    ensures
        text::words_of_all(clean::lines(s)) == text::words(s),
    decreases s.len(),
{
    let n = clean::line_len(s) as int;
    clean_laws::lemma_line_len(s);
    if s.len() == 0 {
        assert(text::words_of_all(clean::lines(s)) =~= text::words(s));
    } else if n < s.len() {
        let tail = s.skip(n);
        assert(s =~= s.take(n) + tail);
        text::lemma_words_append(s.take(n), tail);
        assert(tail.skip(1) =~= s.skip(n + 1));
        lemma_lines_keep_words(s.skip(n + 1));
        lemma_words_of_all_front(s.take(n), clean::lines(s.skip(n + 1)));
    } else {
        text::lemma_words_of_one(s);
    }
}

proof fn lemma_unless_empty(paragraph: Seq<char>)
    ensures
        text::words_of_all(clean::unless_empty(paragraph)) == text::words(paragraph),
{
    if paragraph.len() == 0 {
        assert(text::words_of_all(clean::unless_empty(paragraph)) =~= text::words(paragraph));
    } else {
        text::lemma_words_of_one(paragraph);
    }
}

proof fn lemma_continued_words(begun: Seq<char>, line: Seq<char>)
    ensures
        text::words(clean::continued(begun, line)) == text::words(begun) + text::words(line),
{
    if begun.len() == 0 {
        assert(text::words(begun) + text::words(line) =~= text::words(line));
    } else {
        let gap = seq![' '];
        text::lemma_words_append(begun + gap, line);
        text::lemma_words_append(begun, gap);
        text::lemma_space_has_no_words(gap);
        assert(text::words(begun) + text::words(gap) =~= text::words(begun));
    }
}

proof fn lemma_paragraphs_hold_words(begun: Seq<char>, list: Seq<Seq<char>>)
    ensures
        text::words_of_all(clean::paragraphs_from(begun, list)) == text::words(begun) + kept_words(
            list,
        ),
    decreases list.len(),
{
    lemma_unless_empty(begun);
    if list.len() == 0 {
        assert(text::words(begun) + kept_words(list) =~= text::words(begun));
    } else {
        let line = clean::tidy(list[0]);
        let rest = list.skip(1);
        let none = Seq::<char>::empty();
        lemma_tidying_keeps_words(list[0]);
        if line.len() == 0 {
            lemma_paragraphs_hold_words(none, rest);
            text::lemma_words_of_all_append(
                clean::unless_empty(begun),
                clean::paragraphs_from(none, rest),
            );
            assert(text::trimmed(line) =~= line);
            assert(text::words(none) + kept_words(rest) =~= kept_words(rest));
            assert(kept_words(list) =~= kept_words(rest));
        } else if clean::is_page_number(line) {
            lemma_paragraphs_hold_words(begun, rest);
            assert(kept_words(list) =~= kept_words(rest));
        } else {
            lemma_paragraphs_hold_words(clean::continued(begun, line), rest);
            lemma_continued_words(begun, line);
            assert(text::words(begun) + text::words(line) + kept_words(rest) =~= text::words(begun)
                + kept_words(list));
        }
    }
}

/// Joining texts with blank lines between them keeps their words.
pub proof fn lemma_joining_keeps_words(list: Seq<Seq<char>>)
    ensures
        text::words(clean::joined(list, seq!['\n', '\n'])) == text::words_of_all(list),
    decreases list.len(),
{
    let gap = seq!['\n', '\n'];
    if list.len() == 0 {
        assert(text::words(clean::joined(list, gap)) =~= text::words_of_all(list));
    } else if list.len() == 1 {
        text::lemma_words_of_one(list[0]);
        assert(list =~= seq![list[0]]);
    } else {
        let front = clean::joined(list.drop_last(), gap);
        lemma_joining_keeps_words(list.drop_last());
        text::lemma_words_append(front + gap, list.last());
        text::lemma_words_append(front, gap);
        text::lemma_space_has_no_words(gap);
        assert(text::words(front) + text::words(gap) =~= text::words(front));
    }
}

// ---------------------------------------------------------------------------
// Laws
// ---------------------------------------------------------------------------

/// Cleaning keeps the words of all lines that are no page numbers, in order,
/// once the words that are broken at a line end are joined. It adds no words.
pub proof fn law_cleaning_keeps_the_words_of_the_lines(raw: Seq<char>)
    ensures
        text::words(clean::cleaned(raw)) == kept_words(
            clean::lines(clean::hyphens_joined(clean::unix_lines(raw))),
        ),
{
    let none = Seq::<char>::empty();
    let list = clean::lines(clean::hyphens_joined(clean::unix_lines(raw)));
    lemma_paragraphs_hold_words(none, list);
    assert(text::words(none) + kept_words(list) =~= kept_words(list));
    lemma_joining_keeps_words(clean::clean_paragraphs(raw));
}

/// Where no word is broken at a line end and no line is a page number, cleaning
/// keeps all words in order and adds none.
pub proof fn law_cleaning_keeps_every_word(raw: Seq<char>)
    requires
        forall|i: int|
            0 <= i && i + 3 < clean::unix_lines(raw).len() ==> !clean::starts_broken(
                #[trigger] clean::unix_lines(raw).skip(i),
            ),
        forall|i: int|
            0 <= i < clean::lines(clean::unix_lines(raw)).len() ==> !clean::is_page_number(
                clean::tidy(#[trigger] clean::lines(clean::unix_lines(raw))[i]),
            ),
    ensures
        text::words(clean::cleaned(raw)) == text::words(raw),
{
    let s = clean::unix_lines(raw);
    clean_laws::lemma_nothing_to_join(s);
    law_cleaning_keeps_the_words_of_the_lines(raw);
    lemma_all_words_are_kept(clean::lines(s));
    lemma_lines_keep_words(s);
    lemma_unix_lines_keep_words(raw);
}

proof fn lemma_all_words_are_kept(list: Seq<Seq<char>>)
    requires
        forall|i: int|
            0 <= i < list.len() ==> !clean::is_page_number(clean::tidy(#[trigger] list[i])),
    ensures
        kept_words(list) == text::words_of_all(list),
    decreases list.len(),
{
    if list.len() == 0 {
        assert(kept_words(list) =~= text::words_of_all(list));
    } else {
        let rest = list.skip(1);
        assert forall|i: int| 0 <= i < rest.len() implies !clean::is_page_number(
            clean::tidy(#[trigger] rest[i]),
        ) by {
            assert(rest[i] == list[i + 1]);
        }
        lemma_all_words_are_kept(rest);
        lemma_words_of_all_front(list[0], rest);
        assert(seq![list[0]] + rest =~= list);
    }
}

} // verus!
