//! Characters, strings and the small operations on text that the rest of the
//! library is built from.

use vstd::prelude::*;

verus! {

broadcast use vstd::string::group_string_axioms;

// ---------------------------------------------------------------------------
// Models
// ---------------------------------------------------------------------------

/// The characters with the Unicode property `White_Space`.
pub open spec fn is_space(c: char) -> bool {
    ||| '\t' <= c <= '\r'
    ||| c == ' '
    ||| c == '\u{85}'
    ||| c == '\u{a0}'
    ||| c == '\u{1680}'
    ||| '\u{2000}' <= c <= '\u{200a}'
    ||| c == '\u{2028}'
    ||| c == '\u{2029}'
    ||| c == '\u{202f}'
    ||| c == '\u{205f}'
    ||| c == '\u{3000}'
}

/// The text without the white space in front of it.
pub open spec fn trimmed_start(s: Seq<char>) -> Seq<char>
    decreases s.len(),
{
    if s.len() > 0 && is_space(s[0]) {
        trimmed_start(s.skip(1))
    } else {
        s
    }
}

/// The text without the white space behind it.
pub open spec fn trimmed_end(s: Seq<char>) -> Seq<char>
    decreases s.len(),
{
    if s.len() > 0 && is_space(s.last()) {
        trimmed_end(s.drop_last())
    } else {
        s
    }
}

/// The text without the white space at either end.
pub open spec fn trimmed(s: Seq<char>) -> Seq<char> {
    trimmed_end(trimmed_start(s))
}

/// The number of characters in front of the first white space.
pub open spec fn word_len(s: Seq<char>) -> nat
    decreases s.len(),
{
    if s.len() == 0 || is_space(s[0]) {
        0
    } else {
        1 + word_len(s.skip(1))
    }
}

/// The maximal runs of characters that are not white space, in order.
pub open spec fn words(s: Seq<char>) -> Seq<Seq<char>>
    decreases s.len(),
{
    if s.len() == 0 {
        Seq::empty()
    } else if is_space(s[0]) {
        words(s.skip(1))
    } else {
        let n = word_len(s) as int;
        if 0 < n <= s.len() {
            seq![s.take(n)] + words(s.skip(n))
        } else {
            Seq::empty()
        }
    }
}

/// The contents of a list of strings.
pub open spec fn contents(list: Seq<String>) -> Seq<Seq<char>> {
    list.map_values(|s: String| s@)
}

// ---------------------------------------------------------------------------
// Outside functions
// ---------------------------------------------------------------------------

/// `String::push` appends one character to the end of the string.
pub assume_specification[ String::push ](s: &mut String, c: char)
    ensures
        final(s)@ == old(s)@.push(c),
;

// ---------------------------------------------------------------------------
// Strings and characters
// ---------------------------------------------------------------------------

/// Whether the character is white space.
pub fn is_whitespace(c: char) -> (r: bool)
    ensures
        r == is_space(c),
{
    ('\t' <= c && c <= '\r') || c == ' ' || c == '\u{85}' || c == '\u{a0}' || c == '\u{1680}' || (
    '\u{2000}' <= c && c <= '\u{200a}') || c == '\u{2028}' || c == '\u{2029}' || c == '\u{202f}'
        || c == '\u{205f}' || c == '\u{3000}'
}

/// The characters of a string.
pub fn to_chars(s: &str) -> (r: Vec<char>)
    ensures
        r@ == s@,
{
    let mut chars: Vec<char> = Vec::new();
    for c in it: s.chars()
        invariant
            it.seq() == s@,
            chars@ == s@.take(it.index() as int),
    {
        chars.push(c);
    }
    chars
}

/// The characters `from..to` as a string.
pub fn slice_text(chars: &Vec<char>, from: usize, to: usize) -> (r: String)
    requires
        from <= to <= chars@.len(),
    ensures
        r@ == chars@.subrange(from as int, to as int),
{
    let mut text = String::new();
    let mut i: usize = from;
    while i < to
        invariant
            from <= i <= to <= chars@.len(),
            text@ == chars@.subrange(from as int, i as int),
        decreases to - i,
    {
        text.push(chars[i]);
        i += 1;
    }
    text
}

/// The whole of the characters as a string.
pub fn from_chars(chars: &Vec<char>) -> (r: String)
    ensures
        r@ == chars@,
{
    slice_text(chars, 0, chars.len())
}

/// Whether two texts are equal, character by character.
pub fn same_text(a: &str, b: &str) -> (r: bool)
    ensures
        r == (a@ == b@),
{
    a.to_owned() == b.to_owned()
}

/// The number of characters of a text.
pub fn char_count(s: &str) -> (r: usize)
    ensures
        r == s@.len(),
{
    s.unicode_len()
}

/// Removes the white space at both ends.
pub fn trim(s: &str) -> (r: String)
    ensures
        r@ == trimmed(s@),
{
    let chars = to_chars(s);
    let mut from: usize = 0;
    proof {
        assert(s@.skip(0) =~= s@);
    }
    while from < chars.len() && is_whitespace(chars[from])
        invariant
            chars@ == s@,
            from <= chars@.len(),
            trimmed_start(s@) == trimmed_start(s@.skip(from as int)),
        decreases chars@.len() - from,
    {
        proof {
            assert(s@.skip(from as int).skip(1) =~= s@.skip(from + 1));
        }
        from += 1;
    }
    let mut to: usize = chars.len();
    proof {
        assert(s@.skip(from as int) =~= s@.subrange(from as int, to as int));
    }
    while from < to && is_whitespace(chars[to - 1])
        invariant
            chars@ == s@,
            from <= to <= chars@.len(),
            trimmed(s@) == trimmed_end(s@.subrange(from as int, to as int)),
        decreases to - from,
    {
        proof {
            assert(s@.subrange(from as int, to as int).drop_last() =~= s@.subrange(
                from as int,
                to - 1,
            ));
        }
        to -= 1;
    }
    slice_text(&chars, from, to)
}

/// Splits a text at white space into its words.
pub fn split_whitespace(s: &str) -> (r: Vec<String>)
    ensures
        contents(r@) == words(s@),
{
    let chars = to_chars(s);
    let mut found: Vec<String> = Vec::new();
    let mut i: usize = 0;
    proof {
        assert(s@.skip(0) =~= s@);
        assert(contents(found@) =~= Seq::<Seq<char>>::empty());
    }
    while i < chars.len()
        invariant
            chars@ == s@,
            i <= chars@.len(),
            words(s@) == contents(found@) + words(s@.skip(i as int)),
        decreases chars@.len() - i,
    {
        let ghost rest = s@.skip(i as int);
        if is_whitespace(chars[i]) {
            proof {
                assert(rest.skip(1) =~= s@.skip(i + 1));
            }
            i += 1;
        } else {
            let start: usize = i;
            while i < chars.len() && !is_whitespace(chars[i])
                invariant
                    chars@ == s@,
                    start <= i <= chars@.len(),
                    word_len(s@.skip(start as int)) == (i - start) + word_len(s@.skip(i as int)),
                decreases chars@.len() - i,
            {
                proof {
                    assert(s@.skip(i as int).skip(1) =~= s@.skip(i + 1));
                }
                i += 1;
            }
            proof {
                lemma_word_len(rest);
                assert(word_len(rest) == i - start);
                assert(rest.skip(i - start) =~= s@.skip(i as int));
                assert(rest.take(i - start) =~= s@.subrange(start as int, i as int));
            }
            let ghost before = contents(found@);
            found.push(slice_text(&chars, start, i));
            proof {
                assert(contents(found@) =~= before.push(s@.subrange(start as int, i as int)));
                assert(words(rest) =~= seq![rest.take(i - start)] + words(s@.skip(i as int)));
                assert(contents(found@) + words(s@.skip(i as int)) =~= before + words(rest));
            }
        }
    }
    proof {
        assert(words(s@.skip(i as int)) =~= Seq::<Seq<char>>::empty());
        assert(contents(found@) + words(s@.skip(i as int)) =~= contents(found@));
    }
    found
}

// ---------------------------------------------------------------------------
// Facts about the models
// ---------------------------------------------------------------------------

/// A word is no longer than the text in which it stands first, holds no white
/// space, and is followed by white space or by nothing.
pub proof fn lemma_word_len(s: Seq<char>)
    ensures
        word_len(s) <= s.len(),
        forall|i: int| 0 <= i < word_len(s) ==> !is_space(#[trigger] s[i]),
        word_len(s) < s.len() ==> is_space(s[word_len(s) as int]),
        s.len() > 0 && !is_space(s[0]) ==> word_len(s) > 0,
    decreases s.len(),
{
    if s.len() > 0 && !is_space(s[0]) {
        let rest = s.skip(1);
        lemma_word_len(rest);
        assert forall|i: int| 0 <= i < word_len(s) implies !is_space(#[trigger] s[i]) by {
            if i > 0 {
                assert(s[i] == rest[i - 1]);
            }
        }
        if word_len(s) < s.len() {
            assert(s[word_len(s) as int] == rest[word_len(rest) as int]);
        }
    }
}

/// Trimming never makes a text longer.
pub proof fn lemma_trimmed_shrinks(s: Seq<char>)
    ensures
        trimmed_start(s).len() <= s.len(),
        trimmed_end(s).len() <= s.len(),
        trimmed(s).len() <= s.len(),
    decreases s.len(),
{
    if s.len() > 0 {
        lemma_trimmed_shrinks(s.skip(1));
        lemma_trimmed_shrinks(s.drop_last());
    }
    lemma_trimmed_end_shrinks(trimmed_start(s));
}

proof fn lemma_trimmed_end_shrinks(s: Seq<char>)
    ensures
        trimmed_end(s).len() <= s.len(),
    decreases s.len(),
{
    if s.len() > 0 {
        lemma_trimmed_end_shrinks(s.drop_last());
    }
}

/// A text that holds something other than white space is not empty when
/// trimmed.
pub proof fn lemma_trimmed_keeps(s: Seq<char>, i: int)
    requires
        0 <= i < s.len(),
        !is_space(s[i]),
    ensures
        trimmed(s).len() > 0,
    decreases s.len(),
{
    if is_space(s[0]) {
        assert(s.skip(1)[i - 1] == s[i]);
        lemma_trimmed_keeps(s.skip(1), i - 1);
    } else {
        lemma_trimmed_end_keeps(s, i);
    }
}

proof fn lemma_trimmed_end_keeps(s: Seq<char>, i: int)
    requires
        0 <= i < s.len(),
        !is_space(s[i]),
    ensures
        trimmed_end(s).len() > 0,
    decreases s.len(),
{
    if is_space(s.last()) {
        lemma_trimmed_end_keeps(s.drop_last(), i);
    }
}

/// A text that neither starts nor ends with white space.
pub open spec fn is_tight(s: Seq<char>) -> bool {
    s.len() > 0 ==> !is_space(s[0]) && !is_space(s.last())
}

/// A text that holds no white space.
pub open spec fn is_solid(s: Seq<char>) -> bool {
    forall|i: int| 0 <= i < s.len() ==> !is_space(#[trigger] s[i])
}

/// Trimming leaves such a text as it is.
pub proof fn lemma_tight_is_trimmed(s: Seq<char>)
    requires
        is_tight(s),
    ensures
        trimmed(s) == s,
{
}

/// A word is not empty and holds no white space, so trimming leaves it as it
/// is.
pub proof fn lemma_words_are_solid(s: Seq<char>, i: int)
    requires
        0 <= i < words(s).len(),
    ensures
        words(s)[i].len() > 0,
        is_solid(words(s)[i]),
        trimmed(words(s)[i]) == words(s)[i],
    decreases s.len(),
{
    if s.len() == 0 {
    } else if is_space(s[0]) {
        lemma_words_are_solid(s.skip(1), i);
    } else {
        let n = word_len(s) as int;
        lemma_word_len(s);
        let rest = words(s.skip(n));
        assert(words(s) =~= seq![s.take(n)] + rest);
        if i == 0 {
            assert(words(s)[0] == s.take(n));
            assert forall|k: int| 0 <= k < n implies !is_space(#[trigger] s.take(n)[k]) by {
                assert(s.take(n)[k] == s[k]);
            }
            lemma_tight_is_trimmed(s.take(n));
        } else {
            assert(words(s)[i] == rest[i - 1]);
            lemma_words_are_solid(s.skip(n), i - 1);
        }
    }
}

/// The words of two texts that meet at white space are those of the first
/// followed by those of the second.
pub proof fn lemma_words_append(a: Seq<char>, b: Seq<char>)
    requires
        a.len() == 0 || b.len() == 0 || is_space(a.last()) || is_space(b[0]),
    ensures
        words(a + b) == words(a) + words(b),
    decreases a.len(),
{
    if a.len() == 0 {
        assert(a + b =~= b);
        assert(words(a) + words(b) =~= words(b));
    } else if is_space(a[0]) {
        assert((a + b).skip(1) =~= a.skip(1) + b);
        lemma_words_append(a.skip(1), b);
    } else {
        let n = word_len(a) as int;
        lemma_word_len(a);
        lemma_word_len_append(a, b);
        lemma_word_len(a + b);
        assert((a + b).take(n) =~= a.take(n));
        assert((a + b).skip(n) =~= a.skip(n) + b);
        if n < a.len() {
            assert(a.skip(n).last() == a.last());
        }
        lemma_words_append(a.skip(n), b);
        assert(words(a + b) =~= seq![a.take(n)] + (words(a.skip(n)) + words(b)));
        assert(words(a) + words(b) =~= seq![a.take(n)] + (words(a.skip(n)) + words(b)));
    }
}

proof fn lemma_word_len_append(a: Seq<char>, b: Seq<char>)
    requires
        b.len() == 0 || is_space(b[0]) || word_len(a) < a.len(),
    ensures
        word_len(a + b) == word_len(a),
    decreases a.len(),
{
    if a.len() == 0 {
        assert(a + b =~= b);
    } else if !is_space(a[0]) {
        assert((a + b).skip(1) =~= a.skip(1) + b);
        lemma_word_len_append(a.skip(1), b);
    }
}

/// White space holds no words.
pub proof fn lemma_space_has_no_words(s: Seq<char>)
    requires
        forall|i: int| 0 <= i < s.len() ==> is_space(#[trigger] s[i]),
    ensures
        words(s).len() == 0,
    decreases s.len(),
{
    if s.len() > 0 {
        lemma_space_has_no_words(s.skip(1));
    }
}

/// A text without white space is one word.
pub proof fn lemma_solid_is_one_word(s: Seq<char>)
    requires
        s.len() > 0,
        is_solid(s),
    ensures
        words(s) == seq![s],
{
    lemma_word_len(s);
    let n = word_len(s) as int;
    if n < s.len() {
        assert(is_space(s[n]));
    }
    assert(s.take(n) =~= s);
    assert(words(s.skip(n)) =~= Seq::<Seq<char>>::empty());
    assert(words(s) =~= seq![s]);
}

/// Trimming changes no words.
pub proof fn lemma_words_of_trimmed(s: Seq<char>)
    ensures
        words(trimmed_start(s)) == words(s),
        words(trimmed_end(s)) == words(s),
        words(trimmed(s)) == words(s),
    decreases s.len(),
{
    lemma_words_of_trimmed_start(s);
    lemma_words_of_trimmed_end(s);
    lemma_words_of_trimmed_end(trimmed_start(s));
}

proof fn lemma_words_of_trimmed_start(s: Seq<char>)
    ensures
        words(trimmed_start(s)) == words(s),
    decreases s.len(),
{
    if s.len() > 0 && is_space(s[0]) {
        lemma_words_of_trimmed_start(s.skip(1));
    }
}

proof fn lemma_words_of_trimmed_end(s: Seq<char>)
    ensures
        words(trimmed_end(s)) == words(s),
    decreases s.len(),
{
    if s.len() > 0 && is_space(s.last()) {
        let head = s.drop_last();
        let tail = seq![s.last()];
        lemma_words_of_trimmed_end(head);
        assert(head + tail =~= s);
        lemma_words_append(head, tail);
        lemma_space_has_no_words(tail);
        assert(words(head) + words(tail) =~= words(head));
    }
}

/// What trimming gives neither starts nor ends with white space.
pub proof fn lemma_trimmed_is_tight(s: Seq<char>)
    ensures
        is_tight(trimmed(s)),
{
    lemma_trimmed_start_first(s);
    lemma_trimmed_end_ends(trimmed_start(s));
}

proof fn lemma_trimmed_start_first(s: Seq<char>)
    ensures
        trimmed_start(s).len() > 0 ==> !is_space(trimmed_start(s)[0]),
    decreases s.len(),
{
    if s.len() > 0 && is_space(s[0]) {
        lemma_trimmed_start_first(s.skip(1));
    }
}

proof fn lemma_trimmed_end_ends(s: Seq<char>)
    ensures
        trimmed_end(s).len() > 0 ==> !is_space(trimmed_end(s).last()) && trimmed_end(s)[0] == s[0],
        trimmed_end(s).len() <= s.len(),
    decreases s.len(),
{
    if s.len() > 0 && is_space(s.last()) {
        lemma_trimmed_end_ends(s.drop_last());
    }
}

/// The words of all texts of a list, in order.
pub open spec fn words_of_all(list: Seq<Seq<char>>) -> Seq<Seq<char>>
    decreases list.len(),
{
    if list.len() == 0 {
        Seq::empty()
    } else {
        words_of_all(list.drop_last()) + words(list.last())
    }
}

/// The words of a list that is put together from two.
pub proof fn lemma_words_of_all_append(a: Seq<Seq<char>>, b: Seq<Seq<char>>)
    ensures
        words_of_all(a + b) == words_of_all(a) + words_of_all(b),
    decreases b.len(),
{
    if b.len() == 0 {
        assert(a + b =~= a);
        assert(words_of_all(a) + words_of_all(b) =~= words_of_all(a));
    } else {
        lemma_words_of_all_append(a, b.drop_last());
        assert((a + b).drop_last() =~= a + b.drop_last());
        assert(words_of_all(a + b) =~= words_of_all(a) + words_of_all(b));
    }
}

/// The words of a list of one text.
pub proof fn lemma_words_of_one(s: Seq<char>)
    ensures
        words_of_all(seq![s]) == words(s),
{
    assert(seq![s].drop_last() =~= Seq::<Seq<char>>::empty());
    assert(words_of_all(seq![s].drop_last()) =~= Seq::<Seq<char>>::empty());
    assert(words_of_all(seq![s]) =~= words(s));
}

/// What trimming gives is a part of the text.
pub proof fn lemma_trimmed_is_part(s: Seq<char>) -> (r: (int, int))
    ensures
        0 <= r.0 <= r.1 <= s.len(),
        trimmed(s) == s.subrange(r.0, r.1),
{
    let a = lemma_trimmed_start_is_part(s);
    let b = lemma_trimmed_end_is_part(s.skip(a));
    assert(s.skip(a).take(b) =~= s.subrange(a, a + b));
    (a, a + b)
}

proof fn lemma_trimmed_start_is_part(s: Seq<char>) -> (a: int)
    ensures
        0 <= a <= s.len(),
        trimmed_start(s) == s.skip(a),
    decreases s.len(),
{
    if s.len() > 0 && is_space(s[0]) {
        let a = lemma_trimmed_start_is_part(s.skip(1));
        assert(s.skip(1).skip(a) =~= s.skip(a + 1));
        a + 1
    } else {
        assert(s.skip(0) =~= s);
        0
    }
}

proof fn lemma_trimmed_end_is_part(s: Seq<char>) -> (b: int)
    ensures
        0 <= b <= s.len(),
        trimmed_end(s) == s.take(b),
    decreases s.len(),
{
    if s.len() > 0 && is_space(s.last()) {
        let b = lemma_trimmed_end_is_part(s.drop_last());
        assert(s.drop_last().take(b) =~= s.take(b));
        b
    } else {
        assert(s.take(s.len() as int) =~= s);
        s.len() as int
    }
}

} // verus!
