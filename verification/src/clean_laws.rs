//! What holds of every cleaned text.

use vstd::prelude::*;

use crate::chunk;
use crate::clean;
use crate::text;

verus! {

/// A text that does not hold the character.
pub open spec fn lacks(s: Seq<char>, c: char) -> bool {
    forall|i: int| 0 <= i < s.len() ==> #[trigger] s[i] != c
}

/// A text without tabs and without two spaces in a row.
pub open spec fn is_neat(s: Seq<char>) -> bool {
    &&& lacks(s, '\t')
    &&& forall|i: int, j: int|
        0 <= i && j == i + 1 && j < s.len() ==> !(#[trigger] s[i] == ' ' && #[trigger] s[j] == ' ')
}

/// A paragraph of a cleaned text: some text on one line, with no white space
/// at its ends and no needless blanks inside, that is no page number.
pub open spec fn is_clean_paragraph(s: Seq<char>) -> bool {
    &&& s.len() > 0
    &&& text::is_tight(s)
    &&& is_neat(s)
    &&& lacks(s, '\n')
    &&& lacks(s, '\r')
    &&& !clean::is_page_number(s)
}

/// A list of such paragraphs.
pub open spec fn all_clean(list: Seq<Seq<char>>) -> bool {
    forall|i: int| 0 <= i < list.len() ==> is_clean_paragraph(#[trigger] list[i])
}

// ---------------------------------------------------------------------------
// Steps of the cleaning
// ---------------------------------------------------------------------------

proof fn lemma_unix_lines(s: Seq<char>)
    ensures
        lacks(clean::unix_lines(s), '\r'),
        lacks(s, '\r') ==> clean::unix_lines(s) == s,
    decreases s.len(),
{
    if s.len() > 0 {
        lemma_unix_lines(s.skip(1));
        if s.len() > 1 {
            lemma_unix_lines(s.skip(2));
        }
        if lacks(s, '\r') {
            assert(s[0] != '\r');
            assert forall|i: int| 0 <= i < s.skip(1).len() implies #[trigger] s.skip(1)[i]
                != '\r' by {
                assert(s.skip(1)[i] == s[i + 1]);
            }
            assert(seq![s[0]] + s.skip(1) =~= s);
        }
    }
}

proof fn lemma_hyphens_joined(s: Seq<char>, c: char)
    requires
        lacks(s, c),
    ensures
        lacks(clean::hyphens_joined(s), c),
    decreases s.len(),
{
    if s.len() > 0 {
        let k: int = if clean::starts_broken(s) {
            4
        } else {
            1
        };
        let rest = s.skip(k);
        assert forall|i: int| 0 <= i < rest.len() implies #[trigger] rest[i] != c by {
            assert(rest[i] == s[i + k]);
        }
        lemma_hyphens_joined(rest, c);
        assert(s[0] != c);
        if k == 4 {
            assert(s[3] != c);
        }
    }
}

proof fn lemma_blanks_collapsed(s: Seq<char>)
    ensures
        s.len() > 0 ==> clean::blanks_collapsed(s).len() > 0,
        s.len() > 0 && !clean::is_blank(s[0]) ==> clean::blanks_collapsed(s)[0] == s[0],
        s.len() > 0 && !clean::is_blank(s.last()) ==> clean::blanks_collapsed(s).last() == s.last(),
        is_neat(clean::blanks_collapsed(s)),
        lacks(s, '\n') ==> lacks(clean::blanks_collapsed(s), '\n'),
        lacks(s, '\r') ==> lacks(clean::blanks_collapsed(s), '\r'),
    decreases s.len(),
{
    if s.len() > 0 {
        let rest = s.skip(1);
        let r = clean::blanks_collapsed(rest);
        let out = clean::blanks_collapsed(s);
        lemma_blanks_collapsed(rest);
        assert(forall|c: char|
            lacks(s, c) ==> #[trigger] lacks(rest, c)) by {
            assert forall|c: char| lacks(s, c) implies #[trigger] lacks(rest, c) by {
                assert forall|i: int| 0 <= i < rest.len() implies #[trigger] rest[i] != c by {
                    assert(rest[i] == s[i + 1]);
                }
            }
        }
        if rest.len() > 0 {
            assert(rest.last() == s.last());
            assert(rest[0] == s[1]);
        } else {
            assert(r.len() == 0);
        }
        if clean::is_blank(s[0]) && s.len() > 1 && clean::is_blank(s[1]) {
        } else {
            assert(out.len() == 1 + r.len());
            assert forall|i: int, j: int| 0 <= i && j == i + 1 && j < out.len() implies !(
            #[trigger] out[i] == ' ' && #[trigger] out[j] == ' ') by {
                assert(out[j] == r[j - 1]);
                if i > 0 {
                    assert(out[i] == r[i - 1]);
                }
            }
            assert forall|i: int| 0 <= i < out.len() implies #[trigger] out[i] != '\t' by {
                if i > 0 {
                    assert(out[i] == r[i - 1]);
                }
            }
            if r.len() > 0 {
                assert(out.last() == r.last());
            }
        }
    }
}

proof fn lemma_neat_is_collapsed(s: Seq<char>)
    requires
        is_neat(s),
    ensures
        clean::blanks_collapsed(s) == s,
    decreases s.len(),
{
    if s.len() > 0 {
        let rest = s.skip(1);
        assert(is_neat(rest)) by {
            assert forall|i: int| 0 <= i < rest.len() implies #[trigger] rest[i] != '\t' by {
                assert(rest[i] == s[i + 1]);
            }
            assert forall|i: int, j: int| 0 <= i && j == i + 1 && j < rest.len() implies !(
            #[trigger] rest[i] == ' ' && #[trigger] rest[j] == ' ') by {
                assert(rest[i] == s[i + 1] && rest[j] == s[j + 1]);
            }
        }
        lemma_neat_is_collapsed(rest);
        assert(s[0] != '\t');
        if s.len() > 1 {
            assert(s[1] != '\t');
        }
        assert(seq![s[0]] + rest =~= s);
    }
}

proof fn lemma_tidy(s: Seq<char>)
    requires
        lacks(s, '\n'),
        lacks(s, '\r'),
    ensures
        text::is_tight(clean::tidy(s)),
        is_neat(clean::tidy(s)),
        lacks(clean::tidy(s), '\n'),
        lacks(clean::tidy(s), '\r'),
{
    let t = text::trimmed(s);
    let (a, b) = text::lemma_trimmed_is_part(s);
    assert forall|i: int| 0 <= i < t.len() implies #[trigger] t[i] != '\n' && t[i] != '\r' by {
        assert(t[i] == s[a + i]);
    }
    text::lemma_trimmed_is_tight(s);
    lemma_blanks_collapsed(t);
}

/// A tidy line has no white space at its ends.
pub proof fn lemma_tidy_is_tight(s: Seq<char>)
    ensures
        text::is_tight(clean::tidy(s)),
{
    text::lemma_trimmed_is_tight(s);
    lemma_blanks_collapsed(text::trimmed(s));
}

/// Cleaning a line a second time changes nothing.
pub proof fn lemma_tidy_again(s: Seq<char>)
    requires
        text::is_tight(s),
        is_neat(s),
    ensures
        clean::tidy(s) == s,
{
    text::lemma_tight_is_trimmed(s);
    lemma_neat_is_collapsed(s);
}

/// The first line of a text holds no line end, and one stands behind it unless
/// the text ends there.
pub proof fn lemma_line_len(s: Seq<char>)
    ensures
        clean::line_len(s) <= s.len(),
        clean::line_len(s) < s.len() ==> s[clean::line_len(s) as int] == '\n',
        lacks(s.take(clean::line_len(s) as int), '\n'),
    decreases s.len(),
{
    let n = clean::line_len(s) as int;
    if s.len() > 0 && s[0] != '\n' {
        let rest = s.skip(1);
        lemma_line_len(rest);
        if n < s.len() {
            assert(rest[n - 1] == s[n]);
        }
        assert forall|i: int| 0 <= i < n implies #[trigger] s.take(n)[i] != '\n' by {
            if i > 0 {
                assert(s.take(n)[i] == rest.take(n - 1)[i - 1]);
            }
        }
    }
}

/// The lines of a list hold neither line ends nor carriage returns.
spec fn all_flat(list: Seq<Seq<char>>) -> bool {
    forall|i: int| 0 <= i < list.len() ==> lacks(#[trigger] list[i], '\n') && lacks(list[i], '\r')
}

proof fn lemma_lines(s: Seq<char>)
    requires
        lacks(s, '\r'),
    ensures
        all_flat(clean::lines(s)),
    decreases s.len(),
{
    let n = clean::line_len(s) as int;
    lemma_line_len(s);
    if s.len() > 0 {
        let first = s.take(n);
        assert forall|i: int| 0 <= i < n implies #[trigger] first[i] != '\r' by {
            assert(first[i] == s[i]);
        }
        let all = clean::lines(s);
        if n < s.len() {
            let rest = s.skip(n + 1);
            assert forall|i: int| 0 <= i < rest.len() implies #[trigger] rest[i] != '\r' by {
                assert(rest[i] == s[i + n + 1]);
            }
            lemma_lines(rest);
            assert forall|i: int| 0 <= i < all.len() implies lacks(#[trigger] all[i], '\n')
                && lacks(all[i], '\r') by {
                if i > 0 {
                    assert(all[i] == clean::lines(rest)[i - 1]);
                }
            }
        } else {
            assert(first =~= s);
        }
    }
}

/// A space is no decimal digit.
proof fn lemma_space_is_no_digit()
    ensures
        !clean::is_digit(' '),
{
    let zeros = clean::digit_zeros();
    assert forall|i: int| 0 <= i < zeros.len() implies #[trigger] zeros[i] >= 0x30 by {}
}

proof fn lemma_continued(begun: Seq<char>, line: Seq<char>)
    requires
        begun.len() == 0 || is_clean_paragraph(begun),
        is_clean_paragraph(line),
    ensures
        is_clean_paragraph(clean::continued(begun, line)),
{
    if begun.len() > 0 {
        let k = begun.len() as int;
        let p = clean::continued(begun, line);
        assert forall|i: int| 0 <= i < p.len() implies #[trigger] p[i] != '\t' && p[i] != '\n'
            && p[i] != '\r' by {
            if i < k {
                assert(p[i] == begun[i]);
            } else if i > k {
                assert(p[i] == line[i - k - 1]);
            }
        }
        assert forall|i: int, j: int| 0 <= i && j == i + 1 && j < p.len() implies !(#[trigger] p[i]
            == ' ' && #[trigger] p[j] == ' ') by {
            if j < k {
                assert(p[i] == begun[i] && p[j] == begun[j]);
            } else if j == k {
                assert(p[i] == begun.last());
            } else if i == k {
                assert(p[j] == line[0]);
            } else {
                assert(p[i] == line[i - k - 1] && p[j] == line[j - k - 1]);
            }
        }
        assert(p[0] == begun[0]);
        assert(p.last() == line.last());
        text::lemma_tight_is_trimmed(p);
        lemma_space_is_no_digit();
        assert(p[k] == ' ');
    }
}

proof fn lemma_paragraphs_from(begun: Seq<char>, list: Seq<Seq<char>>)
    requires
        begun.len() == 0 || is_clean_paragraph(begun),
        all_flat(list),
    ensures
        all_clean(clean::paragraphs_from(begun, list)),
    decreases list.len(),
{
    if list.len() > 0 {
        let line = clean::tidy(list[0]);
        let rest = list.skip(1);
        lemma_tidy(list[0]);
        assert forall|i: int| 0 <= i < rest.len() implies lacks(#[trigger] rest[i], '\n') && lacks(
            rest[i],
            '\r',
        ) by {
            assert(rest[i] == list[i + 1]);
        }
        if line.len() == 0 {
            lemma_paragraphs_from(Seq::empty(), rest);
            let more = clean::paragraphs_from(Seq::empty(), rest);
            let first = clean::unless_empty(begun);
            let all = first + more;
            assert forall|i: int| 0 <= i < all.len() implies is_clean_paragraph(
                #[trigger] all[i],
            ) by {
                if i < first.len() {
                    assert(all[i] == begun);
                } else {
                    assert(all[i] == more[i - first.len()]);
                }
            }
        } else if clean::is_page_number(line) {
            lemma_paragraphs_from(begun, rest);
        } else {
            lemma_continued(begun, line);
            lemma_paragraphs_from(clean::continued(begun, line), rest);
        }
    }
}

/// The paragraphs of a cleaned text are clean.
pub proof fn lemma_clean_paragraphs(raw: Seq<char>)
    ensures
        all_clean(clean::clean_paragraphs(raw)),
{
    let s = clean::unix_lines(raw);
    lemma_unix_lines(raw);
    lemma_hyphens_joined(s, '\r');
    lemma_lines(clean::hyphens_joined(s));
    lemma_paragraphs_from(Seq::empty(), clean::lines(clean::hyphens_joined(s)));
}

/// Clean paragraphs joined with any separator have no white space at the ends.
pub proof fn lemma_joined_is_tight(list: Seq<Seq<char>>, separator: Seq<char>)
    requires
        all_clean(list),
    ensures
        text::is_tight(clean::joined(list, separator)),
        list.len() > 0 ==> clean::joined(list, separator).len() > 0,
        list.len() > 0 ==> clean::joined(list, separator).last() == list.last().last(),
        list.len() > 0 ==> clean::joined(list, separator)[0] == list[0][0],
    decreases list.len(),
{
    if list.len() > 0 {
        assert(is_clean_paragraph(list[0]));
        assert(is_clean_paragraph(list.last()));
        if list.len() > 1 {
            let head = list.drop_last();
            assert forall|i: int| 0 <= i < head.len() implies is_clean_paragraph(
                #[trigger] head[i],
            ) by {
                assert(head[i] == list[i]);
            }
            lemma_joined_is_tight(head, separator);
        }
    }
}

// ---------------------------------------------------------------------------
// Reading a cleaned text again
// ---------------------------------------------------------------------------

/// Joined texts start with the first of them.
pub proof fn lemma_joined_front(list: Seq<Seq<char>>, separator: Seq<char>)
    requires
        list.len() > 1,
    ensures
        clean::joined(list, separator) == list[0] + separator + clean::joined(
            list.skip(1),
            separator,
        ),
    decreases list.len(),
{
    let rest = list.skip(1);
    let head = list.drop_last();
    assert(rest.last() == list.last());
    if list.len() == 2 {
        assert(clean::joined(head, separator) == list[0]);
        assert(clean::joined(rest, separator) == list[1]);
    } else {
        lemma_joined_front(head, separator);
        assert(head.skip(1) =~= rest.drop_last());
        assert(clean::joined(list, separator) =~= list[0] + separator + clean::joined(
            rest,
            separator,
        ));
    }
}

proof fn lemma_rest_is_clean(list: Seq<Seq<char>>)
    requires
        all_clean(list),
        list.len() > 0,
    ensures
        is_clean_paragraph(list[0]),
        all_clean(list.skip(1)),
{
    let rest = list.skip(1);
    assert forall|i: int| 0 <= i < rest.len() implies is_clean_paragraph(#[trigger] rest[i]) by {
        assert(rest[i] == list[i + 1]);
    }
}

/// No line end of the text stands alone.
spec fn line_ends_paired(s: Seq<char>) -> bool {
    forall|i: int|
        0 <= i < s.len() && #[trigger] s[i] == '\n' ==> (i > 0 && s[i - 1] == '\n') || (i + 1
            < s.len() && s[i + 1] == '\n')
}

proof fn lemma_joined_line_ends(list: Seq<Seq<char>>)
    requires
        all_clean(list),
    ensures
        line_ends_paired(clean::joined(list, seq!['\n', '\n'])),
        lacks(clean::joined(list, seq!['\n', '\n']), '\r'),
    decreases list.len(),
{
    let gap = seq!['\n', '\n'];
    let s = clean::joined(list, gap);
    if list.len() > 0 {
        lemma_rest_is_clean(list);
        let p = list[0];
        let k = p.len() as int;
        if list.len() > 1 {
            let t = clean::joined(list.skip(1), gap);
            lemma_joined_line_ends(list.skip(1));
            lemma_joined_front(list, gap);
            assert(s == p + gap + t);
            assert forall|i: int| 0 <= i < s.len() implies #[trigger] s[i] != '\r' by {
                if i < k {
                    assert(s[i] == p[i]);
                } else if i >= k + 2 {
                    assert(s[i] == t[i - k - 2]);
                }
            }
            assert forall|i: int| 0 <= i < s.len() && #[trigger] s[i] == '\n' implies (i > 0
                && s[i - 1] == '\n') || (i + 1 < s.len() && s[i + 1] == '\n') by {
                if i < k {
                    assert(s[i] == p[i]);
                } else if i == k {
                    assert(s[i + 1] == '\n');
                } else if i == k + 1 {
                    assert(s[i - 1] == '\n');
                } else {
                    assert(s[i] == t[i - k - 2]);
                    if i - k - 2 > 0 && t[i - k - 3] == '\n' {
                        assert(s[i - 1] == t[i - k - 3]);
                    } else {
                        assert(s[i + 1] == t[i - k - 1]);
                    }
                }
            }
        }
    }
}

/// A text in which no word is broken at a line end stays as it is.
pub proof fn lemma_nothing_to_join(s: Seq<char>)
    requires
        forall|i: int|
            0 <= i && i + 3 < s.len() ==> !clean::starts_broken(#[trigger] s.skip(i)),
    ensures
        clean::hyphens_joined(s) == s,
    decreases s.len(),
{
    if s.len() > 0 {
        assert(s.skip(0) =~= s);
        if s.len() >= 4 {
            assert(!clean::starts_broken(s.skip(0)));
        }
        let rest = s.skip(1);
        assert forall|i: int| 0 <= i && i + 3 < rest.len() implies !clean::starts_broken(
            #[trigger] rest.skip(i),
        ) by {
            assert(rest.skip(i) =~= s.skip(i + 1));
        }
        lemma_nothing_to_join(rest);
        assert(seq![s[0]] + rest =~= s);
    }
}

proof fn lemma_paired_is_unbroken(s: Seq<char>)
    requires
        line_ends_paired(s),
    ensures
        clean::hyphens_joined(s) == s,
{
    assert forall|i: int| 0 <= i && i + 3 < s.len() implies !clean::starts_broken(
        #[trigger] s.skip(i),
    ) by {
        let t = s.skip(i);
        assert(t[1] == s[i + 1] && t[2] == s[i + 2] && t[3] == s[i + 3]);
        if clean::starts_broken(t) {
            assert(s[i + 2] == '\n');
        }
    }
    lemma_nothing_to_join(s);
}

proof fn lemma_line_len_before(p: Seq<char>, t: Seq<char>)
    requires
        lacks(p, '\n'),
        t.len() == 0 || t[0] == '\n',
    ensures
        clean::line_len(p + t) == p.len(),
    decreases p.len(),
{
    if p.len() == 0 {
        assert(p + t =~= t);
    } else {
        assert((p + t)[0] == p[0]);
        assert((p + t).skip(1) =~= p.skip(1) + t);
        assert forall|i: int| 0 <= i < p.skip(1).len() implies #[trigger] p.skip(1)[i] != '\n' by {
            assert(p.skip(1)[i] == p[i + 1]);
        }
        lemma_line_len_before(p.skip(1), t);
    }
}

proof fn lemma_paragraphs_again(list: Seq<Seq<char>>)
    requires
        all_clean(list),
    ensures
        clean::paragraphs_from(
            Seq::empty(),
            clean::lines(clean::joined(list, seq!['\n', '\n'])),
        ) == list,
    decreases list.len(),
{
    let gap = seq!['\n', '\n'];
    let none = Seq::<char>::empty();
    let s = clean::joined(list, gap);
    let found = clean::paragraphs_from(none, clean::lines(s));
    if list.len() == 0 {
        assert(found =~= list);
    } else {
        lemma_rest_is_clean(list);
        let p = list[0];
        lemma_tidy_again(p);
        if list.len() == 1 {
            lemma_line_len_before(p, none);
            assert(p + none =~= p);
            assert(clean::lines(s) =~= seq![p]);
            let after = seq![p].skip(1);
            assert(after.len() == 0);
            assert(clean::paragraphs_from(p, after) =~= seq![p]);
            assert(found =~= list);
        } else {
            let rest = list.skip(1);
            let t = clean::joined(rest, gap);
            let more = clean::lines(t);
            lemma_joined_front(list, gap);
            lemma_paragraphs_again(rest);
            assert(s =~= p + (gap + t));
            lemma_line_len_before(p, gap + t);
            assert(s.take(p.len() as int) =~= p);
            let s2 = s.skip(p.len() as int + 1);
            assert(s2 =~= seq!['\n'] + t);
            assert(clean::line_len(s2) == 0);
            assert(s2.take(0) =~= none);
            assert(s2.skip(1) =~= t);
            assert(clean::lines(s2) =~= seq![none] + more);
            let all = clean::lines(s);
            assert(all =~= seq![p] + (seq![none] + more));
            assert(all.skip(1) =~= seq![none] + more);
            assert(all.skip(1).skip(1) =~= more);
            assert(clean::tidy(none) =~= none);
            assert(clean::paragraphs_from(p, all.skip(1)) =~= seq![p] + clean::paragraphs_from(
                none,
                more,
            ));
            assert(found =~= seq![p] + rest);
            assert(found =~= list);
        }
    }
}

proof fn lemma_break_before(p: Seq<char>, t: Seq<char>)
    requires
        lacks(p, '\n'),
        t.len() == 0 || (t.len() >= 2 && t[0] == '\n' && t[1] == '\n'),
    ensures
        chunk::break_at(p + t) == p.len(),
    decreases p.len(),
{
    if p.len() == 0 {
        assert(p + t =~= t);
    } else {
        assert((p + t)[0] == p[0]);
        assert((p + t).skip(1) =~= p.skip(1) + t);
        assert forall|i: int| 0 <= i < p.skip(1).len() implies #[trigger] p.skip(1)[i] != '\n' by {
            assert(p.skip(1)[i] == p[i + 1]);
        }
        lemma_break_before(p.skip(1), t);
    }
}

proof fn lemma_pieces_of_joined(list: Seq<Seq<char>>)
    requires
        all_clean(list),
        list.len() > 0,
    ensures
        chunk::pieces(clean::joined(list, seq!['\n', '\n'])) == list,
    decreases list.len(),
{
    let gap = seq!['\n', '\n'];
    let s = clean::joined(list, gap);
    lemma_rest_is_clean(list);
    let p = list[0];
    if list.len() == 1 {
        let none = Seq::<char>::empty();
        lemma_break_before(p, none);
        assert(p + none =~= p);
        assert(chunk::pieces(s) =~= list);
    } else {
        let rest = list.skip(1);
        let t = clean::joined(rest, gap);
        lemma_joined_front(list, gap);
        lemma_pieces_of_joined(rest);
        assert(s =~= p + (gap + t));
        lemma_break_before(p, gap + t);
        assert(s.take(p.len() as int) =~= p);
        assert(s.skip(p.len() as int + 2) =~= t);
        assert(chunk::pieces(s) =~= seq![p] + rest);
        assert(seq![p] + rest =~= list);
    }
}

proof fn lemma_clean_is_nonblank(list: Seq<Seq<char>>)
    requires
        all_clean(list),
    ensures
        chunk::nonblank(list) == list,
    decreases list.len(),
{
    if list.len() > 0 {
        lemma_rest_is_clean(list);
        lemma_clean_is_nonblank(list.skip(1));
        text::lemma_tight_is_trimmed(list[0]);
        assert(seq![list[0]] + list.skip(1) =~= list);
    }
}

// ---------------------------------------------------------------------------
// Laws
// ---------------------------------------------------------------------------

/// A cleaned text has no white space at its ends, no carriage returns, no tabs
/// and no two spaces in a row, and no paragraph of it is a page number.
pub proof fn law_cleaned_text_is_clean(raw: Seq<char>)
    ensures
        text::trimmed(clean::cleaned(raw)) == clean::cleaned(raw),
        lacks(clean::cleaned(raw), '\r'),
        is_neat(clean::cleaned(raw)),
        forall|i: int|
            0 <= i < clean::clean_paragraphs(raw).len() ==> !clean::is_page_number(
                #[trigger] clean::clean_paragraphs(raw)[i],
            ),
{
    let list = clean::clean_paragraphs(raw);
    lemma_clean_paragraphs(raw);
    lemma_joined_is_tight(list, seq!['\n', '\n']);
    text::lemma_tight_is_trimmed(clean::cleaned(raw));
    lemma_joined_line_ends(list);
    lemma_joined_is_neat(list);
    assert forall|i: int| 0 <= i < list.len() implies !clean::is_page_number(#[trigger] list[i]) by {
        assert(is_clean_paragraph(list[i]));
    }
}

proof fn lemma_joined_is_neat(list: Seq<Seq<char>>)
    requires
        all_clean(list),
    ensures
        is_neat(clean::joined(list, seq!['\n', '\n'])),
    decreases list.len(),
{
    let gap = seq!['\n', '\n'];
    let s = clean::joined(list, gap);
    if list.len() > 0 {
        lemma_rest_is_clean(list);
        let p = list[0];
        let k = p.len() as int;
        if list.len() > 1 {
            let t = clean::joined(list.skip(1), gap);
            lemma_joined_is_neat(list.skip(1));
            lemma_joined_front(list, gap);
            assert forall|i: int| 0 <= i < s.len() implies #[trigger] s[i] != '\t' by {
                if i < k {
                    assert(s[i] == p[i]);
                } else if i >= k + 2 {
                    assert(s[i] == t[i - k - 2]);
                }
            }
            assert forall|i: int, j: int| 0 <= i && j == i + 1 && j < s.len() implies !(
            #[trigger] s[i] == ' ' && #[trigger] s[j] == ' ') by {
                if j < k {
                    assert(s[i] == p[i] && s[j] == p[j]);
                } else if i >= k + 2 {
                    assert(s[i] == t[i - k - 2] && s[j] == t[j - k - 2]);
                } else {
                    assert(s[i] == '\n' || s[j] == '\n');
                }
            }
        }
    }
}

/// Cleaning a cleaned text changes nothing.
pub proof fn law_cleaning_twice_is_cleaning_once(raw: Seq<char>)
    ensures
        clean::cleaned(clean::cleaned(raw)) == clean::cleaned(raw),
{
    let list = clean::clean_paragraphs(raw);
    let s = clean::cleaned(raw);
    lemma_clean_paragraphs(raw);
    lemma_joined_line_ends(list);
    lemma_unix_lines(s);
    lemma_paired_is_unbroken(s);
    lemma_paragraphs_again(list);
}

/// The paragraphs into which a cleaned text is split for speech are the
/// paragraphs that the cleaning found.
pub proof fn law_cleaning_keeps_paragraphs(raw: Seq<char>)
    ensures
        chunk::paragraphs(clean::cleaned(raw)) == clean::clean_paragraphs(raw),
{
    let list = clean::clean_paragraphs(raw);
    lemma_clean_paragraphs(raw);
    if list.len() == 0 {
        let s = clean::cleaned(raw);
        assert(chunk::pieces(s) =~= seq![s]);
        assert(text::trimmed(s) =~= s);
        let rest = seq![s].skip(1);
        assert(rest.len() == 0);
        assert(chunk::nonblank(rest) =~= Seq::<Seq<char>>::empty());
        assert(chunk::nonblank(seq![s]) == chunk::nonblank(rest));
        assert(chunk::paragraphs(s) =~= list);
    } else {
        lemma_pieces_of_joined(list);
        lemma_clean_is_nonblank(list);
    }
}

} // verus!
