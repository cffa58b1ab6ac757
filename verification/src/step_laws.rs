//! What each step of the cleaning of a raw text does to its characters.

use vstd::prelude::*;

use crate::clean;
use crate::clean_laws;
use crate::text;
use crate::text_laws;

verus! {

// ---------------------------------------------------------------------------
// Line ends
// ---------------------------------------------------------------------------

proof fn lemma_unix_lines_pass(a: Seq<char>, b: Seq<char>)
    requires
        clean_laws::lacks(a, '\r'),
    ensures
        clean::unix_lines(a + b) == a + clean::unix_lines(b),
    decreases a.len(),
{
    if a.len() == 0 {
        assert(a + b =~= b);
        assert(a + clean::unix_lines(b) =~= clean::unix_lines(b));
    } else {
        let rest = a.skip(1);
        assert((a + b).skip(1) =~= rest + b);
        assert((a + b)[0] == a[0]);
        assert(a[0] != '\r');
        lemma_unix_lines_pass(rest, b);
        assert(seq![a[0]] + (rest + clean::unix_lines(b)) =~= a + clean::unix_lines(b));
    }
}

/// A text without carriage returns keeps its line ends as they are.
pub proof fn law_text_without_returns_stays(s: Seq<char>)
    requires
        clean_laws::lacks(s, '\r'),
    ensures
        clean::unix_lines(s) == s,
{
    let end = Seq::<char>::empty();
    lemma_unix_lines_pass(s, end);
    assert(s + end =~= s);
    assert(s + clean::unix_lines(end) =~= s);
}

/// A carriage return, alone or with a line feed behind it, becomes one line feed.
/// What stands before the first of them stays, and what follows goes on alike.
pub proof fn law_returns_become_line_feeds(a: Seq<char>, b: Seq<char>)
    requires
        clean_laws::lacks(a, '\r'),
    ensures
        clean::unix_lines(a + seq!['\r', '\n'] + b) == a + seq!['\n'] + clean::unix_lines(b),
        b.len() == 0 || b[0] != '\n' ==> clean::unix_lines(a + seq!['\r'] + b) == a + seq!['\n']
            + clean::unix_lines(b),
{
    let pair = seq!['\r', '\n'] + b;
    assert(a + seq!['\r', '\n'] + b =~= a + pair);
    lemma_unix_lines_pass(a, pair);
    assert(pair[0] == '\r' && pair[1] == '\n');
    assert(pair.skip(2) =~= b);
    assert(a + (seq!['\n'] + clean::unix_lines(b)) =~= a + seq!['\n'] + clean::unix_lines(b));
    let one = seq!['\r'] + b;
    assert(a + seq!['\r'] + b =~= a + one);
    lemma_unix_lines_pass(a, one);
    assert(one[0] == '\r');
    assert(one.skip(1) =~= b);
    if b.len() > 0 {
        assert(one[1] == b[0]);
    }
}

// ---------------------------------------------------------------------------
// Words broken at a line end
// ---------------------------------------------------------------------------

/// At `i` a letter stands, then a hyphen, a line feed and another letter.
pub open spec fn is_broken_at(s: Seq<char>, i: int) -> bool {
    &&& 0 <= i
    &&& i + 3 < s.len()
    &&& 'a' <= s[i] <= 'z' || 'A' <= s[i] <= 'Z'
    &&& s[i + 1] == '-'
    &&& s[i + 2] == '\n'
    &&& 'a' <= s[i + 3] <= 'z' || 'A' <= s[i + 3] <= 'Z'
}

proof fn lemma_hyphens_pass(s: Seq<char>, n: int)
    requires
        0 <= n <= s.len(),
        forall|i: int| i < n ==> !#[trigger] is_broken_at(s, i),
    ensures
        clean::hyphens_joined(s) == s.take(n) + clean::hyphens_joined(s.skip(n)),
    decreases n,
{
    if n == 0 {
        assert(s.skip(0) =~= s);
        assert(s.take(0) + clean::hyphens_joined(s) =~= clean::hyphens_joined(s));
    } else {
        let rest = s.skip(1);
        assert(!is_broken_at(s, 0));
        assert(!clean::starts_broken(s));
        assert forall|i: int| i < n - 1 implies !#[trigger] is_broken_at(rest, i) by {
            assert(!is_broken_at(s, i + 1));
            if 0 <= i && i + 3 < rest.len() {
                assert(rest[i] == s[i + 1] && rest[i + 1] == s[i + 2] && rest[i + 2] == s[i + 3]
                    && rest[i + 3] == s[i + 4]);
            }
        }
        lemma_hyphens_pass(rest, n - 1);
        assert(rest.skip(n - 1) =~= s.skip(n));
        assert(seq![s[0]] + (rest.take(n - 1) + clean::hyphens_joined(s.skip(n))) =~= s.take(n)
            + clean::hyphens_joined(s.skip(n)));
    }
}

/// A text in which no word is broken at a line end stays as it is.
pub proof fn law_whole_words_stay(s: Seq<char>)
    requires
        forall|i: int| !#[trigger] is_broken_at(s, i),
    ensures
        clean::hyphens_joined(s) == s,
{
    let n = s.len() as int;
    lemma_hyphens_pass(s, n);
    assert(s.take(n) =~= s);
    assert(s.skip(n).len() == 0);
    assert(clean::hyphens_joined(s.skip(n)) =~= Seq::<char>::empty());
    assert(s + Seq::<char>::empty() =~= s);
}

/// Where a word is broken at a line end, the hyphen and the line feed go and the
/// two letters stay. What stands before the first break stays, and what follows
/// goes on alike.
pub proof fn law_broken_words_are_joined(s: Seq<char>, n: int)
    requires
        is_broken_at(s, n),
        forall|i: int| i < n ==> !#[trigger] is_broken_at(s, i),
    ensures
        clean::hyphens_joined(s) == s.take(n) + seq![s[n], s[n + 3]] + clean::hyphens_joined(
            s.skip(n + 4),
        ),
{
    lemma_hyphens_pass(s, n);
    let t = s.skip(n);
    assert(t[0] == s[n] && t[1] == s[n + 1] && t[2] == s[n + 2] && t[3] == s[n + 3]);
    assert(clean::starts_broken(t));
    assert(t.skip(4) =~= s.skip(n + 4));
    assert(s.take(n) + (seq![s[n], s[n + 3]] + clean::hyphens_joined(s.skip(n + 4))) =~= s.take(n)
        + seq![s[n], s[n + 3]] + clean::hyphens_joined(s.skip(n + 4)));
}

// ---------------------------------------------------------------------------
// Blanks
// ---------------------------------------------------------------------------

/// The text is made of spaces and tabs.
pub open spec fn is_run(s: Seq<char>) -> bool {
    forall|i: int| 0 <= i < s.len() ==> #[trigger] s[i] == ' ' || s[i] == '\t'
}

proof fn lemma_blanks_pass(a: Seq<char>, b: Seq<char>)
    requires
        clean_laws::lacks(a, ' '),
        clean_laws::lacks(a, '\t'),
    ensures
        clean::blanks_collapsed(a + b) == a + clean::blanks_collapsed(b),
    decreases a.len(),
{
    if a.len() == 0 {
        assert(a + b =~= b);
        assert(a + clean::blanks_collapsed(b) =~= clean::blanks_collapsed(b));
    } else {
        let rest = a.skip(1);
        assert((a + b).skip(1) =~= rest + b);
        assert((a + b)[0] == a[0]);
        assert(a[0] != ' ' && a[0] != '\t');
        lemma_blanks_pass(rest, b);
        assert(seq![a[0]] + (rest + clean::blanks_collapsed(b)) =~= a + clean::blanks_collapsed(b));
    }
}

proof fn lemma_run_collapses(run: Seq<char>, b: Seq<char>)
    requires
        is_run(run),
        run.len() > 0,
        b.len() > 0 ==> b[0] != ' ' && b[0] != '\t',
    ensures
        clean::blanks_collapsed(run + b) == seq![' '] + clean::blanks_collapsed(b),
    decreases run.len(),
{
    let s = run + b;
    assert(s[0] == run[0]);
    assert(s.skip(1) =~= run.skip(1) + b);
    if run.len() == 1 {
        assert(run.skip(1) + b =~= b);
        if b.len() > 0 {
            assert(s[1] == b[0]);
        }
    } else {
        assert(s[1] == run[1]);
        assert forall|i: int| 0 <= i < run.skip(1).len() implies #[trigger] run.skip(1)[i] == ' '
            || run.skip(1)[i] == '\t' by {
            assert(run.skip(1)[i] == run[i + 1]);
        }
        lemma_run_collapses(run.skip(1), b);
    }
}

/// A text without spaces and tabs stays as it is.
pub proof fn law_text_without_blanks_stays(s: Seq<char>)
    requires
        clean_laws::lacks(s, ' '),
        clean_laws::lacks(s, '\t'),
    ensures
        clean::blanks_collapsed(s) == s,
{
    let end = Seq::<char>::empty();
    lemma_blanks_pass(s, end);
    assert(s + end =~= s);
    assert(s + clean::blanks_collapsed(end) =~= s);
}

/// A run of spaces and tabs becomes one space. What stands before the first run
/// stays, and what follows the run goes on alike.
pub proof fn law_runs_become_one_space(a: Seq<char>, run: Seq<char>, b: Seq<char>)
    requires
        clean_laws::lacks(a, ' '),
        clean_laws::lacks(a, '\t'),
        is_run(run),
        run.len() > 0,
        b.len() > 0 ==> b[0] != ' ' && b[0] != '\t',
    ensures
        clean::blanks_collapsed(a + run + b) == a + seq![' '] + clean::blanks_collapsed(b),
{
    assert(a + run + b =~= a + (run + b));
    lemma_blanks_pass(a, run + b);
    lemma_run_collapses(run, b);
    assert(a + (seq![' '] + clean::blanks_collapsed(b)) =~= a + seq![' ']
        + clean::blanks_collapsed(b));
}

/// A tidy line is what stands between the white space at its ends, each run of
/// blanks in it written as one space.
pub proof fn law_tidy_lines_have_no_space_around(a: Seq<char>, core: Seq<char>, b: Seq<char>)
    requires
        text_laws::is_void(a),
        text_laws::is_void(b),
        core.len() > 0,
        !text::is_space(core[0]),
        !text::is_space(core.last()),
    ensures
        clean::tidy(a + core + b) == clean::blanks_collapsed(core),
{
    text_laws::law_trimming_takes_the_space_around(a, core, b);
}

// ---------------------------------------------------------------------------
// Lines
// ---------------------------------------------------------------------------

proof fn lemma_line_len_is(a: Seq<char>, b: Seq<char>)
    requires
        clean_laws::lacks(a, '\n'),
        b.len() > 0 ==> b[0] == '\n',
    ensures
        clean::line_len(a + b) == a.len(),
    decreases a.len(),
{
    if a.len() == 0 {
        assert(a + b =~= b);
    } else {
        let rest = a.skip(1);
        assert((a + b)[0] == a[0]);
        assert(a[0] != '\n');
        assert((a + b).skip(1) =~= rest + b);
        lemma_line_len_is(rest, b);
    }
}

/// A line ends at the first line feed; the lines of what follows are the others.
pub proof fn law_lines_end_at_line_feeds(line: Seq<char>, rest: Seq<char>)
    requires
        clean_laws::lacks(line, '\n'),
    ensures
        clean::lines(line + seq!['\n'] + rest) == seq![line] + clean::lines(rest),
{
    let tail = seq!['\n'] + rest;
    let s = line + seq!['\n'] + rest;
    let n = line.len() as int;
    assert(s =~= line + tail);
    assert(tail[0] == '\n');
    lemma_line_len_is(line, tail);
    assert(s.take(n) =~= line);
    assert(s.skip(n + 1) =~= rest);
}

/// A text without a line feed is one line, unless it is empty.
pub proof fn law_text_without_a_line_feed_is_one_line(s: Seq<char>)
    requires
        clean_laws::lacks(s, '\n'),
    ensures
        clean::lines(s) == if s.len() == 0 {
            Seq::empty()
        } else {
            seq![s]
        },
{
    let end = Seq::<char>::empty();
    assert(s + end =~= s);
    lemma_line_len_is(s, end);
}

// ---------------------------------------------------------------------------
// Page numbers
// ---------------------------------------------------------------------------

/// Of the ASCII characters, 0 to 9 are the decimal digits.
pub proof fn law_ascii_digits(c: char)
    requires
        (c as u32) < 128,
    ensures
        clean::is_digit(c) <==> '0' <= c <= '9',
{
    let zeros = clean::digit_zeros();
    assert(zeros[0] == 0x30);
    assert forall|i: int| 1 <= i < zeros.len() implies #[trigger] zeros[i] >= 0x660 by {}
}

/// Digits in a row, however many, are a page number, whatever white space stands
/// around them.
pub proof fn law_rows_of_digits_are_page_numbers(a: Seq<char>, row: Seq<char>, b: Seq<char>)
    requires
        text_laws::is_void(a),
        text_laws::is_void(b),
        row.len() > 0,
        forall|i: int| 0 <= i < row.len() ==> '0' <= #[trigger] row[i] <= '9',
    ensures
        clean::is_page_number(a + row + b),
{
    assert forall|i: int| 0 <= i < row.len() implies clean::is_digit(#[trigger] row[i])
        && !text::is_space(row[i]) by {
        law_ascii_digits(row[i]);
    }
    assert(!text::is_space(row[row.len() - 1]));
    assert(!text::is_space(row[0]));
    text_laws::law_trimming_takes_the_space_around(a, row, b);
}

/// A page number holds a digit, and nothing but digits and white space.
pub proof fn law_page_numbers_hold_digits_alone(s: Seq<char>)
    requires
        clean::is_page_number(s),
    ensures
        forall|i: int|
            0 <= i < s.len() ==> clean::is_digit(#[trigger] s[i]) || text::is_space(s[i]),
        !text_laws::is_void(s),
{
    let t = text::trimmed(s);
    text_laws::law_blank_text_trims_to_nothing(s);
    let (a, b) = lemma_space_around(s);
    assert forall|i: int| 0 <= i < s.len() implies clean::is_digit(#[trigger] s[i])
        || text::is_space(s[i]) by {
        if a <= i < b {
            assert(t[i - a] == s[i]);
        }
    }
}

proof fn lemma_space_around(s: Seq<char>) -> (r: (int, int))
    ensures
        0 <= r.0 <= r.1 <= s.len(),
        text::trimmed(s) == s.subrange(r.0, r.1),
        forall|i: int| 0 <= i < s.len() && !text::is_space(#[trigger] s[i]) ==> r.0 <= i < r.1,
    decreases s.len(),
{
    if s.len() == 0 {
        assert(s.subrange(0, 0) =~= s);
        (0, 0)
    } else if text::is_space(s[0]) {
        let rest = s.skip(1);
        let (a, b) = lemma_space_around(rest);
        assert(text::trimmed(s) == text::trimmed(rest));
        assert(rest.subrange(a, b) =~= s.subrange(a + 1, b + 1));
        assert forall|i: int| 0 <= i < s.len() && !text::is_space(#[trigger] s[i]) implies a + 1
            <= i < b + 1 by {
            assert(rest[i - 1] == s[i]);
        }
        (a + 1, b + 1)
    } else if text::is_space(s.last()) {
        let front = s.drop_last();
        let (a, b) = lemma_space_around(front);
        assert(front[0] == s[0]);
        assert(text::trimmed(s) == text::trimmed(front));
        assert(front.subrange(a, b) =~= s.subrange(a, b));
        assert forall|i: int| 0 <= i < s.len() && !text::is_space(#[trigger] s[i]) implies a <= i
            < b by {
            assert(i < s.len() - 1);
            assert(front[i] == s[i]);
        }
        (a, b)
    } else {
        let n = s.len() as int;
        assert(s.subrange(0, n) =~= s);
        (0, n)
    }
}

/// A line is a page number before it is made tidy exactly where it is one after.
pub proof fn law_tidying_keeps_page_numbers(line: Seq<char>)
    ensures
        clean::is_page_number(clean::tidy(line)) <==> clean::is_page_number(line),
        clean::tidy(line).len() == 0 <==> text_laws::is_void(line),
{
    let t = text::trimmed(line);
    let u = clean::tidy(line);
    text::lemma_trimmed_is_tight(line);
    text_laws::law_blank_text_trims_to_nothing(line);
    if clean_laws::lacks(t, ' ') && clean_laws::lacks(t, '\t') {
        law_text_without_blanks_stays(t);
        text::lemma_tight_is_trimmed(t);
    } else {
        let k = choose|k: int| 0 <= k < t.len() && (#[trigger] t[k] == ' ' || t[k] == '\t');
        lemma_collapsed_holds_a_space(t, k);
        law_ascii_digits(' ');
        law_ascii_digits('\t');
        assert(!clean::is_page_number(line));
        let j = choose|j: int| 0 <= j < u.len() && #[trigger] u[j] == ' ';
        if clean::is_page_number(u) {
            clean_laws::lemma_tidy_is_tight(line);
            text::lemma_tight_is_trimmed(u);
        }
    }
}

proof fn lemma_collapsed_holds_a_space(s: Seq<char>, k: int)
    requires
        0 <= k < s.len(),
        s[k] == ' ' || s[k] == '\t',
    ensures
        exists|j: int|
            0 <= j < clean::blanks_collapsed(s).len() && #[trigger] clean::blanks_collapsed(s)[j]
                == ' ',
    decreases s.len(),
{
    let rest = s.skip(1);
    let u = clean::blanks_collapsed(s);
    if clean::is_blank(s[0]) && s.len() > 1 && clean::is_blank(s[1]) {
        assert(rest[0] == s[1]);
        lemma_collapsed_holds_a_space(rest, 0);
    } else if clean::is_blank(s[0]) {
        assert(u[0] == ' ');
    } else {
        assert(rest[k - 1] == s[k]);
        lemma_collapsed_holds_a_space(rest, k - 1);
        let more = clean::blanks_collapsed(rest);
        let j = choose|j: int| 0 <= j < more.len() && #[trigger] more[j] == ' ';
        assert(u[j + 1] == more[j]);
    }
}

} // verus!
