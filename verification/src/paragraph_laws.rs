//! Which lines of a raw text make up its paragraphs.

use vstd::prelude::*;

use crate::clean;
use crate::clean_laws;
use crate::step_laws;
use crate::text_laws;

verus! {

/// The lines that are spoken, each made tidy: all but the page numbers.
pub open spec fn spoken_lines(list: Seq<Seq<char>>) -> Seq<Seq<char>>
    decreases list.len(),
{
    if list.len() == 0 {
        Seq::empty()
    } else if clean::is_page_number(list[0]) {
        spoken_lines(list.skip(1))
    } else {
        seq![clean::tidy(list[0])] + spoken_lines(list.skip(1))
    }
}

/// No line of the list is blank.
pub open spec fn has_no_gap(list: Seq<Seq<char>>) -> bool {
    forall|i: int| 0 <= i < list.len() ==> !text_laws::is_void(#[trigger] list[i])
}

proof fn lemma_no_gap_behind(list: Seq<Seq<char>>)
    requires
        has_no_gap(list),
        list.len() > 0,
    ensures
        has_no_gap(list.skip(1)),
{
    let rest = list.skip(1);
    assert forall|i: int| 0 <= i < rest.len() implies !text_laws::is_void(#[trigger] rest[i]) by {
        assert(rest[i] == list[i + 1]);
    }
}

proof fn lemma_one_paragraph(before: Seq<Seq<char>>, list: Seq<Seq<char>>)
    requires
        has_no_gap(list),
        before.len() > 0 ==> clean::joined(before, seq![' ']).len() > 0,
    ensures
        clean::paragraphs_from(clean::joined(before, seq![' ']), list) == ({
            let all = before + spoken_lines(list);
            if all.len() == 0 {
                Seq::empty()
            } else {
                seq![clean::joined(all, seq![' '])]
            }
        }),
    decreases list.len(),
{
    let begun = clean::joined(before, seq![' ']);
    if list.len() == 0 {
        assert(before + spoken_lines(list) =~= before);
    } else {
        let rest = list.skip(1);
        let line = clean::tidy(list[0]);
        lemma_no_gap_behind(list);
        step_laws::law_tidying_keeps_page_numbers(list[0]);
        assert(!text_laws::is_void(list[0]));
        if clean::is_page_number(list[0]) {
            lemma_one_paragraph(before, rest);
        } else {
            let more = before.push(line);
            assert(more.drop_last() =~= before);
            assert(clean::joined(more, seq![' ']) =~= clean::continued(begun, line));
            lemma_one_paragraph(more, rest);
            assert(more + spoken_lines(rest) =~= before + spoken_lines(list));
        }
    }
}

/// Lines with no blank line among them make one paragraph: the lines that are no
/// page numbers, each made tidy, with a space between each two. They make none
/// where all of them are page numbers.
pub proof fn law_lines_without_a_gap_make_one_paragraph(list: Seq<Seq<char>>)
    requires
        has_no_gap(list),
    ensures
        clean::paragraphs_from(Seq::empty(), list) == if spoken_lines(list).len() == 0 {
            Seq::empty()
        } else {
            seq![clean::joined(spoken_lines(list), seq![' '])]
        },
{
    let none = Seq::<Seq<char>>::empty();
    lemma_one_paragraph(none, list);
    assert(none + spoken_lines(list) =~= spoken_lines(list));
    assert(clean::joined(none, seq![' ']) =~= Seq::<char>::empty());
}

/// Lines none of which is blank or a page number, however many and however long,
/// make exactly one paragraph: all of them, each made tidy, with a space between
/// each two.
pub proof fn law_wrapped_lines_make_one_paragraph(list: Seq<Seq<char>>)
    requires
        list.len() > 0,
        has_no_gap(list),
        forall|i: int| 0 <= i < list.len() ==> !clean::is_page_number(#[trigger] list[i]),
    ensures
        clean::paragraphs_from(Seq::empty(), list) == seq![
            clean::joined(list.map_values(|line: Seq<char>| clean::tidy(line)), seq![' ']),
        ],
{
    law_lines_without_a_gap_make_one_paragraph(list);
    lemma_all_are_spoken(list);
}

proof fn lemma_all_are_spoken(list: Seq<Seq<char>>)
    requires
        forall|i: int| 0 <= i < list.len() ==> !clean::is_page_number(#[trigger] list[i]),
    ensures
        spoken_lines(list) == list.map_values(|line: Seq<char>| clean::tidy(line)),
    decreases list.len(),
{
    let all = list.map_values(|line: Seq<char>| clean::tidy(line));
    if list.len() == 0 {
        assert(spoken_lines(list) =~= all);
    } else {
        let rest = list.skip(1);
        assert forall|i: int| 0 <= i < rest.len() implies !clean::is_page_number(
            #[trigger] rest[i],
        ) by {
            assert(rest[i] == list[i + 1]);
        }
        lemma_all_are_spoken(rest);
        assert(!clean::is_page_number(list[0]));
        assert(spoken_lines(list) =~= all);
    }
}

/// A blank line ends a paragraph: the paragraphs of the lines before it and those
/// of the lines behind it are the paragraphs of all.
pub proof fn law_blank_lines_end_paragraphs(
    begun: Seq<char>,
    a: Seq<Seq<char>>,
    gap: Seq<char>,
    b: Seq<Seq<char>>,
)
    requires
        text_laws::is_void(gap),
    ensures
        clean::paragraphs_from(begun, a + seq![gap] + b) == clean::paragraphs_from(begun, a)
            + clean::paragraphs_from(Seq::empty(), b),
    decreases a.len(),
{
    let all = a + seq![gap] + b;
    if a.len() == 0 {
        assert(all[0] == gap);
        assert(all.skip(1) =~= b);
        step_laws::law_tidying_keeps_page_numbers(gap);
    } else {
        let rest = a.skip(1);
        assert(all[0] == a[0]);
        assert(all.skip(1) =~= rest + seq![gap] + b);
        let line = clean::tidy(a[0]);
        let last = clean::paragraphs_from(Seq::empty(), b);
        law_blank_lines_end_paragraphs(Seq::empty(), rest, gap, b);
        law_blank_lines_end_paragraphs(begun, rest, gap, b);
        law_blank_lines_end_paragraphs(clean::continued(begun, line), rest, gap, b);
        let first = clean::unless_empty(begun);
        let middle = clean::paragraphs_from(Seq::empty(), rest);
        assert(first + (middle + last) =~= first + middle + last);
    }
}

/// A page number among the lines of a text changes nothing.
pub proof fn law_page_numbers_are_passed_over(
    begun: Seq<char>,
    a: Seq<Seq<char>>,
    number: Seq<char>,
    b: Seq<Seq<char>>,
)
    requires
        clean::is_page_number(number),
    ensures
        clean::paragraphs_from(begun, a + seq![number] + b) == clean::paragraphs_from(begun, a + b),
    decreases a.len(),
{
    let all = a + seq![number] + b;
    if a.len() == 0 {
        assert(all[0] == number);
        assert(all.skip(1) =~= b);
        assert(a + b =~= b);
        step_laws::law_tidying_keeps_page_numbers(number);
        step_laws::law_page_numbers_hold_digits_alone(number);
    } else {
        let rest = a.skip(1);
        let line = clean::tidy(a[0]);
        assert(all[0] == a[0] && (a + b)[0] == a[0]);
        assert(all.skip(1) =~= rest + seq![number] + b);
        assert((a + b).skip(1) =~= rest + b);
        law_page_numbers_are_passed_over(Seq::empty(), rest, number, b);
        law_page_numbers_are_passed_over(begun, rest, number, b);
        law_page_numbers_are_passed_over(clean::continued(begun, line), rest, number, b);
    }
}

/// Lines with line feeds between them are read back as those lines.
pub proof fn law_lines_are_read_back(list: Seq<Seq<char>>)
    requires
        forall|i: int| 0 <= i < list.len() ==> clean_laws::lacks(#[trigger] list[i], '\n'),
        list.len() > 0 ==> list.last().len() > 0,
    ensures
        clean::lines(clean::joined(list, seq!['\n'])) == list,
    decreases list.len(),
{
    let s = clean::joined(list, seq!['\n']);
    if list.len() == 0 {
        assert(clean::lines(s) =~= list);
    } else if list.len() == 1 {
        assert(clean_laws::lacks(list[0], '\n'));
        step_laws::law_text_without_a_line_feed_is_one_line(list[0]);
        assert(seq![list[0]] =~= list);
    } else {
        let rest = list.skip(1);
        assert forall|i: int| 0 <= i < rest.len() implies clean_laws::lacks(
            #[trigger] rest[i],
            '\n',
        ) by {
            assert(rest[i] == list[i + 1]);
        }
        assert(clean_laws::lacks(list[0], '\n'));
        clean_laws::lemma_joined_front(list, seq!['\n']);
        step_laws::law_lines_end_at_line_feeds(list[0], clean::joined(rest, seq!['\n']));
        law_lines_are_read_back(rest);
        assert(seq![list[0]] + rest =~= list);
    }
}

/// A raw text of such lines, without carriage returns and without a word broken
/// at a line end, cleans to one paragraph: its lines, each made tidy, with a
/// space between each two.
pub proof fn law_wrapped_text_cleans_to_one_paragraph(list: Seq<Seq<char>>)
    requires
        list.len() > 0,
        has_no_gap(list),
        forall|i: int| 0 <= i < list.len() ==> !clean::is_page_number(#[trigger] list[i]),
        forall|i: int| 0 <= i < list.len() ==> clean_laws::lacks(#[trigger] list[i], '\n'),
        clean_laws::lacks(clean::joined(list, seq!['\n']), '\r'),
        forall|i: int|
            !#[trigger] step_laws::is_broken_at(clean::joined(list, seq!['\n']), i),
    ensures
        clean::cleaned(clean::joined(list, seq!['\n'])) == clean::joined(
            list.map_values(|line: Seq<char>| clean::tidy(line)),
            seq![' '],
        ),
{
    let raw = clean::joined(list, seq!['\n']);
    assert(!text_laws::is_void(list[list.len() - 1]));
    step_laws::law_text_without_returns_stays(raw);
    step_laws::law_whole_words_stay(raw);
    law_lines_are_read_back(list);
    law_wrapped_lines_make_one_paragraph(list);
}

// ---------------------------------------------------------------------------
// Raw texts with a blank line between them
// ---------------------------------------------------------------------------

proof fn lemma_unix_lines_append(a: Seq<char>, b: Seq<char>)
    requires
        a.len() > 0 ==> a.last() != '\r',
    ensures
        clean::unix_lines(a + b) == clean::unix_lines(a) + clean::unix_lines(b),
        a.len() > 0 ==> clean::unix_lines(a).len() > 0 && clean::unix_lines(a).last() == a.last(),
    decreases a.len(),
{
    let all = a + b;
    let last = clean::unix_lines(b);
    if a.len() == 0 {
        assert(all =~= b);
        assert(clean::unix_lines(a) + last =~= last);
    } else {
        assert(all[0] == a[0]);
        if a.len() > 1 {
            assert(all[1] == a[1]);
        }
        let n: int = if a[0] == '\r' && a.len() > 1 && a[1] == '\n' {
            2
        } else {
            1
        };
        let c = if a[0] == '\r' {
            '\n'
        } else {
            a[0]
        };
        let rest = a.skip(n);
        assert(all.skip(n) =~= rest + b);
        lemma_unix_lines_append(rest, b);
        assert(clean::unix_lines(a) =~= seq![c] + clean::unix_lines(rest));
        assert(clean::unix_lines(all) =~= clean::unix_lines(a) + last);
        if rest.len() == 0 {
            assert(clean::unix_lines(rest) =~= Seq::<char>::empty());
        }
    }
}

proof fn lemma_hyphens_append(a: Seq<char>, b: Seq<char>)
    requires
        b.len() >= 2,
        b[0] == '\n',
        b[1] == '\n',
    ensures
        clean::hyphens_joined(a + b) == clean::hyphens_joined(a) + clean::hyphens_joined(b),
        a.len() > 0 ==> clean::hyphens_joined(a).len() > 0 && clean::hyphens_joined(a).last()
            == a.last(),
    decreases a.len(),
{
    let all = a + b;
    let last = clean::hyphens_joined(b);
    if a.len() == 0 {
        assert(all =~= b);
        assert(clean::hyphens_joined(a) + last =~= last);
    } else {
        assert(all[0] == a[0]);
        let k = a.len() as int;
        assert(all[k] == '\n' && all[k + 1] == '\n');
        assert(clean::starts_broken(all) == clean::starts_broken(a));
        let n: int = if clean::starts_broken(a) {
            4
        } else {
            1
        };
        let rest = a.skip(n);
        assert(all.skip(n) =~= rest + b);
        lemma_hyphens_append(rest, b);
        assert(clean::hyphens_joined(all) =~= clean::hyphens_joined(a) + last);
        if rest.len() == 0 {
            assert(clean::hyphens_joined(rest) =~= Seq::<char>::empty());
        }
    }
}

proof fn lemma_lines_append(a: Seq<char>, b: Seq<char>)
    requires
        a.len() > 0,
        a.last() != '\n',
    ensures
        clean::lines(a + seq!['\n'] + b) == clean::lines(a) + clean::lines(b),
    decreases a.len(),
{
    let all = a + seq!['\n'] + b;
    let n = clean::line_len(a) as int;
    clean_laws::lemma_line_len(a);
    let line = a.take(n);
    if n == a.len() {
        assert(line =~= a);
        step_laws::law_lines_end_at_line_feeds(a, b);
    } else {
        let rest = a.skip(n + 1);
        let tail = rest + seq!['\n'] + b;
        assert(a =~= line + seq!['\n'] + rest);
        assert(all =~= line + seq!['\n'] + tail);
        step_laws::law_lines_end_at_line_feeds(line, tail);
        lemma_lines_append(rest, b);
        assert(seq![line] + (clean::lines(rest) + clean::lines(b)) =~= clean::lines(a)
            + clean::lines(b));
    }
}

/// A blank line in a raw text parts it: the paragraphs of what stands before it
/// and those of what stands behind it are the paragraphs of the whole.
pub proof fn law_blank_lines_part_raw_text(a: Seq<char>, b: Seq<char>)
    requires
        a.len() > 0,
        a.last() != '\n',
        a.last() != '\r',
    ensures
        clean::clean_paragraphs(a + seq!['\n', '\n'] + b) == clean::clean_paragraphs(a)
            + clean::clean_paragraphs(b),
{
    let gap = seq!['\n', '\n'];
    let raw = a + gap + b;
    let ua = clean::unix_lines(a);
    let ub = clean::unix_lines(b);
    lemma_unix_lines_append(a, gap + b);
    assert(raw =~= a + (gap + b));
    lemma_unix_lines_append(gap, b);
    step_laws::law_text_without_returns_stays(gap);
    assert(clean::unix_lines(raw) =~= ua + (gap + ub));
    let ha = clean::hyphens_joined(ua);
    let hb = clean::hyphens_joined(ub);
    let tail = gap + ub;
    lemma_hyphens_append(ua, tail);
    assert(tail.skip(1) =~= seq!['\n'] + ub);
    assert(tail.skip(1).skip(1) =~= ub);
    assert(!clean::starts_broken(tail));
    assert(!clean::starts_broken(tail.skip(1)));
    assert(clean::hyphens_joined(tail.skip(1)) == seq!['\n'] + hb);
    assert(clean::hyphens_joined(tail) == seq!['\n'] + (seq!['\n'] + hb));
    assert(seq!['\n'] + (seq!['\n'] + hb) =~= gap + hb);
    let flat = ha + (gap + hb);
    assert(flat =~= ha + seq!['\n'] + (seq!['\n'] + hb));
    lemma_lines_append(ha, seq!['\n'] + hb);
    let empty = Seq::<char>::empty();
    step_laws::law_lines_end_at_line_feeds(empty, hb);
    assert(empty + seq!['\n'] + hb =~= seq!['\n'] + hb);
    assert(clean::lines(flat) =~= clean::lines(ha) + seq![empty] + clean::lines(hb));
    law_blank_lines_end_paragraphs(empty, clean::lines(ha), empty, clean::lines(hb));
}

/// Two raw texts with a blank line between them, each of which holds something
/// to speak, clean to what each of them cleans to, with a blank line between.
pub proof fn law_blank_lines_stay_between_paragraphs(a: Seq<char>, b: Seq<char>)
    requires
        a.len() > 0,
        a.last() != '\n',
        a.last() != '\r',
        clean::cleaned(a).len() > 0,
        clean::cleaned(b).len() > 0,
    ensures
        clean::cleaned(a + seq!['\n', '\n'] + b) == clean::cleaned(a) + seq!['\n', '\n']
            + clean::cleaned(b),
{
    law_blank_lines_part_raw_text(a, b);
    text_laws::law_joined_lists_are_joined(
        clean::clean_paragraphs(a),
        clean::clean_paragraphs(b),
        seq!['\n', '\n'],
    );
}

} // verus!
