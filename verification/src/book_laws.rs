//! What holds of the chunks of every paper and of the order in which they are
//! spoken.

use vstd::prelude::*;

use crate::book;
use crate::chunk;
use crate::chunk_laws;
use crate::clean;
use crate::clean_laws;
use crate::text;
use crate::word_laws;

verus! {

/// The texts of a list of chunks.
pub open spec fn texts_of(list: Seq<book::PageText>) -> Seq<Seq<char>> {
    list.map_values(|c: book::PageText| c.text)
}

// ---------------------------------------------------------------------------
// Pages
// ---------------------------------------------------------------------------

/// The chunks of a paper hold the words of its pages, all of them and in
/// order, and no others.
pub proof fn law_book_keeps_every_word(pages: Seq<Seq<char>>, max: nat)
    requires
        max > 0,
    ensures
        text::words_of_all(texts_of(book::book_chunks(pages, max))) == text::words_of_all(pages),
    decreases pages.len(),
{
    let all = book::book_chunks(pages, max);
    if pages.len() == 0 {
        assert(texts_of(all) =~= pages);
    } else {
        let before = book::book_chunks(pages.drop_last(), max);
        let texts = chunk::chunks_of(pages.last(), max);
        let last = book::on_page(texts, pages.len() as int);
        law_book_keeps_every_word(pages.drop_last(), max);
        chunk_laws::law_chunks_keep_every_word(pages.last(), max);
        assert(texts_of(last) =~= texts);
        assert(texts_of(all) =~= texts_of(before) + texts);
        text::lemma_words_of_all_append(texts_of(before), texts);
    }
}

/// Every chunk names the page from which it comes, and the pages of the chunks
/// never go back.
pub proof fn law_chunks_follow_the_pages(pages: Seq<Seq<char>>, max: nat, i: int, j: int)
    requires
        0 <= i <= j < book::book_chunks(pages, max).len(),
    ensures
        1 <= book::book_chunks(pages, max)[i].page_number <= pages.len(),
        chunk::chunks_of(
            pages[book::book_chunks(pages, max)[i].page_number - 1],
            max,
        ).contains(book::book_chunks(pages, max)[i].text),
        book::book_chunks(pages, max)[i].page_number <= book::book_chunks(pages, max)[j].page_number,
    decreases pages.len(),
{
    let all = book::book_chunks(pages, max);
    let head = pages.drop_last();
    let before = book::book_chunks(head, max);
    let texts = chunk::chunks_of(pages.last(), max);
    if j < before.len() {
        law_chunks_follow_the_pages(head, max, i, j);
        assert(all[i] == before[i] && all[j] == before[j]);
        assert(pages[before[i].page_number - 1] == head[before[i].page_number - 1]);
    } else {
        assert(all[j].page_number == pages.len());
        if i < before.len() {
            law_chunks_follow_the_pages(head, max, i, i);
            assert(all[i] == before[i]);
            assert(pages[before[i].page_number - 1] == head[before[i].page_number - 1]);
        } else {
            assert(all[i].text == texts[i - before.len()]);
        }
    }
}

/// No chunk of a paper is longer than the limit, except a single word that is
/// longer by itself. None is empty.
pub proof fn law_book_chunks_keep_to_the_limit(pages: Seq<Seq<char>>, max: nat, i: int)
    requires
        0 <= i < book::book_chunks(pages, max).len(),
    ensures
        book::book_chunks(pages, max)[i].text.len() > 0,
        book::book_chunks(pages, max)[i].text.len() <= max || text::words(
            book::book_chunks(pages, max)[i].text,
        ) == seq![book::book_chunks(pages, max)[i].text],
{
    law_chunks_follow_the_pages(pages, max, i, i);
    let found = book::book_chunks(pages, max)[i];
    let page = pages[found.page_number - 1];
    let texts = chunk::chunks_of(page, max);
    let k = choose|k: int| 0 <= k < texts.len() && texts[k] == found.text;
    chunk_laws::law_chunks_hold_text(page, max, k);
    chunk_laws::law_chunks_keep_to_the_limit(page, max, k);
}

/// A page that is short enough once it is cleaned is spoken in one piece, as it
/// stands.
pub proof fn law_short_page_is_one_chunk(raw: Seq<char>, max: nat)
    requires
        0 < clean::cleaned(raw).len() <= max,
    ensures
        chunk::chunks_of(clean::cleaned(raw), max) == seq![clean::cleaned(raw)],
{
    clean_laws::law_cleaning_keeps_paragraphs(raw);
    chunk_laws::law_short_text_is_one_chunk(clean::cleaned(raw), max);
}

/// There is nothing to speak exactly where no page holds a word.
pub proof fn law_nothing_to_speak_without_words(pages: Seq<Seq<char>>, max: nat)
    requires
        max > 0,
    ensures
        book::book_chunks(pages, max).len() == 0 <==> text::words_of_all(pages).len() == 0,
{
    let all = book::book_chunks(pages, max);
    law_book_keeps_every_word(pages, max);
    if all.len() == 0 {
        assert(texts_of(all).len() == 0);
    } else {
        let last = all.last();
        let texts = texts_of(all);
        law_book_chunks_keep_to_the_limit(pages, max, all.len() - 1);
        law_chunks_follow_the_pages(pages, max, all.len() - 1, all.len() - 1);
        let page = pages[last.page_number - 1];
        let parts = chunk::chunks_of(page, max);
        let k = choose|k: int| 0 <= k < parts.len() && parts[k] == last.text;
        chunk_laws::law_chunks_hold_text(page, max, k);
        text::lemma_trimmed_is_tight(last.text);
        assert(texts.last() == last.text);
        text::lemma_word_len(last.text);
        assert(text::words(last.text).len() > 0);
    }
}

proof fn lemma_pages_with_text(pages: Seq<Seq<char>>)
    ensures
        text::words_of_all(book::pages_with_text(pages)) == text::words_of_all(pages),
    decreases pages.len(),
{
    reveal(Seq::filter);
    if pages.len() > 0 {
        let front = pages.drop_last();
        let last = pages.last();
        lemma_pages_with_text(front);
        if text::trimmed(last).len() > 0 {
            assert(book::pages_with_text(pages) =~= book::pages_with_text(front).push(last));
            assert(book::pages_with_text(pages).drop_last() =~= book::pages_with_text(front));
        } else {
            assert(book::pages_with_text(pages) =~= book::pages_with_text(front));
            text::lemma_words_of_trimmed(last);
            assert(text::words(text::trimmed(last)) =~= Seq::<Seq<char>>::empty());
            assert(text::words_of_all(pages) =~= text::words_of_all(front));
        }
    }
}

/// The cleaned text of a paper holds the words that are spoken, in the order in
/// which they stand in the chunks.
pub proof fn law_cleaned_text_is_what_is_spoken(pages: Seq<Seq<char>>, max: nat)
    requires
        max > 0,
    ensures
        text::words(clean::joined(book::pages_with_text(pages), "\n\n"@)) == text::words_of_all(
            texts_of(book::book_chunks(pages, max)),
        ),
{
    reveal_strlit("\n\n");
    assert("\n\n"@ =~= seq!['\n', '\n']);
    word_laws::lemma_joining_keeps_words(book::pages_with_text(pages));
    lemma_pages_with_text(pages);
    law_book_keeps_every_word(pages, max);
}

// ---------------------------------------------------------------------------
// Order
// ---------------------------------------------------------------------------

proof fn lemma_positions(chunks: Seq<book::PageText>, n: nat, test: spec_fn(int) -> bool)
    requires
        n <= chunks.len() <= usize::MAX,
    ensures
        forall|a: int|
            0 <= a < book::positions(chunks, n, test).len() ==> (#[trigger] book::positions(
                chunks,
                n,
                test,
            )[a]) < n && test(chunks[book::positions(chunks, n, test)[a] as int].page_number),
        forall|a: int, b: int|
            0 <= a < b < book::positions(chunks, n, test).len() ==> (#[trigger] book::positions(
                chunks,
                n,
                test,
            )[a]) < (#[trigger] book::positions(chunks, n, test)[b]),
    decreases n,
{
    if n > 0 {
        let m = (n - 1) as nat;
        lemma_positions(chunks, m, test);
        let before = book::positions(chunks, m, test);
        let here = book::positions(chunks, n, test);
        assert forall|a: int| 0 <= a < here.len() implies (#[trigger] here[a]) < n && test(
            chunks[here[a] as int].page_number,
        ) by {
            if a < before.len() {
                assert(here[a] == before[a]);
            }
        }
        assert forall|a: int, b: int| 0 <= a < b < here.len() implies (#[trigger] here[a])
            < #[trigger] here[b] by {
            assert(here[a] == before[a]);
            if b < before.len() {
                assert(here[b] == before[b]);
            }
        }
    }
}

proof fn lemma_positions_are_complete(
    chunks: Seq<book::PageText>,
    n: nat,
    test: spec_fn(int) -> bool,
    i: int,
)
    requires
        n <= chunks.len() <= usize::MAX,
        0 <= i < n,
        test(chunks[i].page_number),
    ensures
        book::positions(chunks, n, test).contains(i as usize),
    decreases n,
{
    let m = (n - 1) as nat;
    let before = book::positions(chunks, m, test);
    let here = book::positions(chunks, n, test);
    if i == n - 1 {
        assert(here[here.len() - 1] == i as usize);
    } else {
        lemma_positions_are_complete(chunks, m, test, i);
        let a = choose|a: int| 0 <= a < before.len() && before[a] == i as usize;
        assert(here[a] == i as usize);
    }
}

proof fn lemma_positions_split(chunks: Seq<book::PageText>, n: nat, limit: int)
    requires
        n <= chunks.len(),
    ensures
        book::positions(chunks, n, |page: int| page <= limit).len() + book::positions(
            chunks,
            n,
            |page: int| page > limit,
        ).len() == n,
    decreases n,
{
    if n > 0 {
        lemma_positions_split(chunks, (n - 1) as nat, limit);
    }
}

/// Every chunk is spoken, and none is spoken twice.
pub proof fn law_every_chunk_is_spoken_once(chunks: Seq<book::PageText>, priority_pages: int)
    requires
        chunks.len() <= usize::MAX,
    ensures
        book::work_order(chunks, priority_pages).len() == chunks.len(),
        book::work_order(chunks, priority_pages).no_duplicates(),
        forall|a: int|
            0 <= a < chunks.len() ==> (#[trigger] book::work_order(chunks, priority_pages)[a])
                < chunks.len(),
        forall|i: int|
            0 <= i < chunks.len() ==> #[trigger] book::work_order(chunks, priority_pages).contains(
                i as usize,
            ),
{
    let n = chunks.len();
    let order = book::work_order(chunks, priority_pages);
    if priority_pages == 0 {
        assert forall|i: int| 0 <= i < n implies #[trigger] order.contains(i as usize) by {
            assert(order[i] == i as usize);
        }
    } else {
        let is_first = |page: int| page <= priority_pages;
        let is_later = |page: int| page > priority_pages;
        let first = book::positions(chunks, n, is_first);
        let later = book::positions(chunks, n, is_later);
        let k = first.len() as int;
        lemma_positions(chunks, n, is_first);
        lemma_positions(chunks, n, is_later);
        lemma_positions_split(chunks, n, priority_pages);
        assert(order == first + later);
        assert forall|a: int| 0 <= a < n implies (#[trigger] order[a]) < n by {
            if a < k {
                assert(order[a] == first[a]);
            } else {
                assert(order[a] == later[a - k]);
            }
        }
        assert forall|a: int, b: int| 0 <= a < order.len() && 0 <= b < order.len() && a
            != b implies order[a] != order[b] by {
            let (x, y) = if a < b {
                (a, b)
            } else {
                (b, a)
            };
            if y < k {
                assert(order[x] == first[x] && order[y] == first[y]);
            } else if x >= k {
                assert(order[x] == later[x - k] && order[y] == later[y - k]);
            } else {
                assert(order[x] == first[x] && order[y] == later[y - k]);
                assert(is_first(chunks[first[x] as int].page_number));
                assert(is_later(chunks[later[y - k] as int].page_number));
            }
        }
        assert forall|i: int| 0 <= i < n implies #[trigger] order.contains(i as usize) by {
            if is_first(chunks[i].page_number) {
                lemma_positions_are_complete(chunks, n, is_first, i);
                let a = choose|a: int| 0 <= a < first.len() && first[a] == i as usize;
                assert(order[a] == i as usize);
            } else {
                lemma_positions_are_complete(chunks, n, is_later, i);
                let a = choose|a: int| 0 <= a < later.len() && later[a] == i as usize;
                assert(order[k + a] == i as usize);
            }
        }
    }
}

/// Of two chunks, the one that is spoken first stands first in the text,
/// unless it alone stands on a priority page.
pub proof fn law_priority_pages_come_first(
    chunks: Seq<book::PageText>,
    priority_pages: int,
    a: int,
    b: int,
)
    requires
        chunks.len() <= usize::MAX,
        0 <= a < b < chunks.len(),
    ensures
        ({
            let x = book::work_order(chunks, priority_pages)[a];
            let y = book::work_order(chunks, priority_pages)[b];
            x < y || (priority_pages != 0 && chunks[x as int].page_number <= priority_pages
                < chunks[y as int].page_number)
        }),
        priority_pages != 0 && chunks[book::work_order(
            chunks,
            priority_pages,
        )[b] as int].page_number <= priority_pages ==> chunks[book::work_order(
            chunks,
            priority_pages,
        )[a] as int].page_number <= priority_pages,
{
    let n = chunks.len();
    let order = book::work_order(chunks, priority_pages);
    if priority_pages != 0 {
        let is_first = |page: int| page <= priority_pages;
        let is_later = |page: int| page > priority_pages;
        let first = book::positions(chunks, n, is_first);
        let later = book::positions(chunks, n, is_later);
        let k = first.len() as int;
        lemma_positions(chunks, n, is_first);
        lemma_positions(chunks, n, is_later);
        lemma_positions_split(chunks, n, priority_pages);
        if b < k {
            assert(order[a] == first[a] && order[b] == first[b]);
            assert(is_first(chunks[first[a] as int].page_number));
        } else if a >= k {
            assert(order[a] == later[a - k] && order[b] == later[b - k]);
            assert(is_later(chunks[later[b - k] as int].page_number));
        } else {
            assert(order[a] == first[a] && order[b] == later[b - k]);
            assert(is_first(chunks[first[a] as int].page_number));
            assert(is_later(chunks[later[b - k] as int].page_number));
        }
    }
}

} // verus!
