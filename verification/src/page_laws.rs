//! What becomes of each page and of each chunk.

use vstd::prelude::*;

use crate::book;
use crate::chunk;
use crate::clean;
use crate::clean_laws;
use crate::mode::ModeSettings;
use crate::paths;
use crate::prepare;
use crate::text;
use crate::text_laws;
use crate::tts;

verus! {

/// The characters of the pages of two lists are those of the one and those of the
/// other.
pub proof fn law_characters_of_all_pages_count(a: Seq<Seq<char>>, b: Seq<Seq<char>>)
    ensures
        book::text_total(a + b) == book::text_total(a) + book::text_total(b),
    decreases b.len(),
{
    if b.len() == 0 {
        assert(a + b =~= a);
    } else {
        assert((a + b).drop_last() =~= a + b.drop_last());
        law_characters_of_all_pages_count(a, b.drop_last());
    }
}

/// Of a single page the characters count that trimming leaves.
pub proof fn law_characters_of_a_page_count(page: Seq<char>)
    ensures
        book::text_total(seq![page]) == text::trimmed(page).len(),
{
    let one = seq![page];
    assert(one.drop_last() =~= Seq::<Seq<char>>::empty());
    assert(book::text_total(one.drop_last()) == 0);
}

/// Every page is cleaned by itself, and stays in its place.
pub proof fn law_every_page_is_cleaned(pages: Seq<Seq<char>>)
    ensures
        book::pages_cleaned(pages).len() == pages.len(),
        forall|i: int|
            0 <= i < pages.len() ==> (#[trigger] book::pages_cleaned(pages)[i]) == clean::cleaned(
                pages[i],
            ),
{
}

/// The pages with text of two lists are those of the one and then those of the
/// other. A page that is alone is left out exactly where it is blank.
pub proof fn law_only_blank_pages_are_left_out(
    a: Seq<Seq<char>>,
    b: Seq<Seq<char>>,
    page: Seq<char>,
)
    ensures
        book::pages_with_text(a + b) == book::pages_with_text(a) + book::pages_with_text(b),
        book::pages_with_text(seq![page]) == if text::trimmed(page).len() > 0 {
            seq![page]
        } else {
            Seq::empty()
        },
{
    let test = |page: Seq<char>| text::trimmed(page).len() > 0;
    Seq::filter_distributes_over_add(a, b, test);
    let one = seq![page];
    reveal(Seq::filter);
    assert(one.drop_last() =~= Seq::<Seq<char>>::empty());
    assert(one.drop_last().filter(test) =~= Seq::<Seq<char>>::empty());
    assert(book::pages_with_text(one) =~= if text::trimmed(page).len() > 0 {
        seq![page]
    } else {
        Seq::empty()
    });
}

/// The texts that stand on the page, in order.
pub open spec fn texts_on(list: Seq<book::PageText>, page_number: int) -> Seq<Seq<char>>
    decreases list.len(),
{
    if list.len() == 0 {
        Seq::empty()
    } else if list.last().page_number == page_number {
        texts_on(list.drop_last(), page_number).push(list.last().text)
    } else {
        texts_on(list.drop_last(), page_number)
    }
}

proof fn lemma_texts_on_append(a: Seq<book::PageText>, b: Seq<book::PageText>, page_number: int)
    ensures
        texts_on(a + b, page_number) == texts_on(a, page_number) + texts_on(b, page_number),
    decreases b.len(),
{
    if b.len() == 0 {
        assert(a + b =~= a);
        assert(texts_on(a, page_number) + texts_on(b, page_number) =~= texts_on(a, page_number));
    } else {
        assert((a + b).drop_last() =~= a + b.drop_last());
        lemma_texts_on_append(a, b.drop_last(), page_number);
        assert(texts_on(a + b, page_number) =~= texts_on(a, page_number) + texts_on(b, page_number));
    }
}

proof fn lemma_texts_on_one_page(texts: Seq<Seq<char>>, here: int, page_number: int)
    ensures
        texts_on(book::on_page(texts, here), page_number) == if here == page_number {
            texts
        } else {
            Seq::empty()
        },
    decreases texts.len(),
{
    let list = book::on_page(texts, here);
    if texts.len() == 0 {
        assert(texts_on(list, page_number) =~= Seq::<Seq<char>>::empty());
        assert(texts =~= Seq::<Seq<char>>::empty());
    } else {
        assert(list.drop_last() =~= book::on_page(texts.drop_last(), here));
        lemma_texts_on_one_page(texts.drop_last(), here, page_number);
        assert(texts.drop_last().push(texts.last()) =~= texts);
    }
}

/// The chunks on a page are the chunks of the text of that page, however many
/// pages there are. No chunk stands on any other page.
pub proof fn law_every_page_has_its_own_chunks(pages: Seq<Seq<char>>, max: nat, page_number: int)
    ensures
        texts_on(book::book_chunks(pages, max), page_number) == if 1 <= page_number
            <= pages.len() {
            chunk::chunks_of(pages[page_number - 1], max)
        } else {
            Seq::empty()
        },
    decreases pages.len(),
{
    let none = Seq::<Seq<char>>::empty();
    if pages.len() == 0 {
        assert(texts_on(book::book_chunks(pages, max), page_number) =~= none);
    } else {
        let front = pages.drop_last();
        let n = pages.len() as int;
        let own = chunk::chunks_of(pages.last(), max);
        law_every_page_has_its_own_chunks(front, max, page_number);
        lemma_texts_on_append(book::book_chunks(front, max), book::on_page(own, n), page_number);
        lemma_texts_on_one_page(own, n, page_number);
        assert(none + own =~= own);
        if 1 <= page_number < n {
            assert(front[page_number - 1] == pages[page_number - 1]);
            let c = chunk::chunks_of(pages[page_number - 1], max);
            assert(c + none =~= c);
        }
        assert(none + none =~= none);
    }
}

/// The chunks of a paper on a page are the chunks of the cleaned text of that page,
/// in the length that the settings ask for.
pub proof fn law_a_paper_is_spoken_page_by_page(
    settings: ModeSettings,
    pages: Seq<Seq<char>>,
    page_number: int,
)
    requires
        1 <= page_number <= pages.len(),
    ensures
        texts_on(prepare::paper_chunks(settings, pages), page_number) == chunk::chunks_of(
            clean::cleaned(pages[page_number - 1]),
            settings.chunk_chars as nat,
        ),
{
    law_every_page_has_its_own_chunks(
        book::pages_cleaned(pages),
        settings.chunk_chars as nat,
        page_number,
    );
    law_every_page_is_cleaned(pages);
    assert(book::pages_cleaned(pages)[page_number - 1] == clean::cleaned(pages[page_number - 1]));
}

/// The texts and page numbers of a list of chunks are those of its chunks, one for
/// one.
pub proof fn law_page_texts_are_one_for_one(list: Seq<book::PageChunk>)
    ensures
        book::page_texts(list).len() == list.len(),
        forall|i: int|
            0 <= i < list.len() ==> (#[trigger] book::page_texts(list)[i]).text == list[i].text@
                && book::page_texts(list)[i].page_number == list[i].page_number,
{
}

/// A mode that writes text gives every chunk a file with the text of the chunk,
/// under the number of the chunk. Any other mode gives none.
pub proof fn law_every_chunk_has_a_text_file(
    settings: ModeSettings,
    chunks_dir: Seq<char>,
    chunks: Seq<book::PageText>,
)
    ensures
        settings.write_debug_text ==> {
            &&& prepare::chunk_files(settings, chunks_dir, chunks).len() == chunks.len()
            &&& forall|i: int|
                0 <= i < chunks.len() ==> {
                    let file = #[trigger] prepare::chunk_files(settings, chunks_dir, chunks)[i];
                    &&& file.text == chunks[i].text
                    &&& file.path == paths::joined(chunks_dir, tts::chunk_name(i + 1, ".txt"@))
                }
        },
        !settings.write_debug_text ==> prepare::chunk_files(settings, chunks_dir, chunks).len()
            == 0,
{
}

/// The texts and paths of a list of files are those of its files, one for one.
pub proof fn law_file_texts_are_one_for_one(list: Seq<prepare::TextFile>)
    ensures
        prepare::file_texts(list).len() == list.len(),
        forall|i: int|
            0 <= i < list.len() ==> (#[trigger] prepare::file_texts(list)[i]).text == list[i].text@
                && prepare::file_texts(list)[i].path == list[i].path@,
{
}

/// The files of a paper hold its pages one behind the other, with a blank line
/// between each two: as they were found, and cleaned.
pub proof fn law_paper_files_hold_all_pages(
    settings: ModeSettings,
    raw_path: Seq<char>,
    cleaned_path: Seq<char>,
    a: Seq<Seq<char>>,
    b: Seq<Seq<char>>,
)
    requires
        settings.write_debug_text,
        a.len() > 0,
        b.len() > 0,
    ensures
        ({
            let first = prepare::paper_files(settings, raw_path, cleaned_path, a);
            let second = prepare::paper_files(settings, raw_path, cleaned_path, b);
            let both = prepare::paper_files(settings, raw_path, cleaned_path, a + b);
            &&& first.len() == 2 && second.len() == 2 && both.len() == 2
            &&& both[0].path == raw_path
            &&& both[1].path == cleaned_path
            &&& both[0].text == first[0].text + seq!['\n', '\n'] + second[0].text
            &&& first[1].text.len() > 0 && second[1].text.len() > 0 ==> both[1].text
                == first[1].text + seq!['\n', '\n'] + second[1].text
        }),
{
    reveal_strlit("\n\n");
    assert("\n\n"@ =~= seq!['\n', '\n']);
    text_laws::law_joined_lists_are_joined(a, b, "\n\n"@);
    let x = book::pages_with_text(book::pages_cleaned(a));
    let y = book::pages_with_text(book::pages_cleaned(b));
    assert(book::pages_cleaned(a + b) =~= book::pages_cleaned(a) + book::pages_cleaned(b));
    law_only_blank_pages_are_left_out(
        book::pages_cleaned(a),
        book::pages_cleaned(b),
        Seq::empty(),
    );
    if x.len() > 0 && y.len() > 0 {
        text_laws::law_joined_lists_are_joined(x, y, "\n\n"@);
    }
}

proof fn lemma_one_cleaned_page(page: Seq<char>)
    ensures
        clean::joined(book::pages_with_text(book::pages_cleaned(seq![page])), "\n\n"@)
            == clean::cleaned(page),
{
    let cleaned = clean::cleaned(page);
    let none = Seq::<Seq<char>>::empty();
    assert(book::pages_cleaned(seq![page]) =~= seq![cleaned]);
    assert(text::trimmed(cleaned) == cleaned) by {
        clean_laws::law_cleaned_text_is_clean(page);
    }
    law_only_blank_pages_are_left_out(none, none, cleaned);
    text_laws::law_one_text_is_joined_to_itself(cleaned, "\n\n"@);
    if cleaned.len() == 0 {
        assert(clean::joined(none, "\n\n"@) =~= cleaned);
    }
}

/// The files of a paper of one page hold that page as it was found, and cleaned.
pub proof fn law_paper_files_hold_the_page(
    settings: ModeSettings,
    raw_path: Seq<char>,
    cleaned_path: Seq<char>,
    page: Seq<char>,
)
    requires
        settings.write_debug_text,
    ensures
        prepare::paper_files(settings, raw_path, cleaned_path, seq![page])[0].text == page,
        prepare::paper_files(settings, raw_path, cleaned_path, seq![page])[1].text
            == clean::cleaned(page),
{
    lemma_one_cleaned_page(page);
    text_laws::law_one_text_is_joined_to_itself(page, "\n\n"@);
}

} // verus!
