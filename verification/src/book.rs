//! The text of a whole paper, page by page, and the order in which its chunks
//! are spoken.

use vstd::prelude::*;

use crate::chunk;
use crate::chunk_laws;
use crate::clean;
use crate::errors::Failure;
use crate::mode::ModeSettings;
use crate::text;

verus! {

broadcast use vstd::string::group_string_axioms;

/// A chunk of text and the page on which it stands. The first page has the
/// number 1.
pub struct PageChunk {
    pub text: String,
    pub page_number: usize,
}

/// The text and the page number of a chunk.
pub struct PageText {
    pub text: Seq<char>,
    pub page_number: int,
}

impl View for PageChunk {
    type V = PageText;

    open spec fn view(&self) -> PageText {
        PageText { text: self.text@, page_number: self.page_number as int }
    }
}

// ---------------------------------------------------------------------------
// Models
// ---------------------------------------------------------------------------

/// What the chunks of a list hold.
pub open spec fn page_texts(list: Seq<PageChunk>) -> Seq<PageText> {
    list.map_values(|c: PageChunk| c@)
}

/// The number of characters of all pages, the white space at the ends of each
/// page left out.
pub open spec fn text_total(pages: Seq<Seq<char>>) -> nat
    decreases pages.len(),
{
    if pages.len() == 0 {
        0
    } else {
        text_total(pages.drop_last()) + text::trimmed(pages.last()).len()
    }
}

/// The cleaned pages.
pub open spec fn pages_cleaned(pages: Seq<Seq<char>>) -> Seq<Seq<char>> {
    pages.map_values(|page: Seq<char>| clean::cleaned(page))
}

/// The pages that hold something other than white space.
pub open spec fn pages_with_text(pages: Seq<Seq<char>>) -> Seq<Seq<char>> {
    pages.filter(|page: Seq<char>| text::trimmed(page).len() > 0)
}

/// Texts that stand on one page.
pub open spec fn on_page(texts: Seq<Seq<char>>, page_number: int) -> Seq<PageText> {
    texts.map_values(|t: Seq<char>| PageText { text: t, page_number })
}

/// The chunks of all pages, in order.
pub open spec fn book_chunks(pages: Seq<Seq<char>>, max: nat) -> Seq<PageText>
    decreases pages.len(),
{
    if pages.len() == 0 {
        Seq::empty()
    } else {
        book_chunks(pages.drop_last(), max) + on_page(
            chunk::chunks_of(pages.last(), max),
            pages.len() as int,
        )
    }
}

/// The positions below `n` at which the page number passes the test, in order.
pub open spec fn positions(
    chunks: Seq<PageText>,
    n: nat,
    test: spec_fn(int) -> bool,
) -> Seq<usize>
    decreases n,
{
    if n == 0 {
        Seq::empty()
    } else {
        let before = positions(chunks, (n - 1) as nat, test);
        if test(chunks[n - 1].page_number) {
            before.push((n - 1) as usize)
        } else {
            before
        }
    }
}

/// The order in which chunks are spoken: first those of the priority pages,
/// then all others, each in the order of the text. Without priority pages it
/// is the order of the text.
pub open spec fn work_order(chunks: Seq<PageText>, priority_pages: int) -> Seq<usize> {
    if priority_pages == 0 {
        Seq::new(chunks.len(), |i: int| i as usize)
    } else {
        positions(chunks, chunks.len(), |page: int| page <= priority_pages) + positions(
            chunks,
            chunks.len(),
            |page: int| page > priority_pages,
        )
    }
}

// ---------------------------------------------------------------------------
// Pages
// ---------------------------------------------------------------------------

/// Accepts the pages of a PDF if they hold at least 300 characters of text.
pub fn require_text(pages: Vec<String>) -> (r: Result<Vec<String>, Failure>)
    ensures
        match r {
            Ok(kept) => text_total(text::contents(pages@)) >= 300 && kept == pages,
            Err(Failure::NoText) => text_total(text::contents(pages@)) < 300,
            Err(_) => false,
        },
{
    let ghost all = text::contents(pages@);
    let mut total: usize = 0;
    let mut i: usize = 0;
    while i < pages.len() && total < 300
        invariant
            all == text::contents(pages@),
            i <= pages@.len(),
            total < 300 ==> total == text_total(all.take(i as int)),
            total >= 300 ==> text_total(all.take(i as int)) >= 300,
        decreases pages@.len() - i,
    {
        let count: usize = text::char_count(text::trim(pages[i].as_str()).as_str());
        proof {
            assert(all.take(i + 1).drop_last() =~= all.take(i as int));
            assert(all.take(i + 1).last() == pages@[i as int]@);
        }
        if count >= 300 {
            total = 300;
        } else {
            total += count;
        }
        i += 1;
    }
    if total < 300 {
        proof {
            assert(all.take(i as int) =~= all);
        }
        return Err(Failure::NoText);
    }
    proof {
        lemma_text_total_grows(all, i as int);
    }
    Ok(pages)
}

proof fn lemma_text_total_grows(pages: Seq<Seq<char>>, k: int)
    requires
        0 <= k <= pages.len(),
    ensures
        text_total(pages.take(k)) <= text_total(pages),
    decreases pages.len(),
{
    if k == pages.len() {
        assert(pages.take(k) =~= pages);
    } else {
        lemma_text_total_grows(pages.drop_last(), k);
        assert(pages.drop_last().take(k) =~= pages.take(k));
    }
}

/// The raw text of the paper: its pages with a blank line between each two of
/// them.
pub fn raw_text(pages: &Vec<String>) -> (r: String)
    ensures
        r@ == clean::joined(text::contents(pages@), "\n\n"@),
{
    clean::join(pages, "\n\n")
}

/// Cleans each page.
pub fn clean_pages(pages: &Vec<String>) -> (r: Vec<String>)
    ensures
        text::contents(r@) == pages_cleaned(text::contents(pages@)),
{
    let ghost all = text::contents(pages@);
    let mut out: Vec<String> = Vec::new();
    let mut i: usize = 0;
    while i < pages.len()
        invariant
            all == text::contents(pages@),
            i <= pages@.len(),
            text::contents(out@) == pages_cleaned(all).take(i as int),
        decreases pages@.len() - i,
    {
        let ghost before = text::contents(out@);
        out.push(clean::clean_text(pages[i].as_str()));
        proof {
            assert(text::contents(out@) =~= before.push(clean::cleaned(all[i as int])));
            assert(pages_cleaned(all).take(i + 1) =~= before.push(clean::cleaned(all[i as int])));
        }
        i += 1;
    }
    proof {
        assert(pages_cleaned(all).take(i as int) =~= pages_cleaned(all));
    }
    out
}

/// The cleaned text of the paper: its pages that hold text, with a blank line
/// between each two of them.
pub fn cleaned_text(cleaned_pages: &Vec<String>) -> (r: String)
    ensures
        r@ == clean::joined(pages_with_text(text::contents(cleaned_pages@)), "\n\n"@),
{
    let ghost all = text::contents(cleaned_pages@);
    let ghost test = |page: Seq<char>| text::trimmed(page).len() > 0;
    let mut kept: Vec<String> = Vec::new();
    let mut i: usize = 0;
    proof {
        assert(text::contents(kept@) =~= all.take(0).filter(test));
    }
    while i < cleaned_pages.len()
        invariant
            all == text::contents(cleaned_pages@),
            test == (|page: Seq<char>| text::trimmed(page).len() > 0),
            i <= cleaned_pages@.len(),
            text::contents(kept@) == all.take(i as int).filter(test),
        decreases cleaned_pages@.len() - i,
    {
        let ghost before = text::contents(kept@);
        let page = cleaned_pages[i].as_str();
        proof {
            reveal(Seq::filter);
            assert(all.take(i + 1).drop_last() =~= all.take(i as int));
            assert(all.take(i + 1).last() == page@);
        }
        if !text::trim(page).as_str().is_empty() {
            kept.push(page.to_owned());
            proof {
                assert(text::contents(kept@) =~= before.push(page@));
            }
        }
        i += 1;
    }
    proof {
        assert(all.take(i as int) =~= all);
    }
    clean::join(&kept, "\n\n")
}

// ---------------------------------------------------------------------------
// Chunks
// ---------------------------------------------------------------------------

/// Splits the cleaned pages into chunks.
pub fn page_chunks(cleaned_pages: &Vec<String>, chunk_chars: usize) -> (r: Result<
    Vec<PageChunk>,
    Failure,
>)
    ensures
        match r {
            Ok(chunks) => chunks@.len() > 0 && page_texts(chunks@) == book_chunks(
                text::contents(cleaned_pages@),
                chunk_chars as nat,
            ),
            Err(Failure::NoChunks) => book_chunks(
                text::contents(cleaned_pages@),
                chunk_chars as nat,
            ).len() == 0,
            Err(_) => false,
        },
{
    let ghost all = text::contents(cleaned_pages@);
    let ghost max = chunk_chars as nat;
    let mut chunks: Vec<PageChunk> = Vec::new();
    let mut i: usize = 0;
    proof {
        assert(page_texts(chunks@) =~= book_chunks(all.take(0), max));
    }
    while i < cleaned_pages.len()
        invariant
            all == text::contents(cleaned_pages@),
            max == chunk_chars as nat,
            i <= cleaned_pages@.len(),
            page_texts(chunks@) == book_chunks(all.take(i as int), max),
        decreases cleaned_pages@.len() - i,
    {
        let ghost before = page_texts(chunks@);
        let ghost texts = chunk::chunks_of(all[i as int], max);
        let found = chunk::chunk_text(cleaned_pages[i].as_str(), chunk_chars);
        let mut k: usize = 0;
        proof {
            assert(page_texts(chunks@) =~= before + on_page(texts, i + 1).take(0));
        }
        while k < found.len()
            invariant
                text::contents(found@) == texts,
                texts == chunk::chunks_of(all[i as int], max),
                i < cleaned_pages.len(),
                all.len() == cleaned_pages@.len(),
                k <= found@.len(),
                page_texts(chunks@) == before + on_page(texts, i + 1).take(k as int),
            decreases found@.len() - k,
        {
            proof {
                assert(texts[k as int] == found@[k as int]@);
                chunk_laws::law_chunks_hold_text(all[i as int], max, k as int);
            }
            let part = found[k].as_str();
            if !text::trim(part).as_str().is_empty() {
                let ghost so_far = page_texts(chunks@);
                chunks.push(PageChunk { text: part.to_owned(), page_number: i + 1 });
                proof {
                    let last = PageText { text: texts[k as int], page_number: i + 1 };
                    assert(chunks@.last()@ == last);
                    assert(page_texts(chunks@) =~= so_far.push(last));
                    assert(on_page(texts, i + 1).take(k + 1) =~= on_page(texts, i + 1).take(
                        k as int,
                    ).push(last));
                    assert(page_texts(chunks@) =~= before + on_page(texts, i + 1).take(k + 1));
                }
            }
            k += 1;
        }
        proof {
            assert(on_page(texts, i + 1).take(k as int) =~= on_page(texts, i + 1));
            assert(all.take(i + 1).drop_last() =~= all.take(i as int));
            assert(all.take(i + 1).last() == all[i as int]);
        }
        i += 1;
    }
    proof {
        assert(all.take(i as int) =~= all);
        assert(page_texts(chunks@).len() == chunks@.len());
    }
    if chunks.len() == 0 {
        return Err(Failure::NoChunks);
    }
    Ok(chunks)
}

/// The order in which the chunks are spoken.
pub fn prioritized_work_order(chunks: &Vec<PageChunk>, settings: ModeSettings) -> (r: Vec<usize>)
    ensures
        r@ == work_order(page_texts(chunks@), settings.initial_priority_pages as int),
{
    let limit: usize = settings.initial_priority_pages;
    let ghost all = page_texts(chunks@);
    let ghost first = |page: int| page <= limit;
    let ghost later = |page: int| page > limit;
    let mut priority: Vec<usize> = Vec::new();
    let mut rest: Vec<usize> = Vec::new();
    let mut i: usize = 0;
    while i < chunks.len()
        invariant
            all == page_texts(chunks@),
            first == (|page: int| page <= limit),
            later == (|page: int| page > limit),
            limit == settings.initial_priority_pages,
            i <= chunks@.len(),
            limit == 0 ==> priority@ == Seq::new(i as nat, |k: int| k as usize) && rest@.len() == 0,
            limit > 0 ==> priority@ == positions(all, i as nat, first) && rest@ == positions(
                all,
                i as nat,
                later,
            ),
        decreases chunks@.len() - i,
    {
        proof {
            assert(all[i as int].page_number == chunks@[i as int].page_number);
        }
        if limit == 0 {
            priority.push(i);
            proof {
                assert(priority@ =~= Seq::new((i + 1) as nat, |k: int| k as usize));
            }
        } else if chunks[i].page_number <= limit {
            priority.push(i);
        } else {
            rest.push(i);
        }
        i += 1;
    }
    let ghost head = priority@;
    let ghost tail = rest@;
    priority.append(&mut rest);
    proof {
        assert(priority@ =~= head + tail);
        if limit == 0 {
            assert(priority@ =~= head);
        }
    }
    priority
}

} // verus!
