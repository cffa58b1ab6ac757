use paper2voice::book::{
    clean_pages, cleaned_text, page_chunks, prioritized_work_order, raw_text, require_text,
    PageChunk,
};
use paper2voice::errors::Failure;
use paper2voice::mode::ModeSettings;

fn pages(list: &[&str]) -> Vec<String> {
    list.iter().map(|s| s.to_string()).collect()
}

fn chunks_on(page_numbers: &[usize]) -> Vec<PageChunk> {
    page_numbers
        .iter()
        .map(|n| PageChunk { text: "x".to_string(), page_number: *n })
        .collect()
}

fn with_priority(pages: usize) -> ModeSettings {
    ModeSettings { initial_priority_pages: pages, ..ModeSettings::new("super_quick", 900, None) }
}

#[test]
fn pages_need_three_hundred_characters() {
    let enough = vec![" ".repeat(50) + &"é".repeat(150), "a".repeat(150)];
    assert_eq!(require_text(enough.clone()).unwrap(), enough);
    let few = vec![" ".repeat(500) + &"é".repeat(150), "a".repeat(149)];
    assert!(matches!(require_text(few), Err(Failure::NoText)));
    assert!(matches!(require_text(vec![]), Err(Failure::NoText)));
}

#[test]
fn texts_are_joined_with_blank_lines() {
    let list = pages(&["a", " ", "b-\nc"]);
    assert_eq!(raw_text(&list), "a\n\n \n\nb-\nc");
    let cleaned = clean_pages(&list);
    assert_eq!(cleaned, pages(&["a", "", "bc"]));
    assert_eq!(cleaned_text(&cleaned), "a\n\nbc");
}

#[test]
fn chunks_name_their_pages() {
    let list = pages(&["One. Two.", "", "Three."]);
    let chunks = page_chunks(&list, 5).unwrap();
    let found: Vec<(usize, &str)> =
        chunks.iter().map(|c| (c.page_number, c.text.as_str())).collect();
    assert_eq!(found, vec![(1, "One."), (1, "Two."), (3, "Three.")]);
}

#[test]
fn nothing_to_speak_is_an_error() {
    assert!(matches!(page_chunks(&pages(&["", " \n"]), 5), Err(Failure::NoChunks)));
    assert!(matches!(page_chunks(&pages(&[]), 5), Err(Failure::NoChunks)));
    assert!(matches!(page_chunks(&pages(&["a"]), 0), Err(Failure::NoChunks)));
}

#[test]
fn books_keep_words_and_pages() {
    let list = pages(&["Alpha beta. Gamma!", "", "Delta epsilon zeta", "Eta"]);
    for max in 1..20 {
        let chunks = page_chunks(&list, max).unwrap();
        let words: Vec<&str> = chunks.iter().flat_map(|c| c.text.split_whitespace()).collect();
        let all: Vec<&str> = list.iter().flat_map(|p| p.split_whitespace()).collect();
        assert_eq!(words, all);
        assert_eq!(cleaned_text(&list).split_whitespace().collect::<Vec<_>>(), all);
        for pair in chunks.windows(2) {
            assert!(pair[0].page_number <= pair[1].page_number);
        }
        for chunk in &chunks {
            assert!(list[chunk.page_number - 1].contains(chunk.text.split('\n').next().unwrap()));
            assert!(chunk.text.len() <= max || chunk.text.split_whitespace().count() == 1);
        }
    }
}

#[test]
fn priority_pages_are_spoken_first() {
    let chunks = chunks_on(&[5, 1, 4, 3, 2, 9]);
    assert_eq!(prioritized_work_order(&chunks, with_priority(3)), vec![1, 3, 4, 0, 2, 5]);
    assert_eq!(prioritized_work_order(&chunks, with_priority(0)), vec![0, 1, 2, 3, 4, 5]);
    assert_eq!(prioritized_work_order(&chunks, with_priority(99)), vec![0, 1, 2, 3, 4, 5]);
    assert_eq!(prioritized_work_order(&chunks_on(&[]), with_priority(3)), Vec::<usize>::new());
}

#[test]
fn every_chunk_is_in_the_order_once() {
    let chunks = chunks_on(&[1, 1, 2, 7, 3, 3, 8, 4]);
    for priority in 0..10 {
        let mut order = prioritized_work_order(&chunks, with_priority(priority));
        order.sort();
        assert_eq!(order, (0..8).collect::<Vec<_>>());
    }
}

#[test]
fn a_short_page_is_one_chunk() {
    let cleaned = clean_pages(&pages(&["One\ntwo.\n\n7\n\nThree."]));
    assert_eq!(cleaned, pages(&["One two.\n\nThree."]));
    let chunks = page_chunks(&cleaned, 16).unwrap();
    assert_eq!(chunks.len(), 1);
    assert_eq!(chunks[0].text, cleaned[0]);
}
