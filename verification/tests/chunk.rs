use paper2voice::chunk::{
    chunk_text, flush_current, hard_split, push_or_accumulate, split_sentences,
};

fn texts(list: &[&str]) -> Vec<String> {
    list.iter().map(|s| s.to_string()).collect()
}

struct Numbers(u64);

impl Numbers {
    fn below(&mut self, n: u64) -> u64 {
        self.0 = self.0.wrapping_mul(6364136223846793005).wrapping_add(1442695040888963407);
        (self.0 >> 33) % n
    }

    fn text(&mut self, alphabet: &[char], len: u64) -> String {
        (0..len).map(|_| alphabet[self.below(alphabet.len() as u64) as usize]).collect()
    }
}

fn expected_flush(chunks: &mut Vec<String>, current: &mut String) {
    if !current.trim().is_empty() {
        chunks.push(current.trim().to_string());
    }
    current.clear();
}

fn expected_push(chunks: &mut Vec<String>, current: &mut String, gap: &str, text: &str, max: usize) {
    let gap_len = if current.is_empty() { 0 } else { gap.len() };
    if current.chars().count() + gap_len + text.chars().count() > max {
        expected_flush(chunks, current);
    }
    if !current.is_empty() {
        current.push_str(gap);
    }
    current.push_str(text.trim());
}

fn expected_words(text: &str, max: usize) -> Vec<String> {
    let mut chunks = Vec::new();
    let mut current = String::new();
    for word in text.split_whitespace() {
        expected_push(&mut chunks, &mut current, " ", word, max);
    }
    expected_flush(&mut chunks, &mut current);
    chunks
}

fn expected_sentences(paragraph: &str) -> Vec<String> {
    let chars: Vec<char> = paragraph.chars().collect();
    let mut found = Vec::new();
    let mut start = 0;
    for i in 0..chars.len() {
        let ends = matches!(chars[i], '.' | '!' | '?')
            && (i + 1 == chars.len() || chars[i + 1].is_whitespace());
        if ends || i + 1 == chars.len() {
            let sentence: String = chars[start..i + 1].iter().collect();
            if !sentence.trim().is_empty() {
                found.push(sentence.trim().to_string());
            }
            start = i + 1;
        }
    }
    found
}

fn expected_chunks(cleaned: &str, max: usize) -> Vec<String> {
    let mut chunks = Vec::new();
    let mut current = String::new();
    if max == 0 {
        return chunks;
    }
    for paragraph in cleaned.split("\n\n").map(str::trim).filter(|p| !p.is_empty()) {
        if paragraph.chars().count() <= max {
            expected_push(&mut chunks, &mut current, "\n\n", paragraph, max);
            continue;
        }
        expected_flush(&mut chunks, &mut current);
        for sentence in expected_sentences(paragraph) {
            if sentence.chars().count() <= max {
                expected_push(&mut chunks, &mut current, "\n\n", &sentence, max);
            } else {
                expected_flush(&mut chunks, &mut current);
                chunks.extend(expected_words(&sentence, max));
            }
        }
    }
    expected_flush(&mut chunks, &mut current);
    chunks
}

#[test]
fn accumulates_small_paragraphs() {
    assert_eq!(chunk_text("One.\n\nTwo.", 20), vec!["One.\n\nTwo."]);
}

#[test]
fn no_limit_means_no_chunks() {
    assert_eq!(chunk_text("One.\n\nTwo.", 0), texts(&[]));
}

#[test]
fn blank_text_has_no_chunks() {
    assert_eq!(chunk_text("", 10), texts(&[]));
    assert_eq!(chunk_text(" \n\n \t \n\n\n", 10), texts(&[]));
}

#[test]
fn a_full_chunk_is_closed() {
    assert_eq!(chunk_text("One.\n\nTwo.", 10), texts(&["One.\n\nTwo."]));
    assert_eq!(chunk_text("One.\n\nTwo.", 9), texts(&["One.", "Two."]));
}

#[test]
fn long_paragraphs_are_packed_by_sentence() {
    assert_eq!(
        chunk_text("First one. Second one! Third?", 24),
        texts(&["First one.\n\nSecond one!", "Third?"])
    );
}

#[test]
fn long_sentences_are_packed_by_word() {
    assert_eq!(
        chunk_text("alpha beta gamma delta", 11),
        texts(&["alpha beta", "gamma delta"])
    );
    assert_eq!(chunk_text("abcdefghij kl", 4), texts(&["abcdefghij", "kl"]));
}

#[test]
fn sentences_end_before_white_space() {
    assert_eq!(
        split_sentences("Version 1.2 is out. Really?! Yes"),
        texts(&["Version 1.2 is out.", "Really?!", "Yes"])
    );
    assert_eq!(split_sentences("  "), texts(&[]));
    assert_eq!(split_sentences("..."), texts(&["..."]));
}

#[test]
fn words_are_packed_with_single_spaces() {
    assert_eq!(hard_split("a  b\tc\nd", 3), texts(&["a b", "c d"]));
    assert_eq!(hard_split("   ", 3), texts(&[]));
}

#[test]
fn flushing_trims_and_empties() {
    let mut chunks = texts(&["x"]);
    let mut current = "  y \n".to_string();
    flush_current(&mut chunks, &mut current);
    assert_eq!(chunks, texts(&["x", "y"]));
    assert_eq!(current, "");
    flush_current(&mut chunks, &mut current);
    assert_eq!(chunks, texts(&["x", "y"]));
}

#[test]
fn accumulating_keeps_to_the_limit() {
    let mut chunks = texts(&[]);
    let mut current = "ab".to_string();
    push_or_accumulate(&mut chunks, &mut current, "cd", 6);
    assert_eq!((chunks.len(), current.as_str()), (0, "ab\n\ncd"));
    push_or_accumulate(&mut chunks, &mut current, "e", 6);
    assert_eq!(chunks, texts(&["ab\n\ncd"]));
    assert_eq!(current, "e");
}

#[test]
fn chunks_match_a_direct_computation() {
    let alphabet = ['a', 'b', '.', '!', '?', ' ', ' ', '\n', '\n', '\t', 'é', '\u{a0}', '\u{3000}'];
    let mut numbers = Numbers(7);
    for _ in 0..4000 {
        let len = numbers.below(60);
        let text = numbers.text(&alphabet, len);
        let max = numbers.below(20) as usize;
        assert_eq!(chunk_text(&text, max), expected_chunks(&text, max), "{:?} {}", text, max);
        assert_eq!(split_sentences(&text), expected_sentences(&text), "{:?}", text);
        assert_eq!(hard_split(&text, max), expected_words(&text, max), "{:?} {}", text, max);
    }
}

#[test]
fn chunks_keep_words_and_limit() {
    let text = "It was a bright cold day in April. The clocks were striking thirteen!\n\n\
                Incomprehensibilities followed, one after the other.";
    for max in 1..90 {
        let chunks = chunk_text(text, max);
        let words: Vec<&str> = chunks.iter().flat_map(|c| c.split_whitespace()).collect();
        assert_eq!(words, text.split_whitespace().collect::<Vec<_>>());
        for chunk in &chunks {
            assert!(chunk.chars().count() <= max || chunk.split_whitespace().count() == 1);
            assert_eq!(chunk.trim(), chunk);
            assert!(!chunk.is_empty());
        }
    }
}

#[test]
fn short_texts_are_one_chunk() {
    assert_eq!(chunk_text(" a\n\n\n\n b \n\nc", 7), texts(&["a\n\nb\n\nc"]));
    assert_eq!(chunk_text(" a\n\n\n\n b \n\nc", 6), texts(&["a\n\nb", "c"]));
}

fn fewest_groups(lens: &[usize], gap: usize, max: usize) -> usize {
    let mut best = vec![0; lens.len() + 1];
    for end in 1..=lens.len() {
        best[end] = usize::MAX;
        for start in 0..end {
            let group = &lens[start..end];
            let len = group.iter().sum::<usize>() + gap * (group.len() - 1);
            if group.len() == 1 || len <= max {
                best[end] = best[end].min(best[start] + 1);
            }
        }
    }
    best[lens.len()]
}

#[test]
fn packing_uses_the_fewest_chunks() {
    let mut numbers = Numbers(23);
    for _ in 0..500 {
        let lens: Vec<usize> =
            (0..numbers.below(12)).map(|_| 1 + numbers.below(6) as usize).collect();
        let texts: Vec<String> = lens.iter().map(|n| "x".repeat(*n)).collect();
        for max in 1..16 {
            let words = hard_split(&texts.join(" "), max);
            assert_eq!(words.len(), fewest_groups(&lens, 1, max), "{:?} {}", lens, max);
        }
        for max in 6..20 {
            let paragraphs = chunk_text(&texts.join("\n\n"), max);
            assert_eq!(paragraphs.len(), fewest_groups(&lens, 2, max), "{:?} {}", lens, max);
        }
    }
}

#[test]
fn chunks_stay_whole_when_chunked_again() {
    let alphabet = ['a', 'b', '.', '!', ' ', '\n', '\n', '\t', 'é', '\u{a0}'];
    let mut numbers = Numbers(5);
    for _ in 0..2000 {
        let len = numbers.below(60);
        let text = numbers.text(&alphabet, len);
        let max = numbers.below(20) as usize;
        for chunk in chunk_text(&text, max) {
            assert_eq!(chunk_text(&chunk, max), vec![chunk.clone()], "{:?} {}", text, max);
        }
    }
}
