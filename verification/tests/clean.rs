use paper2voice::clean::{clean_text, join, normalize_newlines, split_lines};

struct Numbers(u64);

impl Numbers {
    fn below(&mut self, n: u64) -> u64 {
        self.0 = self.0.wrapping_mul(6364136223846793005).wrapping_add(1442695040888963407);
        (self.0 >> 33) % n
    }

    fn text(&mut self, alphabet: &[char], len: u64) -> String {
        (0..len).map(|_| alphabet[self.below(alphabet.len() as u64) as usize]).collect()
    }
}

fn expected_clean(raw: &str) -> String {
    let blanks = regex::Regex::new(r"[ \t]+").unwrap();
    let page_number = regex::Regex::new(r"^\s*\d+\s*$").unwrap();
    let broken = regex::Regex::new(r"([[:alpha:]])-\n([[:alpha:]])").unwrap();
    let text = raw.replace("\r\n", "\n").replace('\r', "\n");
    let text = broken.replace_all(&text, "$1$2").to_string();
    let mut paragraphs: Vec<Vec<String>> = vec![vec![]];
    for line in text.lines() {
        let line = blanks.replace_all(line.trim(), " ").to_string();
        if line.is_empty() {
            paragraphs.push(vec![]);
        } else if !page_number.is_match(&line) {
            paragraphs.last_mut().unwrap().push(line);
        }
    }
    let joined: Vec<String> = paragraphs
        .into_iter()
        .filter(|lines| !lines.is_empty())
        .map(|lines| blanks.replace_all(lines.join(" ").trim(), " ").to_string())
        .filter(|paragraph| !paragraph.is_empty())
        .collect();
    joined.join("\n\n").trim().to_string()
}

#[test]
fn fixes_hyphenated_line_breaks() {
    assert_eq!(clean_text("indus-\ntrial policy"), "industrial policy");
}

#[test]
fn joins_broken_lines_and_preserves_paragraphs() {
    assert_eq!(
        clean_text("This is a sentence\nthat continues here.\n\nNext paragraph."),
        "This is a sentence that continues here.\n\nNext paragraph."
    );
}

#[test]
fn drops_page_numbers() {
    assert_eq!(clean_text("before\n 12 \nafter"), "before after");
    assert_eq!(clean_text("12"), "");
    assert_eq!(clean_text("12a"), "12a");
    assert_eq!(clean_text("1 2"), "1 2");
}

#[test]
fn page_numbers_may_use_the_digits_of_any_script() {
    let digit = regex::Regex::new(r"^\d$").unwrap();
    let blocks: [(u32, u32); 71] = [
        (0x30, 0x39),
        (0x660, 0x669),
        (0x6f0, 0x6f9),
        (0x7c0, 0x7c9),
        (0x966, 0x96f),
        (0x9e6, 0x9ef),
        (0xa66, 0xa6f),
        (0xae6, 0xaef),
        (0xb66, 0xb6f),
        (0xbe6, 0xbef),
        (0xc66, 0xc6f),
        (0xce6, 0xcef),
        (0xd66, 0xd6f),
        (0xde6, 0xdef),
        (0xe50, 0xe59),
        (0xed0, 0xed9),
        (0xf20, 0xf29),
        (0x1040, 0x1049),
        (0x1090, 0x1099),
        (0x17e0, 0x17e9),
        (0x1810, 0x1819),
        (0x1946, 0x194f),
        (0x19d0, 0x19d9),
        (0x1a80, 0x1a89),
        (0x1a90, 0x1a99),
        (0x1b50, 0x1b59),
        (0x1bb0, 0x1bb9),
        (0x1c40, 0x1c49),
        (0x1c50, 0x1c59),
        (0xa620, 0xa629),
        (0xa8d0, 0xa8d9),
        (0xa900, 0xa909),
        (0xa9d0, 0xa9d9),
        (0xa9f0, 0xa9f9),
        (0xaa50, 0xaa59),
        (0xabf0, 0xabf9),
        (0xff10, 0xff19),
        (0x104a0, 0x104a9),
        (0x10d30, 0x10d39),
        (0x10d40, 0x10d49),
        (0x11066, 0x1106f),
        (0x110f0, 0x110f9),
        (0x11136, 0x1113f),
        (0x111d0, 0x111d9),
        (0x112f0, 0x112f9),
        (0x11450, 0x11459),
        (0x114d0, 0x114d9),
        (0x11650, 0x11659),
        (0x116c0, 0x116c9),
        (0x116d0, 0x116e3),
        (0x11730, 0x11739),
        (0x118e0, 0x118e9),
        (0x11950, 0x11959),
        (0x11bf0, 0x11bf9),
        (0x11c50, 0x11c59),
        (0x11d50, 0x11d59),
        (0x11da0, 0x11da9),
        (0x11f50, 0x11f59),
        (0x16130, 0x16139),
        (0x16a60, 0x16a69),
        (0x16ac0, 0x16ac9),
        (0x16b50, 0x16b59),
        (0x16d70, 0x16d79),
        (0x1ccf0, 0x1ccf9),
        (0x1d7ce, 0x1d7ff),
        (0x1e140, 0x1e149),
        (0x1e2f0, 0x1e2f9),
        (0x1e4f0, 0x1e4f9),
        (0x1e5f1, 0x1e5fa),
        (0x1e950, 0x1e959),
        (0x1fbf0, 0x1fbf9),
    ];
    for (first, last) in blocks {
        for code in [first - 1, first, last, last + 1] {
            let text = char::from_u32(code).unwrap().to_string();
            let is_digit = first <= code && code <= last;
            assert_eq!(digit.is_match(&text), is_digit, "{:x}", code);
            assert_eq!(clean_text(&text).is_empty(), is_digit, "{:x}", code);
        }
    }
    let row: String = blocks.iter().map(|(first, _)| char::from_u32(*first + 3).unwrap()).collect();
    assert_eq!(clean_text(&row), "");
}

#[test]
fn mends_line_ends() {
    assert_eq!(normalize_newlines("a\r\nb\rc\r\r\nd"), "a\nb\nc\n\nd");
    assert_eq!(clean_text("a\r\n\r\nb\rc"), "a\n\nb c");
}

#[test]
fn only_letters_are_joined_over_a_hyphen() {
    assert_eq!(clean_text("1-\nx"), "1- x");
    assert_eq!(clean_text("x-\n\ny"), "x-\n\ny");
    assert_eq!(clean_text("a-\nb-\nc"), "ab- c");
    assert_eq!(clean_text("é-\nb"), "é- b");
}

#[test]
fn collapses_blanks() {
    assert_eq!(clean_text("\t a \t  b\t"), "a b");
}

#[test]
fn splits_lines_like_std() {
    for text in ["", "\n", "a", "a\n", "\na", "a\n\nb\n", "\n\n"] {
        let expected: Vec<&str> = text.lines().collect();
        assert_eq!(split_lines(text), expected, "{:?}", text);
    }
}

#[test]
fn joins_with_a_separator() {
    let list = vec!["a".to_string(), "".to_string(), "b".to_string()];
    assert_eq!(join(&list, ", "), "a, , b");
    assert_eq!(join(&vec![], ", "), "");
}

#[test]
fn cleaned_texts_match_a_direct_computation() {
    let alphabet = [
        'a', 'B', 'é', '1', '٣', '-', '-', '\n', '\n', '\n', '\r', ' ', ' ', '\t', '\u{a0}', '\u{b}',
        '\u{85}', '.',
    ];
    let mut numbers = Numbers(11);
    for _ in 0..150 {
        let len = numbers.below(50);
        let raw = numbers.text(&alphabet, len);
        let cleaned = clean_text(&raw);
        assert_eq!(cleaned, expected_clean(&raw), "{:?}", raw);
        assert_eq!(clean_text(&cleaned), cleaned, "{:?}", raw);
    }
}

#[test]
fn cleaning_keeps_words() {
    let raw = "One two\r\nthree.  Four\n\n\tfive - six\n";
    let words: Vec<String> = clean_text(raw).split_whitespace().map(str::to_string).collect();
    assert_eq!(words, raw.split_whitespace().collect::<Vec<_>>());
}

#[test]
fn cleaned_texts_are_clean() {
    let cleaned = clean_text("  a\t\tb \r\n\r\n 17\r\n\r\n\tc -  d\r");
    assert_eq!(cleaned, "a b\n\nc - d");
    assert_eq!(cleaned.trim(), cleaned);
    assert!(!cleaned.contains(['\r', '\t']) && !cleaned.contains("  "));
    assert!(cleaned.split("\n\n").all(|p| p.parse::<u32>().is_err()));
}

#[test]
fn paragraphs_survive_cleaning() {
    let raw = "One\nline.\n\n\nTwo.\n3\nlines.\n\n4\n\nEnd";
    let cleaned = clean_text(raw);
    let paragraphs: Vec<&str> = cleaned.split("\n\n").collect();
    assert_eq!(paragraphs, vec!["One line.", "Two. lines.", "End"]);
    assert_eq!(paper2voice::chunk::chunk_text(&cleaned, 11), paragraphs);
}
