use paper2voice::errors::Failure;
use paper2voice::mode::ModeSettings;
use paper2voice::output::AppPaths;
use paper2voice::prepare::prepare;

fn long_page() -> String {
    "A sentence of some length stands here. ".repeat(40)
}

#[test]
fn quality_writes_its_texts() {
    let paths = AppPaths::new("/app", "/docs", "a.pdf");
    let quality = ModeSettings::new("quality", 900, Some(2));
    let pages = vec![long_page(), "12".to_string(), "The end.".to_string()];
    let prepared = prepare(pages.clone(), quality, &paths).unwrap();
    assert_eq!(prepared.page_count, 3);
    let names: Vec<&str> = prepared.paper_files.iter().map(|f| f.path.as_str()).collect();
    assert_eq!(
        names,
        vec!["/docs/Paper2Voice/text/raw.txt", "/docs/Paper2Voice/text/cleaned.txt"]
    );
    assert_eq!(prepared.paper_files[0].text, pages.join("\n\n"));
    assert_eq!(
        prepared.paper_files[1].text,
        format!("{}\n\nThe end.", long_page().trim())
    );
    let chunks = prepared.chunks.unwrap();
    assert_eq!(chunks.len(), prepared.chunk_files.len());
    for (i, chunk) in chunks.iter().enumerate() {
        let file = &prepared.chunk_files[i];
        assert_eq!(file.path, format!("/docs/Paper2Voice/chunks/chunk_{:04}.txt", i + 1));
        assert_eq!(file.text, chunk.text);
    }
    assert_eq!(chunks.last().unwrap().page_number, 3);
}

#[test]
fn faster_modes_write_no_text() {
    let paths = AppPaths::new("/app", "/docs", "a.pdf");
    let fast = ModeSettings::new("fast_export", 900, Some(2));
    let prepared = prepare(vec![long_page()], fast, &paths).unwrap();
    assert!(prepared.paper_files.is_empty() && prepared.chunk_files.is_empty());
    assert!(prepared.chunks.is_ok());
}

#[test]
fn papers_without_text_are_refused() {
    let paths = AppPaths::new("/app", "/docs", "a.pdf");
    let quality = ModeSettings::new("quality", 900, Some(2));
    assert!(matches!(
        prepare(vec!["short".to_string()], quality, &paths),
        Err(Failure::NoText)
    ));
}

#[test]
fn papers_of_numbers_have_nothing_to_speak() {
    let paths = AppPaths::new("/app", "/docs", "a.pdf");
    let quality = ModeSettings::new("quality", 900, Some(2));
    let prepared = prepare(vec!["123\n".repeat(200)], quality, &paths).unwrap();
    assert_eq!(prepared.paper_files.len(), 2);
    assert_eq!(prepared.paper_files[1].text, "");
    assert!(matches!(prepared.chunks, Err(Failure::NoChunks)));
    assert!(prepared.chunk_files.is_empty());
}
