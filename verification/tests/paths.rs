use std::path::Path;

use paper2voice::paths::{
    ancestors, eq_ignore_case, extension, file_name, file_stem, has_extension, join, parent,
};

fn all_paths(len: usize) -> Vec<String> {
    let mut all = vec![String::new()];
    let mut last = all.clone();
    for _ in 0..len {
        let mut next = Vec::new();
        for path in &last {
            for c in ['/', '.', 'a', 'B'] {
                next.push(format!("{}{}", path, c));
            }
        }
        all.extend(next.iter().cloned());
        last = next;
    }
    all
}

fn text(path: &Path) -> String {
    path.to_str().unwrap().to_string()
}

#[test]
fn paths_are_taken_apart_like_std_does() {
    for path in all_paths(7) {
        let p = Path::new(&path);
        let name = p.file_name().map(|s| text(Path::new(s)));
        let stem = p.file_stem().map(|s| text(Path::new(s)));
        let ending = p.extension().map(|s| text(Path::new(s)));
        assert_eq!(file_name(&path), name, "{:?}", path);
        assert_eq!(file_stem(&path), stem, "{:?}", path);
        assert_eq!(extension(&path), ending, "{:?}", path);
        assert_eq!(parent(&path), p.parent().map(text), "{:?}", path);
        let up: Vec<String> = p.ancestors().map(text).collect();
        assert_eq!(ancestors(&path), up, "{:?}", path);
    }
}

#[test]
fn paths_are_joined_like_std_does() {
    let all = all_paths(3);
    for base in &all {
        for below in &all {
            assert_eq!(join(base, below), text(&Path::new(base).join(below)), "{:?} {:?}", base, below);
        }
    }
}

#[test]
fn extensions_are_compared_without_case() {
    assert!(has_extension("/tmp/a.PdF", "pdf"));
    assert!(!has_extension("/tmp/a.pdfx", "pdf"));
    assert!(!has_extension("/tmp/pdf", "pdf"));
    assert!(!has_extension("/tmp/.pdf", "pdf"));
    assert!(eq_ignore_case("WAV", "wav"));
    assert!(!eq_ignore_case("É", "é"));
}

#[test]
fn a_joined_name_stays_below() {
    for base in ["", "/", "/a", "/a/", "a/b"] {
        let path = join(base, "name.m4b");
        assert_eq!(file_name(&path).as_deref(), Some("name.m4b"));
        assert_eq!(Path::new(&parent(&path).unwrap()), Path::new(base));
    }
}
