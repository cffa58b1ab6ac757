use std::cell::RefCell;

use paper2voice::search::{
    bridge_script_path, bundled_tool_candidate, find_from_runtime_roots, probe_argument,
    project_root, python_executable, resolve_tool, SITE_PACKAGES,
};

fn roots(list: &[&str]) -> Vec<String> {
    list.iter().map(|s| s.to_string()).collect()
}

fn only(path: &'static str) -> impl Fn(&String) -> bool {
    move |candidate: &String| candidate.as_str() == path
}

#[test]
fn project_roots_are_searched_upwards() {
    let asked = RefCell::new(Vec::new());
    let nothing = |candidate: &String| {
        asked.borrow_mut().push(candidate.clone());
        false
    };
    let missing = project_root(&roots(&["/a/b", "c"]), &nothing).unwrap_err();
    assert_eq!(
        missing.message(),
        "Could not find project root containing models/ and scripts/. Searched from: /a/b, /a, /, c, "
    );
    assert_eq!(
        asked.into_inner(),
        vec![
            "/a/b", "/a/b/Resources", "/a", "/a/Resources", "/", "/Resources", "c", "c/Resources",
            "", "Resources",
        ]
    );
}

#[test]
fn the_first_project_root_wins() {
    let either = |c: &String| c == "/a/Resources" || c == "/";
    assert_eq!(project_root(&roots(&["/x", "/a/b"]), &either).unwrap(), "/");
    assert_eq!(project_root(&roots(&["/a/b"]), &either).unwrap(), "/a/Resources");
}

#[test]
fn runtime_files_are_searched_in_resources_too() {
    let list = roots(&["/a/b"]);
    assert_eq!(
        find_from_runtime_roots(&list, SITE_PACKAGES, &only("/a/Resources/runtime/site-packages")),
        Some("/a/Resources/runtime/site-packages".to_string())
    );
    assert_eq!(
        find_from_runtime_roots(&list, SITE_PACKAGES, &|_: &String| true),
        Some("/a/b/runtime/site-packages".to_string())
    );
    assert_eq!(find_from_runtime_roots(&list, SITE_PACKAGES, &|_: &String| false), None);
    assert_eq!(
        bridge_script_path(&list, &only("/scripts/kokoro_bridge.py")).unwrap(),
        "/scripts/kokoro_bridge.py"
    );
    assert_eq!(
        bridge_script_path(&list, &|_: &String| false).unwrap_err().message(),
        "Could not find scripts/kokoro_bridge.py from the app runtime location."
    );
}

#[test]
fn python_is_chosen_in_order() {
    let list = roots(&["/a/b"]);
    let all = |_: &String| true;
    let none = |_: &String| false;
    assert_eq!(python_executable(Some("/py".to_string()), &list, &all), "/py");
    assert_eq!(python_executable(None, &list, &all), "/a/b/runtime/python/bin/python3.12");
    assert_eq!(python_executable(None, &list, &none), "python3");
    let two = |c: &String| c == "/a/b/.venv/bin/python" || c == "/runtime/python/bin/python3";
    assert_eq!(python_executable(None, &list, &two), "/runtime/python/bin/python3");
    assert_eq!(
        python_executable(None, &list, &only("/a/b/.venv/bin/python")),
        "/a/b/.venv/bin/python"
    );
}

#[test]
fn tools_are_searched_in_order() {
    let asked = RefCell::new(Vec::new());
    let nothing = |candidate: &String| {
        asked.borrow_mut().push(candidate.clone());
        false
    };
    assert_eq!(resolve_tool("ffmpeg", Some("/own/ffmpeg".to_string()), &nothing), None);
    assert_eq!(
        asked.into_inner(),
        vec![
            "ffmpeg",
            "/own/ffmpeg",
            "/opt/homebrew/bin/ffmpeg",
            "/usr/local/bin/ffmpeg",
            "/usr/bin/ffmpeg",
        ]
    );
    assert_eq!(
        resolve_tool("ffmpeg", None, &only("/usr/bin/ffmpeg")),
        Some("/usr/bin/ffmpeg".to_string())
    );
    assert_eq!(resolve_tool("ffmpeg", None, &|_: &String| true), Some("ffmpeg".to_string()));
}

#[test]
fn bundled_tools_stand_in_resources() {
    assert_eq!(
        bundled_tool_candidate("/app/bin", "ffmpeg", &only("/app/Resources/bin/ffmpeg")),
        Some("/app/Resources/bin/ffmpeg".to_string())
    );
    assert_eq!(bundled_tool_candidate("/app/bin", "ffmpeg", &|_: &String| false), None);
}

#[test]
fn tools_are_probed() {
    assert_eq!(probe_argument("afconvert"), "-h");
    assert_eq!(probe_argument("ffmpeg"), "-version");
}
