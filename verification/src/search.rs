//! Where programs and files are looked for.

use vstd::prelude::*;

use crate::clean;
use crate::errors::Failure;
use crate::paths;
use crate::text;

verus! {

broadcast use vstd::string::group_string_axioms;

// ---------------------------------------------------------------------------
// Places
// ---------------------------------------------------------------------------

/// The directories that hold the roots, from each root up, one root behind the
/// other.
pub open spec fn all_ancestors(roots: Seq<Seq<char>>) -> Seq<Seq<char>>
    decreases roots.len(),
{
    if roots.len() == 0 {
        Seq::empty()
    } else {
        all_ancestors(roots.drop_last()) + paths::ancestors_of(roots.last())
    }
}

/// The directory that an application bundle keeps its files in.
pub open spec fn resources(dir: Seq<char>) -> Seq<char> {
    paths::joined(dir, "Resources"@)
}

/// The places for a project root: each directory, and its resources.
pub open spec fn root_places(dirs: Seq<Seq<char>>) -> Seq<Seq<char>>
    decreases dirs.len(),
{
    if dirs.len() == 0 {
        Seq::empty()
    } else {
        root_places(dirs.drop_last()) + seq![dirs.last(), resources(dirs.last())]
    }
}

/// The places for something that belongs to the program: below each directory,
/// and below its resources.
pub open spec fn runtime_places(dirs: Seq<Seq<char>>, relative: Seq<char>) -> Seq<Seq<char>>
    decreases dirs.len(),
{
    if dirs.len() == 0 {
        Seq::empty()
    } else {
        runtime_places(dirs.drop_last(), relative) + seq![
            paths::joined(dirs.last(), relative),
            paths::joined(resources(dirs.last()), relative),
        ]
    }
}

/// The places for a tool that comes with the program.
pub open spec fn bundled_places(dirs: Seq<Seq<char>>, name: Seq<char>) -> Seq<Seq<char>> {
    dirs.map_values(|dir: Seq<char>| paths::joined(paths::joined(resources(dir), "bin"@), name))
}

/// The places for a tool: where the system finds it, where it comes with the
/// program, and where it is installed most often.
pub open spec fn tool_places(name: Seq<char>, bundled: Option<Seq<char>>) -> Seq<Seq<char>> {
    let own = match bundled {
        Some(path) => seq![path],
        None => Seq::empty(),
    };
    seq![name] + own + seq![
        "/opt/homebrew/bin/"@ + name,
        "/usr/local/bin/"@ + name,
        "/usr/bin/"@ + name,
    ]
}

/// The places for Python, the most wanted first.
pub open spec fn python_places(dirs: Seq<Seq<char>>) -> Seq<Seq<char>> {
    runtime_places(dirs, "runtime/python/bin/python3.12"@) + runtime_places(
        dirs,
        "runtime/python/bin/python3"@,
    ) + runtime_places(dirs, "runtime/python/bin/python"@) + runtime_places(
        dirs,
        ".venv/bin/python"@,
    )
}

/// The script that drives the speech model, below the project root.
pub const BRIDGE_SCRIPT: &'static str = "scripts/kokoro_bridge.py";

/// The Python packages that come with the program.
pub const SITE_PACKAGES: &'static str = "runtime/site-packages";

// ---------------------------------------------------------------------------
// The first place that will do
// ---------------------------------------------------------------------------

/// The path is the first of the candidates for which the test came out true:
/// it came out false for all before it.
pub open spec fn is_first<F: Fn(&String) -> bool>(
    path: Seq<char>,
    candidates: Seq<String>,
    test: F,
) -> bool {
    exists|i: int|
        {
            &&& 0 <= i < candidates.len()
            &&& path == (#[trigger] candidates[i])@
            &&& test.ensures((&candidates[i],), true)
            &&& forall|j: int|
                0 <= j < i ==> test.ensures((&#[trigger] candidates[j],), false)
        }
}

/// The test came out false for every candidate.
pub open spec fn is_none<F: Fn(&String) -> bool>(candidates: Seq<String>, test: F) -> bool {
    forall|j: int| 0 <= j < candidates.len() ==> test.ensures((&#[trigger] candidates[j],), false)
}

/// What a search among these places came to: the first place that passed the
/// test, or nothing where none did.
pub open spec fn is_found<F: Fn(&String) -> bool>(
    found: Option<Seq<char>>,
    places: Seq<Seq<char>>,
    test: F,
) -> bool {
    exists|candidates: Seq<String>|
        {
            &&& #[trigger] text::contents(candidates) == places
            &&& match found {
                Some(path) => is_first(path, candidates, test),
                None => is_none(candidates, test),
            }
        }
}

/// The first candidate that passes the test.
fn find_first<F: Fn(&String) -> bool>(candidates: &Vec<String>, test: &F) -> (r: Option<String>)
    requires
        forall|s: &String| test.requires((s,)),
    ensures
        is_found(paths::content(r), text::contents(candidates@), *test),
{
    let mut i: usize = 0;
    while i < candidates.len()
        invariant
            i <= candidates@.len(),
            forall|s: &String| test.requires((s,)),
            forall|j: int|
                0 <= j < i ==> test.ensures((&#[trigger] candidates@[j],), false),
        decreases candidates@.len() - i,
    {
        let candidate = &candidates[i];
        if test(candidate) {
            let found = candidate.as_str().to_owned();
            proof {
                assert(is_first(found@, candidates@, *test)) by {
                    assert(candidates@[i as int]@ == found@);
                }
                assert(text::contents(candidates@) == text::contents(candidates@));
            }
            return Some(found);
        }
        i += 1;
    }
    proof {
        assert(is_none(candidates@, *test));
        assert(text::contents(candidates@) == text::contents(candidates@));
    }
    None
}

// ---------------------------------------------------------------------------
// Searches
// ---------------------------------------------------------------------------

fn list_ancestors(roots: &Vec<String>) -> (r: Vec<String>)
    ensures
        text::contents(r@) == all_ancestors(text::contents(roots@)),
{
    let ghost all = text::contents(roots@);
    let mut dirs: Vec<String> = Vec::new();
    let mut i: usize = 0;
    proof {
        assert(text::contents(dirs@) =~= all_ancestors(all.take(0)));
    }
    while i < roots.len()
        invariant
            all == text::contents(roots@),
            i <= roots@.len(),
            text::contents(dirs@) == all_ancestors(all.take(i as int)),
        decreases roots@.len() - i,
    {
        let ghost before = dirs@;
        let mut more = paths::ancestors(roots[i].as_str());
        let ghost added = more@;
        dirs.append(&mut more);
        proof {
            assert(dirs@ =~= before + added);
            assert(text::contents(dirs@) =~= text::contents(before) + text::contents(added));
            assert(all.take(i + 1).drop_last() =~= all.take(i as int));
            assert(all.take(i + 1).last() == roots@[i as int]@);
        }
        i += 1;
    }
    proof {
        assert(all.take(i as int) =~= all);
    }
    dirs
}

fn list_runtime_places(dirs: &Vec<String>, relative: &str) -> (r: Vec<String>)
    ensures
        text::contents(r@) == runtime_places(text::contents(dirs@), relative@),
{
    let ghost all = text::contents(dirs@);
    let mut places: Vec<String> = Vec::new();
    let mut i: usize = 0;
    proof {
        assert(text::contents(places@) =~= runtime_places(all.take(0), relative@));
    }
    while i < dirs.len()
        invariant
            all == text::contents(dirs@),
            i <= dirs@.len(),
            text::contents(places@) == runtime_places(all.take(i as int), relative@),
        decreases dirs@.len() - i,
    {
        let ghost before = text::contents(places@);
        let dir = dirs[i].as_str();
        places.push(paths::join(dir, relative));
        places.push(paths::join(paths::join(dir, "Resources").as_str(), relative));
        proof {
            assert(text::contents(places@) =~= before + seq![
                paths::joined(dir@, relative@),
                paths::joined(resources(dir@), relative@),
            ]);
            assert(all.take(i + 1).drop_last() =~= all.take(i as int));
            assert(all.take(i + 1).last() == dir@);
        }
        i += 1;
    }
    proof {
        assert(all.take(i as int) =~= all);
    }
    places
}

/// The project root: the first directory that holds what a project root holds,
/// in or above one of the roots or in the resources there.
pub fn project_root<F: Fn(&String) -> bool>(roots: &Vec<String>, holds_all: &F) -> (r: Result<
    String,
    Failure,
>)
    requires
        forall|s: &String| holds_all.requires((s,)),
    ensures
        match r {
            Ok(root) => is_found(
                Some(root@),
                root_places(all_ancestors(text::contents(roots@))),
                *holds_all,
            ),
            Err(Failure::RootMissing { searched }) => {
                &&& is_found(
                    None,
                    root_places(all_ancestors(text::contents(roots@))),
                    *holds_all,
                )
                &&& searched@ == clean::joined(all_ancestors(text::contents(roots@)), ", "@)
            },
            Err(_) => false,
        },
{
    let dirs = list_ancestors(roots);
    let ghost all = text::contents(dirs@);
    let mut places: Vec<String> = Vec::new();
    let mut i: usize = 0;
    proof {
        assert(text::contents(places@) =~= root_places(all.take(0)));
    }
    while i < dirs.len()
        invariant
            all == text::contents(dirs@),
            i <= dirs@.len(),
            text::contents(places@) == root_places(all.take(i as int)),
        decreases dirs@.len() - i,
    {
        let ghost before = text::contents(places@);
        let dir = dirs[i].as_str();
        places.push(dir.to_owned());
        places.push(paths::join(dir, "Resources"));
        proof {
            assert(text::contents(places@) =~= before + seq![dir@, resources(dir@)]);
            assert(all.take(i + 1).drop_last() =~= all.take(i as int));
            assert(all.take(i + 1).last() == dir@);
        }
        i += 1;
    }
    proof {
        assert(all.take(i as int) =~= all);
    }
    match find_first(&places, holds_all) {
        Some(root) => Ok(root),
        None => Err(Failure::RootMissing { searched: clean::join(&dirs, ", ") }),
    }
}

/// Something that belongs to the program: the first that exists, below one of
/// the directories in which the roots are or below the resources there.
pub fn find_from_runtime_roots<F: Fn(&String) -> bool>(
    roots: &Vec<String>,
    relative: &str,
    exists: &F,
) -> (r: Option<String>)
    requires
        forall|s: &String| exists.requires((s,)),
    ensures
        is_found(
            paths::content(r),
            runtime_places(all_ancestors(text::contents(roots@)), relative@),
            *exists,
        ),
{
    let dirs = list_ancestors(roots);
    let places = list_runtime_places(&dirs, relative);
    find_first(&places, exists)
}

/// The script that drives the speech model.
pub fn bridge_script_path<F: Fn(&String) -> bool>(roots: &Vec<String>, exists: &F) -> (r: Result<
    String,
    Failure,
>)
    requires
        forall|s: &String| exists.requires((s,)),
    ensures
        match r {
            Ok(path) => is_found(
                Some(path@),
                runtime_places(all_ancestors(text::contents(roots@)), BRIDGE_SCRIPT@),
                *exists,
            ),
            Err(Failure::BridgeScriptNotFound) => is_found(
                None,
                runtime_places(all_ancestors(text::contents(roots@)), BRIDGE_SCRIPT@),
                *exists,
            ),
            Err(_) => false,
        },
{
    match find_from_runtime_roots(roots, BRIDGE_SCRIPT, exists) {
        Some(path) => Ok(path),
        None => Err(Failure::BridgeScriptNotFound),
    }
}

/// Python: what the user asks for, or else the first that comes with the
/// program, or else what the system finds.
pub fn python_executable<F: Fn(&String) -> bool>(
    wanted: Option<String>,
    roots: &Vec<String>,
    exists: &F,
) -> (r: String)
    requires
        forall|s: &String| exists.requires((s,)),
    ensures
        match wanted {
            Some(path) => r@ == path@,
            None => {
                let places = python_places(all_ancestors(text::contents(roots@)));
                is_found(Some(r@), places, *exists) || (r@ == "python3"@ && is_found(
                    None,
                    places,
                    *exists,
                ))
            },
        },
{
    match wanted {
        Some(path) => {
            return path;
        },
        None => {},
    }
    let dirs = list_ancestors(roots);
    let mut places = list_runtime_places(&dirs, "runtime/python/bin/python3.12");
    let mut second = list_runtime_places(&dirs, "runtime/python/bin/python3");
    let mut third = list_runtime_places(&dirs, "runtime/python/bin/python");
    let mut fourth = list_runtime_places(&dirs, ".venv/bin/python");
    let ghost parts = (places@, second@, third@, fourth@);
    places.append(&mut second);
    places.append(&mut third);
    places.append(&mut fourth);
    proof {
        assert(places@ =~= parts.0 + parts.1 + parts.2 + parts.3);
        assert(text::contents(places@) =~= python_places(text::contents(dirs@)));
    }
    match find_first(&places, exists) {
        Some(path) => path,
        None => "python3".to_owned(),
    }
}

/// A tool that comes with the program: the first that exists in the resources
/// of a directory in which the program is. `parent` is the directory of the
/// program.
pub fn bundled_tool_candidate<F: Fn(&String) -> bool>(
    parent: &str,
    name: &str,
    exists: &F,
) -> (r: Option<String>)
    requires
        forall|s: &String| exists.requires((s,)),
    ensures
        is_found(
            paths::content(r),
            bundled_places(paths::ancestors_of(parent@), name@),
            *exists,
        ),
{
    let dirs = paths::ancestors(parent);
    let ghost all = bundled_places(text::contents(dirs@), name@);
    let mut places: Vec<String> = Vec::new();
    let mut i: usize = 0;
    while i < dirs.len()
        invariant
            all == bundled_places(text::contents(dirs@), name@),
            i <= dirs@.len(),
            text::contents(places@) == all.take(i as int),
        decreases dirs@.len() - i,
    {
        let ghost before = text::contents(places@);
        let bin = paths::join(paths::join(dirs[i].as_str(), "Resources").as_str(), "bin");
        let place = paths::join(bin.as_str(), name);
        proof {
            assert(all[i as int] == place@);
        }
        places.push(place);
        proof {
            assert(text::contents(places@) =~= before.push(all[i as int]));
            assert(all.take(i + 1) =~= all.take(i as int).push(all[i as int]));
        }
        i += 1;
    }
    proof {
        assert(all.take(i as int) =~= all);
    }
    find_first(&places, exists)
}

/// A tool: the first that responds. `bundled` is the one that comes with the
/// program.
pub fn resolve_tool<F: Fn(&String) -> bool>(
    name: &str,
    bundled: Option<String>,
    responds: &F,
) -> (r: Option<String>)
    requires
        forall|s: &String| responds.requires((s,)),
    ensures
        is_found(paths::content(r), tool_places(name@, paths::content(bundled)), *responds),
{
    let ghost own = paths::content(bundled);
    let mut places: Vec<String> = Vec::new();
    places.push(name.to_owned());
    match bundled {
        Some(path) => {
            places.push(path);
        },
        None => {},
    }
    places.push(below("/opt/homebrew/bin/", name));
    places.push(below("/usr/local/bin/", name));
    places.push(below("/usr/bin/", name));
    proof {
        assert(text::contents(places@) =~= tool_places(name@, own));
    }
    find_first(&places, responds)
}

fn below(dir: &str, name: &str) -> (r: String)
    ensures
        r@ == dir@ + name@,
{
    let mut path = dir.to_owned();
    path.append(name);
    path
}

/// The argument with which a tool is asked whether it is there.
pub fn probe_argument(name: &str) -> (r: &'static str)
    ensures
        r@ == if name@ == "afconvert"@ {
            "-h"@
        } else {
            "-version"@
        },
{
    if text::same_text(name, "afconvert") {
        "-h"
    } else {
        "-version"
    }
}

// ---------------------------------------------------------------------------
// Laws
// ---------------------------------------------------------------------------

/// The first of the places that has the property.
pub open spec fn first_with(
    places: Seq<Seq<char>>,
    property: spec_fn(Seq<char>) -> bool,
) -> Option<Seq<char>>
    decreases places.len(),
{
    if places.len() == 0 {
        None
    } else if property(places[0]) {
        Some(places[0])
    } else {
        first_with(places.skip(1), property)
    }
}

proof fn lemma_first_with(
    places: Seq<Seq<char>>,
    property: spec_fn(Seq<char>) -> bool,
    i: int,
)
    requires
        0 <= i <= places.len(),
        forall|j: int| 0 <= j < i ==> !property(#[trigger] places[j]),
        i < places.len() ==> property(places[i]),
    ensures
        first_with(places, property) == if i < places.len() {
            Some(places[i])
        } else {
            None
        },
    decreases places.len(),
{
    if places.len() > 0 && i > 0 {
        assert(!property(places[0]));
        let rest = places.skip(1);
        assert forall|j: int| 0 <= j < i - 1 implies !property(#[trigger] rest[j]) by {
            assert(rest[j] == places[j + 1]);
        }
        lemma_first_with(rest, property, i - 1);
    }
}

/// A test that asks for a property of the path finds the first path that has
/// the property, and finds none only where no path has it.
pub proof fn law_search_finds_the_first<F: Fn(&String) -> bool>(
    found: Option<Seq<char>>,
    places: Seq<Seq<char>>,
    test: F,
    property: spec_fn(Seq<char>) -> bool,
)
    requires
        is_found(found, places, test),
        forall|s: &String, answer: bool|
            #[trigger] test.ensures((s,), answer) ==> answer == property(s@),
    ensures
        found == first_with(places, property),
{
    let candidates = choose|candidates: Seq<String>|
        {
            &&& #[trigger] text::contents(candidates) == places
            &&& match found {
                Some(path) => is_first(path, candidates, test),
                None => is_none(candidates, test),
            }
        };
    match found {
        Some(path) => {
            let i = choose|i: int|
                {
                    &&& 0 <= i < candidates.len()
                    &&& path == (#[trigger] candidates[i])@
                    &&& test.ensures((&candidates[i],), true)
                    &&& forall|j: int|
                        0 <= j < i ==> test.ensures((&#[trigger] candidates[j],), false)
                };
            assert forall|j: int| 0 <= j < i implies !property(#[trigger] places[j]) by {
                assert(places[j] == candidates[j]@);
                assert(test.ensures((&candidates[j],), false));
            }
            lemma_first_with(places, property, i);
        },
        None => {
            assert forall|j: int| 0 <= j < places.len() implies !property(
                #[trigger] places[j],
            ) by {
                assert(places[j] == candidates[j]@);
                assert(test.ensures((&candidates[j],), false));
            }
            lemma_first_with(places, property, places.len() as int);
        },
    }
}

} // verus!
