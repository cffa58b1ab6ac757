//! Which places a search goes through.

use vstd::prelude::*;

use crate::audio;
use crate::paths;
use crate::search;

verus! {

/// The ancestors of all roots are those of the first roots and then those of the
/// others.
pub proof fn law_every_root_is_followed_up(a: Seq<Seq<char>>, b: Seq<Seq<char>>)
    ensures
        search::all_ancestors(a + b) == search::all_ancestors(a) + search::all_ancestors(b),
    decreases b.len(),
{
    if b.len() == 0 {
        assert(a + b =~= a);
        assert(search::all_ancestors(a) + search::all_ancestors(b) =~= search::all_ancestors(a));
    } else {
        assert((a + b).drop_last() =~= a + b.drop_last());
        law_every_root_is_followed_up(a, b.drop_last());
        assert(search::all_ancestors(a + b) =~= search::all_ancestors(a) + search::all_ancestors(b));
    }
}

/// A single root gives its own ancestors.
pub proof fn law_a_root_gives_its_ancestors(root: Seq<char>)
    ensures
        search::all_ancestors(seq![root]) == paths::ancestors_of(root),
{
    let one = seq![root];
    assert(one.drop_last() =~= Seq::<Seq<char>>::empty());
    assert(search::all_ancestors(one.drop_last()) =~= Seq::<Seq<char>>::empty());
    assert(search::all_ancestors(one) =~= paths::ancestors_of(root));
}

/// A project root is looked for in each directory, and directly behind it in the
/// resources of that directory.
pub proof fn law_roots_are_looked_for_everywhere(dirs: Seq<Seq<char>>, i: int)
    requires
        0 <= i < dirs.len(),
    ensures
        search::root_places(dirs).len() == 2 * dirs.len(),
        search::root_places(dirs)[2 * i] == dirs[i],
        search::root_places(dirs)[2 * i + 1] == paths::joined(dirs[i], "Resources"@),
    decreases dirs.len(),
{
    let front = dirs.drop_last();
    let all = search::root_places(dirs);
    let before = search::root_places(front);
    if front.len() == 0 {
        assert(before =~= Seq::<Seq<char>>::empty());
    } else if i < front.len() {
        law_roots_are_looked_for_everywhere(front, i);
        assert(all[2 * i] == before[2 * i]);
        assert(all[2 * i + 1] == before[2 * i + 1]);
    } else {
        law_roots_are_looked_for_everywhere(front, 0);
    }
}

/// What belongs to the program is looked for below each directory, and directly
/// behind that below the resources of the directory.
pub proof fn law_files_are_looked_for_everywhere(
    dirs: Seq<Seq<char>>,
    relative: Seq<char>,
    i: int,
)
    requires
        0 <= i < dirs.len(),
    ensures
        search::runtime_places(dirs, relative).len() == 2 * dirs.len(),
        search::runtime_places(dirs, relative)[2 * i] == paths::joined(dirs[i], relative),
        search::runtime_places(dirs, relative)[2 * i + 1] == paths::joined(
            paths::joined(dirs[i], "Resources"@),
            relative,
        ),
    decreases dirs.len(),
{
    let front = dirs.drop_last();
    let all = search::runtime_places(dirs, relative);
    let before = search::runtime_places(front, relative);
    if front.len() == 0 {
        assert(before =~= Seq::<Seq<char>>::empty());
    } else if i < front.len() {
        law_files_are_looked_for_everywhere(front, relative, i);
        assert(all[2 * i] == before[2 * i]);
        assert(all[2 * i + 1] == before[2 * i + 1]);
    } else {
        law_files_are_looked_for_everywhere(front, relative, 0);
    }
}

/// A tool that comes with the program is looked for in the resources of each
/// directory.
pub proof fn law_tools_are_looked_for_everywhere(dirs: Seq<Seq<char>>, name: Seq<char>, i: int)
    requires
        0 <= i < dirs.len(),
    ensures
        search::bundled_places(dirs, name).len() == dirs.len(),
        search::bundled_places(dirs, name)[i] == paths::joined(
            paths::joined(paths::joined(dirs[i], "Resources"@), "bin"@),
            name,
        ),
{
}

/// A tool is looked for by its bare name first, then where it comes with the
/// program, and then in three directories.
pub proof fn law_places_of_a_tool(name: Seq<char>, bundled: Seq<char>)
    ensures
        search::tool_places(name, Some(bundled)).take(2) == seq![name, bundled],
        search::tool_places(name, Some(bundled)).skip(2) == search::tool_places(name, None).skip(1),
        search::tool_places(name, None).len() == 4,
        search::tool_places(name, None)[0] == name,
        search::tool_places(name, None)[1] == "/opt/homebrew/bin/"@ + name,
        search::tool_places(name, None)[2] == "/usr/local/bin/"@ + name,
        search::tool_places(name, None)[3] == "/usr/bin/"@ + name,
{
    assert(search::tool_places(name, Some(bundled)).take(2) =~= seq![name, bundled]);
    assert(search::tool_places(name, Some(bundled)).skip(2) =~= search::tool_places(
        name,
        None,
    ).skip(1));
}

/// Python is looked for under four names, in all places under one name before any
/// under the next.
pub proof fn law_places_of_python(dirs: Seq<Seq<char>>, i: int)
    requires
        0 <= i < dirs.len(),
    ensures
        search::python_places(dirs).len() == 8 * dirs.len(),
        search::python_places(dirs)[2 * i] == paths::joined(
            dirs[i],
            "runtime/python/bin/python3.12"@,
        ),
        search::python_places(dirs)[2 * dirs.len() + 2 * i] == paths::joined(
            dirs[i],
            "runtime/python/bin/python3"@,
        ),
        search::python_places(dirs)[4 * dirs.len() + 2 * i] == paths::joined(
            dirs[i],
            "runtime/python/bin/python"@,
        ),
        search::python_places(dirs)[6 * dirs.len() + 2 * i] == paths::joined(
            dirs[i],
            ".venv/bin/python"@,
        ),
        search::python_places(dirs)[2 * i + 1] == paths::joined(
            paths::joined(dirs[i], "Resources"@),
            "runtime/python/bin/python3.12"@,
        ),
        search::python_places(dirs)[2 * dirs.len() + 2 * i + 1] == paths::joined(
            paths::joined(dirs[i], "Resources"@),
            "runtime/python/bin/python3"@,
        ),
        search::python_places(dirs)[4 * dirs.len() + 2 * i + 1] == paths::joined(
            paths::joined(dirs[i], "Resources"@),
            "runtime/python/bin/python"@,
        ),
        search::python_places(dirs)[6 * dirs.len() + 2 * i + 1] == paths::joined(
            paths::joined(dirs[i], "Resources"@),
            ".venv/bin/python"@,
        ),
{
    law_files_are_looked_for_everywhere(dirs, "runtime/python/bin/python3.12"@, i);
    law_files_are_looked_for_everywhere(dirs, "runtime/python/bin/python3"@, i);
    law_files_are_looked_for_everywhere(dirs, "runtime/python/bin/python"@, i);
    law_files_are_looked_for_everywhere(dirs, ".venv/bin/python"@, i);
}

/// A file beside the first of several stands in the directory of that file,
/// whatever the others are.
pub proof fn law_beside_the_first(dir: Seq<char>, name: Seq<char>, others: Seq<Seq<char>>)
    requires
        paths::is_plain_name(name),
    ensures
        audio::first_dir(seq![paths::joined(dir, name)] + others) == paths::stripped(dir),
        audio::first_dir(Seq::empty()) == seq!['.'],
{
    let all = seq![paths::joined(dir, name)] + others;
    assert(all[0] == paths::joined(dir, name));
    paths::law_joined_name_stays_below(dir, name);
    reveal_strlit(".");
    assert("."@ =~= seq!['.']);
}

} // verus!
