//! How the parts of a path relate to the path.

use vstd::prelude::*;

use crate::clean_laws;
use crate::output;
use crate::paths;
use crate::text;
use crate::text_laws;

verus! {

// ---------------------------------------------------------------------------
// Names, stems and extensions
// ---------------------------------------------------------------------------

proof fn lemma_last_dot_is(stem: Seq<char>, ending: Seq<char>)
    requires
        clean_laws::lacks(ending, '.'),
    ensures
        paths::last_dot(stem + seq!['.'] + ending) == stem.len(),
    decreases ending.len(),
{
    let name = stem + seq!['.'] + ending;
    if ending.len() == 0 {
        assert(name.last() == '.');
    } else {
        assert(name.last() == ending.last());
        assert(ending[ending.len() - 1] != '.');
        assert(name.drop_last() =~= stem + seq!['.'] + ending.drop_last());
        lemma_last_dot_is(stem, ending.drop_last());
    }
}

proof fn lemma_last_dot(name: Seq<char>)
    ensures
        -1 <= paths::last_dot(name) < name.len(),
        paths::last_dot(name) >= 0 ==> name[paths::last_dot(name)] == '.',
        forall|i: int| paths::last_dot(name) < i < name.len() ==> #[trigger] name[i] != '.',
    decreases name.len(),
{
    if name.len() > 0 && name.last() != '.' {
        let front = name.drop_last();
        lemma_last_dot(front);
        assert forall|i: int| paths::last_dot(name) < i < name.len() implies #[trigger] name[i]
            != '.' by {
            if i < front.len() {
                assert(front[i] == name[i]);
            }
        }
    }
}

/// A file in a directory whose name is a stem, a dot and an ending without a dot
/// has that stem and that ending, however long they are.
pub proof fn law_names_have_a_stem_and_an_ending(
    dir: Seq<char>,
    stem: Seq<char>,
    ending: Seq<char>,
)
    requires
        stem.len() > 0,
        clean_laws::lacks(stem, '/'),
        clean_laws::lacks(ending, '/'),
        clean_laws::lacks(ending, '.'),
        stem != seq!['.'] || ending.len() > 0,
    ensures
        paths::stem_of(paths::joined(dir, stem + seq!['.'] + ending)) == Some(stem),
        paths::extension_of(paths::joined(dir, stem + seq!['.'] + ending)) == Some(ending),
{
    let name = stem + seq!['.'] + ending;
    let k = stem.len() as int;
    assert forall|i: int| 0 <= i < name.len() implies #[trigger] name[i] != '/' by {
        if i < k {
            assert(name[i] == stem[i]);
        } else if i > k {
            assert(name[i] == ending[i - k - 1]);
        }
    }
    assert(name.len() >= 2);
    if name == seq!['.', '.'] {
        assert(name[0] == stem[0]);
        assert(stem =~= seq!['.']);
    }
    paths::law_joined_name_stays_below(dir, name);
    lemma_last_dot_is(stem, ending);
    assert(name.take(k) =~= stem);
    assert(name.skip(k + 1) =~= ending);
}

/// A file in a directory whose name has no dot, or only one in front, has its name
/// as its stem, and no ending.
pub proof fn law_names_without_an_ending(dir: Seq<char>, name: Seq<char>)
    requires
        paths::is_plain_name(name),
        forall|i: int| 0 < i < name.len() ==> #[trigger] name[i] != '.',
    ensures
        paths::stem_of(paths::joined(dir, name)) == Some(name),
        paths::extension_of(paths::joined(dir, name)) is None,
{
    paths::law_joined_name_stays_below(dir, name);
    lemma_last_dot(name);
    assert(paths::last_dot(name) <= 0);
    assert(name.take(name.len() as int) =~= name);
}

/// Where a path has an extension, its stem, a dot and the extension together are
/// its name. Elsewhere its stem is its name.
pub proof fn law_stem_and_extension_are_the_name(p: Seq<char>)
    ensures
        match paths::extension_of(p) {
            Some(ending) => {
                &&& paths::stem_of(p) matches Some(stem)
                &&& stem.len() > 0
                &&& clean_laws::lacks(ending, '.')
                &&& paths::name_of(p) == Some(stem + seq!['.'] + ending)
            },
            None => paths::stem_of(p) == paths::name_of(p),
        },
{
    match paths::name_of(p) {
        Some(name) => {
            lemma_last_dot(name);
            let d = paths::dot_at(name) as int;
            if d < name.len() {
                let ending = name.skip(d + 1);
                assert(name =~= name.take(d) + seq!['.'] + ending);
                assert forall|i: int| 0 <= i < ending.len() implies #[trigger] ending[i] != '.' by {
                    assert(ending[i] == name[d + 1 + i]);
                }
            } else {
                assert(name.take(d) =~= name);
            }
        },
        None => {},
    }
}

/// An ASCII letter stands for itself in either case.
pub proof fn law_lower_case(c: char)
    ensures
        'A' <= c <= 'Z' ==> 'a' <= paths::lower(c) <= 'z' && paths::lower(c) as u32 - 'a' as u32
            == c as u32 - 'A' as u32,
        !('A' <= c <= 'Z') ==> paths::lower(c) == c,
{
}

/// Two texts are the same but for case exactly where they are equal in lower
/// case.
pub proof fn law_case_does_not_count(a: Seq<char>, b: Seq<char>)
    ensures
        paths::same_but_for_case(a, b) <==> a.map_values(|c: char| paths::lower(c))
            == b.map_values(|c: char| paths::lower(c)),
{
    let x = a.map_values(|c: char| paths::lower(c));
    let y = b.map_values(|c: char| paths::lower(c));
    if paths::same_but_for_case(a, b) {
        assert(x =~= y);
    } else if x == y {
        assert(a.len() == x.len() && b.len() == y.len());
        assert forall|i: int| 0 <= i < a.len() implies paths::lower(#[trigger] a[i])
            == paths::lower(b[i]) by {
            assert(x[i] == y[i]);
        }
    }
}

/// Whether a file has an extension depends on the ending of its name alone.
pub proof fn law_the_ending_is_the_extension(
    dir: Seq<char>,
    stem: Seq<char>,
    ending: Seq<char>,
    extension: Seq<char>,
)
    requires
        stem.len() > 0,
        clean_laws::lacks(stem, '/'),
        clean_laws::lacks(ending, '/'),
        clean_laws::lacks(ending, '.'),
        stem != seq!['.'] || ending.len() > 0,
    ensures
        paths::is_extension_of(paths::joined(dir, stem + seq!['.'] + ending), extension)
            <==> ending.map_values(|c: char| paths::lower(c)) == extension.map_values(
            |c: char| paths::lower(c),
        ),
{
    law_names_have_a_stem_and_an_ending(dir, stem, ending);
    law_case_does_not_count(ending, extension);
}

// ---------------------------------------------------------------------------
// Directories
// ---------------------------------------------------------------------------

/// Nothing is stripped from a path that ends neither in a separator nor in a
/// component that is a dot.
pub proof fn law_paths_without_a_tail_stay(p: Seq<char>)
    requires
        p.len() > 0 ==> p.last() != '/',
        p.len() > 1 && p.last() == '.' ==> p[p.len() - 2] != '/',
    ensures
        paths::stripped(p) == p,
{
}

/// A separator, or a separator and a dot, behind a path changes neither its name
/// nor its parent.
pub proof fn law_a_tail_changes_nothing(p: Seq<char>)
    requires
        p.len() > 0,
    ensures
        paths::stripped(p + seq!['/']) == paths::stripped(p),
        paths::stripped(p + seq!['/', '.']) == paths::stripped(p),
        paths::name_of(p + seq!['/']) == paths::name_of(p),
        paths::name_of(p + seq!['/', '.']) == paths::name_of(p),
        paths::parent_of(p + seq!['/']) == paths::parent_of(p),
        paths::parent_of(p + seq!['/', '.']) == paths::parent_of(p),
{
    let one = p + seq!['/'];
    let two = p + seq!['/', '.'];
    assert(one.last() == '/');
    assert(one.drop_last() =~= p);
    assert(paths::stripped(one) == paths::stripped(p));
    assert(two.last() == '.');
    assert(two[two.len() - 2] == '/');
    assert(two.drop_last() =~= one);
    assert(paths::stripped(two) == paths::stripped(one));
}

/// The root is its own directory: it has no name and no parent.
pub proof fn law_the_root_has_no_parent()
    ensures
        paths::stripped(seq!['/']) == seq!['/'],
        paths::parent_of(seq!['/']) is None,
        paths::name_of(seq!['/']) is None,
        paths::parent_of(Seq::empty()) is None,
        paths::name_of(Seq::empty()) is None,
{
    let root = seq!['/'];
    assert(paths::stripped(root) == root);
    assert(root.last() == '/');
    assert(paths::name_start(root) == 1);
    assert(root.skip(1).len() == 0);
    let none = Seq::<char>::empty();
    assert(paths::stripped(none) == none);
    assert(paths::name_start(none) == 0);
    assert(none.skip(0).len() == 0);
}

/// A file in a directory has the directory as its parent, a file in the root the
/// root, and a bare name the empty path.
pub proof fn law_the_directory_is_the_parent(dir: Seq<char>, name: Seq<char>)
    requires
        paths::is_plain_name(name),
        dir.len() > 0,
        dir.last() != '/',
        dir.len() > 1 && dir.last() == '.' ==> dir[dir.len() - 2] != '/',
    ensures
        paths::parent_of(dir + seq!['/'] + name) == Some(dir),
        paths::name_of(dir + seq!['/'] + name) == Some(name),
        paths::parent_of(seq!['/'] + name) == Some(seq!['/']),
        paths::name_of(seq!['/'] + name) == Some(name),
        paths::parent_of(name) == Some(Seq::<char>::empty()),
        paths::name_of(name) == Some(name),
{
    let none = Seq::<char>::empty();
    let root = seq!['/'];
    assert(name[0] != '/');
    paths::law_joined_name_stays_below(dir, name);
    law_paths_without_a_tail_stay(dir);
    assert(paths::joined(dir, name) =~= dir + seq!['/'] + name);
    paths::law_joined_name_stays_below(root, name);
    law_the_root_has_no_parent();
    assert(paths::joined(root, name) =~= root + name);
    paths::law_joined_name_stays_below(none, name);
    assert(paths::stripped(none) =~= none);
    assert(paths::joined(none, name) =~= name);
}

/// The first ancestor of a path is the path itself, each other is the parent of the
/// one before, and the last has no parent.
pub proof fn law_ancestors_go_up_to_the_top(p: Seq<char>)
    ensures
        paths::ancestors_of(p).len() > 0,
        paths::ancestors_of(p)[0] == p,
        forall|i: int, j: int|
            0 <= i && j == i + 1 && j < paths::ancestors_of(p).len() ==> paths::parent_of(
                #[trigger] paths::ancestors_of(p)[i],
            ) == Some(#[trigger] paths::ancestors_of(p)[j]),
        paths::parent_of(paths::ancestors_of(p).last()) is None,
    decreases p.len(),
{
    let all = paths::ancestors_of(p);
    match paths::parent_of(p) {
        Some(parent) => {
            paths::lemma_parent_is_shorter(p);
            law_ancestors_go_up_to_the_top(parent);
            let rest = paths::ancestors_of(parent);
            assert(all == seq![p] + rest);
            assert(all.last() == rest.last());
            assert forall|i: int, j: int| 0 <= i && j == i + 1 && j < all.len() implies
                paths::parent_of(#[trigger] all[i]) == Some(#[trigger] all[j]) by {
                assert(all[j] == rest[j - 1]);
                if i > 0 {
                    assert(all[i] == rest[i - 1]);
                }
            }
        },
        None => {},
    }
}

/// A path below another starts with the other and ends with what was joined to it,
/// with one separator between them. A path that starts at the root stands alone.
pub proof fn law_joined_paths_hold_both(base: Seq<char>, below: Seq<char>)
    ensures
        below.len() > 0 && below[0] == '/' ==> paths::joined(base, below) == below,
        !(below.len() > 0 && below[0] == '/') && base.len() > 0 && base.last() != '/' ==> {
            &&& paths::joined(base, below).len() == base.len() + 1 + below.len()
            &&& paths::joined(base, below).take(base.len() as int) == base
            &&& paths::joined(base, below)[base.len() as int] == '/'
            &&& paths::joined(base, below).skip(base.len() as int + 1) == below
        },
        !(below.len() > 0 && below[0] == '/') && (base.len() == 0 || base.last() == '/') ==> {
            &&& paths::joined(base, below).len() == base.len() + below.len()
            &&& paths::joined(base, below).take(base.len() as int) == base
            &&& paths::joined(base, below).skip(base.len() as int) == below
        },
{
    let p = paths::joined(base, below);
    let k = base.len() as int;
    if !(below.len() > 0 && below[0] == '/') {
        assert(p.take(k) =~= base);
        if base.len() > 0 && base.last() != '/' {
            assert(p.skip(k + 1) =~= below);
        } else {
            assert(p.skip(k) =~= below);
        }
    }
}

// ---------------------------------------------------------------------------
// The name of the audiobook
// ---------------------------------------------------------------------------

/// The text is made of dots.
pub open spec fn is_dots(s: Seq<char>) -> bool {
    forall|i: int| 0 <= i < s.len() ==> #[trigger] s[i] == '.'
}

proof fn lemma_dots_at_start(dots: Seq<char>, rest: Seq<char>)
    requires
        is_dots(dots),
        rest.len() > 0 ==> rest[0] != '.',
    ensures
        output::undotted_start(dots + rest) == rest,
    decreases dots.len(),
{
    if dots.len() == 0 {
        assert(dots + rest =~= rest);
    } else {
        assert((dots + rest)[0] == dots[0]);
        assert((dots + rest).skip(1) =~= dots.skip(1) + rest);
        assert forall|i: int| 0 <= i < dots.skip(1).len() implies #[trigger] dots.skip(1)[i]
            == '.' by {
            assert(dots.skip(1)[i] == dots[i + 1]);
        }
        lemma_dots_at_start(dots.skip(1), rest);
    }
}

proof fn lemma_dots_at_end(rest: Seq<char>, dots: Seq<char>)
    requires
        is_dots(dots),
        rest.len() > 0 ==> rest.last() != '.',
    ensures
        output::undotted_end(rest + dots) == rest,
    decreases dots.len(),
{
    if dots.len() == 0 {
        assert(rest + dots =~= rest);
    } else {
        assert((rest + dots).last() == dots[dots.len() - 1]);
        assert((rest + dots).drop_last() =~= rest + dots.drop_last());
        assert forall|i: int| 0 <= i < dots.drop_last().len() implies #[trigger]
            dots.drop_last()[i] == '.' by {
            assert(dots.drop_last()[i] == dots[i]);
        }
        lemma_dots_at_end(rest, dots.drop_last());
    }
}

/// The stem with an underscore in place of each character that cannot stand in a
/// name everywhere.
pub open spec fn is_safe_form(safe: Seq<char>, stem: Seq<char>) -> bool {
    &&& safe.len() == stem.len()
    &&& forall|i: int|
        0 <= i < stem.len() ==> #[trigger] safe[i] == if stem[i] == '/' || stem[i] == '\\'
            || stem[i] == ':' || stem[i] == '\0' {
            '_'
        } else {
            stem[i]
        }
}

/// The audiobook of a PDF is named after it: its stem in a safe form, without the
/// white space around it and then without the dots around that.
pub proof fn law_the_audiobook_is_named_after_the_pdf(
    path: Seq<char>,
    stem: Seq<char>,
    space_before: Seq<char>,
    dots_before: Seq<char>,
    core: Seq<char>,
    dots_behind: Seq<char>,
    space_behind: Seq<char>,
)
    requires
        paths::stem_of(path) == Some(stem),
        is_safe_form(space_before + (dots_before + core + dots_behind) + space_behind, stem),
        text_laws::is_void(space_before),
        text_laws::is_void(space_behind),
        is_dots(dots_before),
        is_dots(dots_behind),
        core.len() > 0,
        core[0] != '.',
        core.last() != '.',
        dots_before.len() == 0 ==> !text::is_space(core[0]),
        dots_behind.len() == 0 ==> !text::is_space(core.last()),
    ensures
        output::audiobook_name(path) == core + seq!['.', 'm', '4', 'b'],
{
    let inner = dots_before + core + dots_behind;
    let safe = space_before + inner + space_behind;
    let made = stem.map_values(|c: char| output::made_safe(c));
    assert forall|i: int| 0 <= i < stem.len() implies #[trigger] made[i] == safe[i] by {}
    assert(made =~= safe);
    assert(!text::is_space('.'));
    if dots_before.len() > 0 {
        assert(inner[0] == dots_before[0]);
    } else {
        assert(inner[0] == core[0]);
    }
    if dots_behind.len() > 0 {
        assert(inner.last() == dots_behind[dots_behind.len() - 1]);
    } else {
        assert(inner.last() == core.last());
    }
    text_laws::law_trimming_takes_the_space_around(space_before, inner, space_behind);
    assert(inner =~= dots_before + (core + dots_behind));
    assert((core + dots_behind)[0] == core[0]);
    lemma_dots_at_start(dots_before, core + dots_behind);
    lemma_dots_at_end(core, dots_behind);
    reveal_strlit(".m4b");
    assert(".m4b"@ =~= seq!['.', 'm', '4', 'b']);
}

/// A PDF whose stem is safe as it stands gives its stem to the audiobook, however
/// long it is.
pub proof fn law_the_audiobook_keeps_the_stem(dir: Seq<char>, stem: Seq<char>, ending: Seq<char>)
    requires
        stem.len() > 0,
        forall|i: int|
            0 <= i < stem.len() ==> #[trigger] stem[i] != '/' && stem[i] != '\\' && stem[i] != ':'
                && stem[i] != '\0',
        !text::is_space(stem[0]),
        !text::is_space(stem.last()),
        stem[0] != '.',
        stem.last() != '.',
        clean_laws::lacks(ending, '/'),
        clean_laws::lacks(ending, '.'),
    ensures
        output::audiobook_name(paths::joined(dir, stem + seq!['.'] + ending)) == stem + seq![
            '.',
            'm',
            '4',
            'b',
        ],
{
    let none = Seq::<char>::empty();
    law_names_have_a_stem_and_an_ending(dir, stem, ending);
    assert(none + (none + stem + none) + none =~= stem);
    law_the_audiobook_is_named_after_the_pdf(
        paths::joined(dir, stem + seq!['.'] + ending),
        stem,
        none,
        none,
        stem,
        none,
        none,
    );
}

/// A PDF of whose stem nothing is left gives the audiobook no name of its own.
pub proof fn law_the_audiobook_always_has_a_name(
    path: Seq<char>,
    space_before: Seq<char>,
    dots: Seq<char>,
    space_behind: Seq<char>,
)
    requires
        paths::stem_of(path) == Some(space_before + dots + space_behind),
        text_laws::is_void(space_before),
        text_laws::is_void(space_behind),
        is_dots(dots),
    ensures
        output::audiobook_name(path) == "audiobook.m4b"@,
{
    let none = Seq::<char>::empty();
    let stem = space_before + dots + space_behind;
    assert forall|i: int| 0 <= i < stem.len() implies output::made_safe(#[trigger] stem[i])
        == stem[i] by {
        if i < space_before.len() {
            assert(text::is_space(space_before[i]));
        } else if i < space_before.len() + dots.len() {
            assert(dots[i - space_before.len()] == '.');
        } else {
            assert(text::is_space(space_behind[i - space_before.len() - dots.len()]));
        }
    }
    assert(stem.map_values(|c: char| output::made_safe(c)) =~= stem);
    if dots.len() == 0 {
        assert forall|i: int| 0 <= i < stem.len() implies text::is_space(#[trigger] stem[i]) by {
            if i < space_before.len() {
                assert(text::is_space(space_before[i]));
            } else {
                assert(text::is_space(space_behind[i - space_before.len()]));
            }
        }
        text_laws::law_blank_text_trims_to_nothing(stem);
    } else {
        assert(dots[dots.len() - 1] == '.');
        text_laws::law_trimming_takes_the_space_around(space_before, dots, space_behind);
        lemma_dots_at_start(dots, none);
        assert(dots + none =~= dots);
    }
}

/// The directory of the audiobooks stands in the directory of the documents under
/// the name of the application.
pub proof fn law_audiobooks_are_kept_below_the_documents(documents: Seq<char>)
    ensures
        paths::name_of(output::base_dir(documents)) == Some("Paper2Voice"@),
        paths::parent_of(output::base_dir(documents)) == Some(paths::stripped(documents)),
{
    reveal_strlit("Paper2Voice");
    let name = "Paper2Voice"@;
    assert(name.len() == 11);
    assert forall|i: int| 0 <= i < name.len() implies #[trigger] name[i] != '/' by {}
    assert(name != seq!['.'] && name != seq!['.', '.']);
    paths::law_joined_name_stays_below(documents, name);
}

/// An optional string holds what the string holds.
pub proof fn law_content_is_that_of_the_string(s: String)
    ensures
        paths::content(Some(s)) == Some(s@),
        paths::content(None) is None,
{
}

} // verus!
