//! Paths as text, with `/` between their components.

use vstd::prelude::*;

use crate::text;

verus! {

broadcast use vstd::string::group_string_axioms;

// ---------------------------------------------------------------------------
// Models
// ---------------------------------------------------------------------------

/// A path without the separators and the `.` components behind its last other
/// component. The root stays.
pub open spec fn stripped(p: Seq<char>) -> Seq<char>
    decreases p.len(),
{
    if p.len() > 1 && (p.last() == '/' || (p.last() == '.' && p[p.len() - 2] == '/')) {
        stripped(p.drop_last())
    } else {
        p
    }
}

/// The position behind the last separator.
pub open spec fn name_start(p: Seq<char>) -> nat
    decreases p.len(),
{
    if p.len() == 0 || p.last() == '/' {
        p.len()
    } else {
        name_start(p.drop_last())
    }
}

/// The last component of a path.
pub open spec fn last_component(p: Seq<char>) -> Seq<char> {
    stripped(p).skip(name_start(stripped(p)) as int)
}

/// The name of the file or directory to which a path leads. There is none for
/// the root, the empty path, `.` and paths that end in `..`.
pub open spec fn name_of(p: Seq<char>) -> Option<Seq<char>> {
    let name = last_component(p);
    if name.len() == 0 || name == seq!['.'] || name == seq!['.', '.'] {
        None
    } else {
        Some(name)
    }
}

/// The position of the last dot of a name, or its length where it has none or
/// only one that is its first character.
pub open spec fn dot_at(name: Seq<char>) -> nat {
    let d = last_dot(name);
    if d > 0 {
        d as nat
    } else {
        name.len()
    }
}

/// The position of the last dot, or -1.
pub open spec fn last_dot(name: Seq<char>) -> int
    decreases name.len(),
{
    if name.len() == 0 {
        -1
    } else if name.last() == '.' {
        name.len() - 1
    } else {
        last_dot(name.drop_last())
    }
}

/// The name of a path without its extension.
pub open spec fn stem_of(p: Seq<char>) -> Option<Seq<char>> {
    match name_of(p) {
        Some(name) => Some(name.take(dot_at(name) as int)),
        None => None,
    }
}

/// The part of the name behind its last dot.
pub open spec fn extension_of(p: Seq<char>) -> Option<Seq<char>> {
    match name_of(p) {
        Some(name) => if dot_at(name) < name.len() {
            Some(name.skip(dot_at(name) as int + 1))
        } else {
            None
        },
        None => None,
    }
}

/// The path without its last component. There is none for the root and the
/// empty path.
pub open spec fn parent_of(p: Seq<char>) -> Option<Seq<char>> {
    let s = stripped(p);
    if s.len() == 0 || s == seq!['/'] {
        None
    } else {
        Some(stripped(s.take(name_start(s) as int)))
    }
}

/// The path, its parent, the parent of that, and so on.
pub open spec fn ancestors_of(p: Seq<char>) -> Seq<Seq<char>>
    decreases p.len(),
{
    match parent_of(p) {
        Some(parent) => if parent.len() < p.len() {
            seq![p] + ancestors_of(parent)
        } else {
            seq![p]
        },
        None => seq![p],
    }
}

/// A path below another. One that starts at the root stands for itself.
pub open spec fn joined(base: Seq<char>, below: Seq<char>) -> Seq<char> {
    if below.len() > 0 && below[0] == '/' {
        below
    } else if base.len() == 0 || base.last() == '/' {
        base + below
    } else {
        base.push('/') + below
    }
}

/// The lower-case form of an ASCII letter; any other character as it is.
pub open spec fn lower(c: char) -> char {
    if 'A' <= c <= 'Z' {
        (c as u32 + 32) as char
    } else {
        c
    }
}

/// Whether two texts are equal but for the case of ASCII letters.
pub open spec fn same_but_for_case(a: Seq<char>, b: Seq<char>) -> bool {
    a.len() == b.len() && forall|i: int| 0 <= i < a.len() ==> lower(#[trigger] a[i]) == lower(b[i])
}

/// Whether a path ends in the extension, in any case.
pub open spec fn is_extension_of(p: Seq<char>, extension: Seq<char>) -> bool {
    match extension_of(p) {
        Some(found) => same_but_for_case(found, extension),
        None => false,
    }
}

/// The contents of an optional string.
pub open spec fn content(s: Option<String>) -> Option<Seq<char>> {
    match s {
        Some(t) => Some(t@),
        None => None,
    }
}

// ---------------------------------------------------------------------------
// Taking paths apart
// ---------------------------------------------------------------------------

/// Removes the separators and `.` components behind the last component.
fn strip(path: &str) -> (r: Vec<char>)
    ensures
        r@ == stripped(path@),
{
    let mut chars = text::to_chars(path);
    while chars.len() > 1 && (chars[chars.len() - 1] == '/' || (chars[chars.len() - 1] == '.'
        && chars[chars.len() - 2] == '/'))
        invariant
            stripped(path@) == stripped(chars@),
        decreases chars@.len(),
    {
        let ghost before = chars@;
        let _ = chars.pop();
        proof {
            assert(chars@ =~= before.drop_last());
        }
    }
    chars
}

/// Finds the position behind the last separator.
fn find_name_start(chars: &Vec<char>) -> (r: usize)
    ensures
        r == name_start(chars@),
        r <= chars@.len(),
{
    let mut i: usize = chars.len();
    proof {
        assert(chars@.take(i as int) =~= chars@);
    }
    while i > 0 && chars[i - 1] != '/'
        invariant
            i <= chars@.len(),
            name_start(chars@) == name_start(chars@.take(i as int)),
        decreases i,
    {
        proof {
            assert(chars@.take(i as int).drop_last() =~= chars@.take(i - 1));
        }
        i -= 1;
    }
    i
}

/// The name of the file or directory to which a path leads.
pub fn file_name(path: &str) -> (r: Option<String>)
    ensures
        content(r) == name_of(path@),
{
    let chars = strip(path);
    let start: usize = find_name_start(&chars);
    let name = text::slice_text(&chars, start, chars.len());
    proof {
        reveal_strlit(".");
        reveal_strlit("..");
        assert("."@ =~= seq!['.']);
        assert(".."@ =~= seq!['.', '.']);
        assert(chars@.subrange(start as int, chars@.len() as int) =~= last_component(path@));
    }
    if name.as_str().is_empty() || text::same_text(name.as_str(), ".") || text::same_text(
        name.as_str(),
        "..",
    ) {
        None
    } else {
        Some(name)
    }
}

/// Finds where the extension of a name starts, at its dot.
fn find_dot(chars: &Vec<char>) -> (r: usize)
    ensures
        r == dot_at(chars@),
        r <= chars@.len(),
        r < chars@.len() ==> r > 0,
{
    let mut i: usize = chars.len();
    proof {
        assert(chars@.take(i as int) =~= chars@);
    }
    while i > 0 && chars[i - 1] != '.'
        invariant
            i <= chars@.len(),
            last_dot(chars@) == last_dot(chars@.take(i as int)),
        decreases i,
    {
        proof {
            assert(chars@.take(i as int).drop_last() =~= chars@.take(i - 1));
        }
        i -= 1;
    }
    if i > 1 {
        i - 1
    } else {
        chars.len()
    }
}

/// The name of a path without its extension.
pub fn file_stem(path: &str) -> (r: Option<String>)
    ensures
        content(r) == stem_of(path@),
{
    match file_name(path) {
        Some(name) => {
            let chars = text::to_chars(name.as_str());
            let dot: usize = find_dot(&chars);
            proof {
                assert(chars@.subrange(0, dot as int) =~= chars@.take(dot as int));
            }
            Some(text::slice_text(&chars, 0, dot))
        },
        None => None,
    }
}

/// The part of the name behind its last dot.
pub fn extension(path: &str) -> (r: Option<String>)
    ensures
        content(r) == extension_of(path@),
{
    match file_name(path) {
        Some(name) => {
            let chars = text::to_chars(name.as_str());
            let dot: usize = find_dot(&chars);
            if dot < chars.len() {
                proof {
                    assert(chars@.subrange(dot + 1, chars@.len() as int) =~= chars@.skip(dot + 1));
                }
                Some(text::slice_text(&chars, dot + 1, chars.len()))
            } else {
                None
            }
        },
        None => None,
    }
}

/// Writes an ASCII letter in lower case.
fn to_lower(c: char) -> (r: char)
    ensures
        r == lower(c),
{
    if 'A' <= c && c <= 'Z' {
        ((c as u8) + 32) as char
    } else {
        c
    }
}

/// Whether two texts are equal but for the case of ASCII letters.
pub fn eq_ignore_case(a: &str, b: &str) -> (r: bool)
    ensures
        r == same_but_for_case(a@, b@),
{
    let x = text::to_chars(a);
    let y = text::to_chars(b);
    if x.len() != y.len() {
        return false;
    }
    let mut i: usize = 0;
    while i < x.len()
        invariant
            x@ == a@,
            y@ == b@,
            x@.len() == y@.len(),
            i <= x@.len(),
            forall|k: int| 0 <= k < i ==> lower(#[trigger] a@[k]) == lower(b@[k]),
        decreases x@.len() - i,
    {
        if to_lower(x[i]) != to_lower(y[i]) {
            proof {
                assert(lower(a@[i as int]) != lower(b@[i as int]));
            }
            return false;
        }
        i += 1;
    }
    true
}

/// Whether a path ends in the extension, in any case.
pub fn has_extension(path: &str, wanted: &str) -> (r: bool)
    ensures
        r == is_extension_of(path@, wanted@),
{
    match extension(path) {
        Some(found) => eq_ignore_case(found.as_str(), wanted),
        None => false,
    }
}

/// The path without its last component.
pub fn parent(path: &str) -> (r: Option<String>)
    ensures
        content(r) == parent_of(path@),
{
    let chars = strip(path);
    if chars.len() == 0 {
        return None;
    }
    if chars.len() == 1 && chars[0] == '/' {
        proof {
            assert(chars@ =~= seq!['/']);
        }
        return None;
    }
    proof {
        assert(chars@ != seq!['/']);
    }
    let start: usize = find_name_start(&chars);
    let head = text::slice_text(&chars, 0, start);
    proof {
        assert(head@ =~= chars@.take(start as int));
    }
    Some(text::from_chars(&strip(head.as_str())))
}

proof fn lemma_stripped(p: Seq<char>)
    ensures
        stripped(p).len() <= p.len(),
        stripped(p).len() > 1 ==> stripped(p).last() != '/',
        p.len() > 0 ==> stripped(p).len() > 0 && stripped(p)[0] == p[0],
    decreases p.len(),
{
    if p.len() > 1 && (p.last() == '/' || (p.last() == '.' && p[p.len() - 2] == '/')) {
        lemma_stripped(p.drop_last());
    }
}

proof fn lemma_name_start(p: Seq<char>)
    ensures
        name_start(p) <= p.len(),
        p.len() > 0 && p.last() != '/' ==> name_start(p) < p.len(),
        name_start(p) > 0 ==> p[name_start(p) - 1] == '/',
    decreases p.len(),
{
    if p.len() > 0 && p.last() != '/' {
        lemma_name_start(p.drop_last());
    }
}

/// A parent is shorter than the path.
pub proof fn lemma_parent_is_shorter(p: Seq<char>)
    ensures
        parent_of(p) matches Some(parent) ==> parent.len() < p.len(),
{
    let s = stripped(p);
    lemma_stripped(p);
    lemma_name_start(s);
    lemma_stripped(s.take(name_start(s) as int));
    if s.len() == 1 && s.last() == '/' {
        assert(s =~= seq!['/']);
    }
}

/// The path, its parent, the parent of that, and so on.
pub fn ancestors(path: &str) -> (r: Vec<String>)
    ensures
        text::contents(r@) == ancestors_of(path@),
{
    let mut found: Vec<String> = Vec::new();
    let mut current = path.to_owned();
    proof {
        assert(text::contents(found@) + ancestors_of(path@) =~= ancestors_of(path@));
    }
    loop
        invariant
            ancestors_of(path@) == text::contents(found@) + ancestors_of(current@),
        decreases current@.len(),
    {
        let ghost before = text::contents(found@);
        let ghost here = current@;
        proof {
            lemma_parent_is_shorter(here);
        }
        let above = parent(current.as_str());
        found.push(current);
        proof {
            assert(text::contents(found@) =~= before.push(here));
        }
        match above {
            Some(next) => {
                proof {
                    assert(text::contents(found@) + ancestors_of(next@) =~= before + ancestors_of(
                        here,
                    ));
                }
                current = next;
            },
            None => {
                proof {
                    assert(text::contents(found@) =~= before + ancestors_of(here));
                }
                return found;
            },
        }
    }
}

/// The path below another.
pub fn join(base: &str, below: &str) -> (r: String)
    ensures
        r@ == joined(base@, below@),
{
    let lead = text::to_chars(below);
    if lead.len() > 0 && lead[0] == '/' {
        return below.to_owned();
    }
    let chars = text::to_chars(base);
    let mut out = base.to_owned();
    if chars.len() > 0 && chars[chars.len() - 1] != '/' {
        out.push('/');
    }
    out.append(below);
    out
}

// ---------------------------------------------------------------------------
// Laws
// ---------------------------------------------------------------------------

/// A name that may stand as the last component of a path.
pub open spec fn is_plain_name(name: Seq<char>) -> bool {
    &&& name.len() > 0
    &&& name != seq!['.']
    &&& name != seq!['.', '.']
    &&& forall|i: int| 0 <= i < name.len() ==> #[trigger] name[i] != '/'
}

proof fn lemma_plain_name_start(base: Seq<char>, name: Seq<char>)
    requires
        base.len() == 0 || base.last() == '/',
        forall|i: int| 0 <= i < name.len() ==> #[trigger] name[i] != '/',
    ensures
        name_start(base + name) == base.len(),
    decreases name.len(),
{
    let p = base + name;
    if name.len() == 0 {
        assert(p =~= base);
    } else {
        assert(p.last() == name.last());
        assert(p.drop_last() =~= base + name.drop_last());
        assert forall|i: int| 0 <= i < name.drop_last().len() implies #[trigger] name.drop_last()[i]
            != '/' by {
            assert(name.drop_last()[i] == name[i]);
        }
        lemma_plain_name_start(base, name.drop_last());
    }
}

/// A name joined to a directory is the name of the resulting path, and the
/// directory is its parent.
pub proof fn law_joined_name_stays_below(base: Seq<char>, name: Seq<char>)
    requires
        is_plain_name(name),
    ensures
        name_of(joined(base, name)) == Some(name),
        parent_of(joined(base, name)) == Some(stripped(base)),
{
    assert(name[0] != '/');
    let lead = if base.len() == 0 || base.last() == '/' {
        base
    } else {
        base.push('/')
    };
    let p = joined(base, name);
    assert(p == lead + name);
    assert(p.last() == name.last());
    assert(name.last() != '/');
    if p.len() > 1 && p.last() == '.' && p[p.len() - 2] == '/' {
        if name.len() > 1 {
            assert(p[p.len() - 2] == name[name.len() - 2]);
        } else {
            assert(name =~= seq!['.']);
        }
    }
    assert(stripped(p) == p);
    lemma_plain_name_start(lead, name);
    assert(p.skip(lead.len() as int) =~= name);
    assert(p.take(lead.len() as int) =~= lead);
    if p.len() == 1 {
        assert(p[0] == name[0]);
    }
    assert(p != seq!['/']) by {
        assert(p.last() != seq!['/'].last());
    }
    if base.len() > 0 && base.last() != '/' {
        assert(lead.drop_last() =~= base);
    }
}

} // verus!
