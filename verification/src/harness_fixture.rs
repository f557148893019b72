//! Loadable harness fixtures: which craft a collision scene's slot holds.
//!
//! A slot's argument names a craft by path or by name. The literal path is tried
//! first, then the named document in each fixture directory. The first candidate
//! that exists decides: if it does not load, or is empty, that is an error and
//! never a fall-back to the next.

use crate::text::join2;
use crate::text::join3;
use crate::text::same_text;
use crate::voxel::VoxelCraft;
use vstd::prelude::*;

verus! {

/// The name of a slot that runs its procedural default.
pub const PROCEDURAL: &'static str = "procedural";

/// The first directory searched after the literal path: editor saves.
pub const SAVES_DIR: &'static str = "saves/crafts";

/// The second directory searched: shipped blueprints.
pub const BLUEPRINTS_DIR: &'static str = "content/blueprints";

/// A path under a directory: a slash comes between, unless the directory is empty or
/// ends in one, and a path that starts with one stands for itself.
pub open spec fn joined(dir: Seq<char>, path: Seq<char>) -> Seq<char> {
    if dir.len() == 0 || (path.len() > 0 && path[0] == '/') {
        path
    } else if dir.last() == '/' {
        dir + path
    } else {
        dir + "/"@ + path
    }
}

/// A named document in a directory.
pub open spec fn document_in(dir: Seq<char>, slug: Seq<char>) -> Seq<char> {
    joined(dir, slug + ".json"@)
}

/// A named document in a directory.
fn document_path(dir: &str, slug: &str) -> (path: String)
    ensures
        path@ == document_in(dir@, slug@),
{
    let file: String = join2(slug, ".json");
    let name: &str = file.as_str();
    proof {
        reveal_strlit(".json");
    }
    let n: usize = dir.unicode_len();
    if n == 0 || name.get_char(0) == '/' {
        file
    } else if dir.get_char(n - 1) == '/' {
        join2(dir, name)
    } else {
        join3(dir, "/", name)
    }
}

/// The candidates for an argument, in the order they are tried.
pub open spec fn candidates_of(
    arg: Seq<char>,
    slug: Seq<char>,
    dirs: Seq<Seq<char>>,
) -> Seq<Seq<char>> {
    seq![arg] + Seq::new(dirs.len(), |i: int| document_in(dirs[i], slug))
}

/// The candidates for an argument: itself, then its document in each directory.
pub fn candidates(arg: &str, slug: &str, dirs: &Vec<String>) -> (out: Vec<String>)
    ensures
        out.deep_view() == candidates_of(arg@, slug@, dirs.deep_view()),
{
    let ghost want = candidates_of(arg@, slug@, dirs.deep_view());
    let mut out: Vec<String> = Vec::new();
    out.push(arg.to_owned());
    assert(out.deep_view() =~= want.take(1));
    let mut i: usize = 0;
    while i < dirs.len()
        invariant
            i <= dirs.len(),
            want == candidates_of(arg@, slug@, dirs.deep_view()),
            out.deep_view() == want.take(1 + i),
        decreases dirs.len() - i,
    {
        let ghost before = out.deep_view();
        let path: String = document_path(dirs[i].as_str(), slug);
        assert(path@ == document_in(dirs.deep_view()[i as int], slug@));
        out.push(path);
        i += 1;
        assert(out.deep_view() =~= before.push(want[i as int]));
        assert(out.deep_view() =~= want.take(1 + i));
    }
    assert(want.take(1 + dirs.len()) =~= want);
    out
}

/// Texts joined by a comma and a space.
pub open spec fn listed(items: Seq<Seq<char>>) -> Seq<char>
    decreases items.len(),
{
    if items.len() == 0 {
        Seq::empty()
    } else if items.len() == 1 {
        items[0]
    } else {
        listed(items.drop_last()) + ", "@ + items.last()
    }
}

/// The first candidate that is a file.
pub open spec fn first_present(present: Seq<bool>) -> Option<int>
    decreases present.len(),
{
    if present.len() == 0 {
        None
    } else {
        match first_present(present.drop_last()) {
            Some(i) => Some(i),
            None => if present.last() {
                Some(present.len() - 1)
            } else {
                None
            },
        }
    }
}

/// The candidate that decides, or the message that names all that were tried.
/// `present` says of each candidate whether it is a file.
pub fn choose_candidate(candidates: &Vec<String>, present: &Vec<bool>) -> (r: Result<usize, String>)
    requires
        present@.len() == candidates@.len(),
    ensures
        match r {
            Ok(i) => first_present(present@) == Some(i as int) && i < candidates@.len(),
            Err(e) => first_present(present@) is None && e@ == "not found (tried: "@ + listed(
                candidates.deep_view(),
            ) + ")"@,
        },
{
    let n: usize = candidates.len();
    let mut i: usize = 0;
    assert(present@.take(0) =~= Seq::<bool>::empty());
    while i < n
        invariant
            n == candidates@.len(),
            n == present@.len(),
            i <= n,
            first_present(present@.take(i as int)) is None,
        decreases n - i,
    {
        assert(present@.take(i + 1).drop_last() =~= present@.take(i as int));
        if present[i] {
            proof {
                assert(first_present(present@.take(i + 1)) == Some(i as int));
                lemma_first_present_stays(present@, i + 1, i as int);
            }
            return Ok(i);
        }
        i += 1;
    }
    assert(present@.take(n as int) =~= present@);
    let ghost names = candidates.deep_view();
    let mut tried: String = String::new();
    let mut j: usize = 0;
    assert(names.take(0) =~= Seq::<Seq<char>>::empty());
    while j < n
        invariant
            n == candidates@.len(),
            names == candidates.deep_view(),
            j <= n,
            tried@ == listed(names.take(j as int)),
        decreases n - j,
    {
        assert(names.take(j + 1).drop_last() =~= names.take(j as int));
        assert(names.take(j + 1).last() == candidates@[j as int]@);
        if j > 0 {
            tried.append(", ");
        }
        tried.append(candidates[j].as_str());
        assert(tried@ =~= listed(names.take(j + 1)));
        j += 1;
    }
    assert(names.take(n as int) =~= names);
    Err(join3("not found (tried: ", tried.as_str(), ")"))
}

/// Once a candidate is present, later ones do not matter.
proof fn lemma_first_present_stays(present: Seq<bool>, k: int, i: int)
    requires
        0 <= k <= present.len(),
        first_present(present.take(k)) == Some(i),
    ensures
        first_present(present) == Some(i),
    decreases present.len() - k,
{
    if k < present.len() {
        assert(present.take(k + 1).drop_last() =~= present.take(k));
        lemma_first_present_stays(present, k + 1, i);
    } else {
        assert(present.take(k) =~= present);
    }
}

/// The part of a path after its last slash.
pub open spec fn last_segment(path: Seq<char>) -> Seq<char>
    decreases path.len(),
{
    if path.len() == 0 || path.last() == '/' {
        Seq::empty()
    } else {
        last_segment(path.drop_last()).push(path.last())
    }
}

/// A file name up to its last dot; a name whose only dot comes first is all
/// stem.
pub open spec fn stem(name: Seq<char>) -> Seq<char> {
    let d = last_dot(name);
    if d <= 0 {
        name
    } else {
        name.take(d)
    }
}

/// Where the last dot of a name is; `-1` if it has none.
pub open spec fn last_dot(name: Seq<char>) -> int
    decreases name.len(),
{
    if name.len() == 0 {
        -1
    } else if name.last() == '.' {
        name.len() - 1
    } else {
        last_dot(name.drop_last())
    }
}

/// The display name of a file: its name without directory and extension.
pub fn file_stem(path: &str) -> (s: String)
    ensures
        s@ == stem(last_segment(path@)),
{
    let n: usize = path.unicode_len();
    let mut from: usize = n;
    proof {
        assert(path@.take(n as int) =~= path@);
        assert(path@.subrange(n as int, n as int) =~= Seq::<char>::empty());
        assert(last_segment(path@) =~= last_segment(path@.take(n as int)) + path@.subrange(
            n as int,
            n as int,
        ));
    }
    while from > 0 && path.get_char(from - 1) != '/'
        invariant
            n == path@.len(),
            from <= n,
            last_segment(path@) == last_segment(path@.take(from as int)) + path@.subrange(
                from as int,
                n as int,
            ),
        decreases from,
    {
        proof {
            let t = path@.take(from as int);
            assert(t.drop_last() =~= path@.take(from - 1));
            assert(t.last() == path@[from - 1]);
            assert(path@.subrange(from - 1, n as int) =~= seq![path@[from - 1]] + path@.subrange(
                from as int,
                n as int,
            ));
            assert(last_segment(t) + path@.subrange(from as int, n as int) =~= last_segment(
                path@.take(from - 1),
            ) + path@.subrange(from - 1, n as int));
        }
        from -= 1;
    }
    proof {
        let t = path@.take(from as int);
        assert(from > 0 ==> t.last() == path@[from - 1]);
        assert(last_segment(t) =~= Seq::<char>::empty());
        assert(last_segment(path@) =~= path@.subrange(from as int, n as int));
    }
    let name: &str = path.substring_char(from, n);
    let len: usize = name.unicode_len();
    let mut d: usize = len;
    assert(name@.take(len as int) =~= name@);
    while d > 0 && name.get_char(d - 1) != '.'
        invariant
            len == name@.len(),
            d <= len,
            last_dot(name@) == last_dot(name@.take(d as int)),
        decreases d,
    {
        assert(name@.take(d as int).drop_last() =~= name@.take(d - 1));
        assert(name@.take(d as int).last() == name@[d - 1]);
        d -= 1;
    }
    assert(d > 0 ==> name@.take(d as int).last() == name@[d - 1]);
    if d <= 1 {
        name.to_owned()
    } else {
        assert(last_dot(name@) == d - 1);
        assert(name@.subrange(0, d - 1) =~= name@.take(d - 1));
        name.substring_char(0, d - 1).to_owned()
    }
}

/// What loading the deciding candidate gave.
pub enum Loaded {
    /// It did not load: the reason.
    Broken(String),
    /// It loaded, but holds nothing.
    Empty,
    /// It loaded.
    Craft,
}

/// The fixture's name once its file was loaded, or why it is no fixture.
pub fn conclude(path: &str, loaded: &Loaded) -> (r: Result<String, String>)
    ensures
        match (r, *loaded) {
            (Err(e), Loaded::Broken(why)) => e@ == path@ + ": "@ + why@,
            (Err(e), Loaded::Empty) => e@ == path@ + ": craft is empty"@,
            (Ok(name), Loaded::Craft) => name@ == stem(last_segment(path@)),
            _ => false,
        },
{
    match loaded {
        Loaded::Broken(why) => Err(join3(path, ": ", why.as_str())),
        Loaded::Empty => Err(join2(path, ": craft is empty")),
        Loaded::Craft => Ok(file_stem(path)),
    }
}

/// Whether a slot's argument asks for a craft: it is there, and is not the `-`
/// placeholder.
pub fn fixture_arg(arg: &Option<String>) -> (asks: bool)
    ensures
        asks == (arg is Some && (arg->0)@ != "-"@),
{
    match arg {
        Some(a) => !same_text(a.as_str(), "-"),
        None => false,
    }
}

/// A resolved fixture: its display name and its craft.
#[derive(Debug, PartialEq, Eq)]
pub struct Fixture {
    pub name: String,
    pub craft: VoxelCraft,
}

/// The name of what a slot holds.
pub open spec fn name_in_slot(slot: Option<Fixture>) -> Seq<char> {
    match slot {
        Some(f) => f.name@,
        None => PROCEDURAL@,
    }
}

/// The slot's display name.
pub fn slot_name(slot: &Option<Fixture>) -> (s: &str)
    ensures
        s@ == name_in_slot(*slot),
{
    match slot {
        Some(f) => f.name.as_str(),
        None => PROCEDURAL,
    }
}

/// A present candidate is never passed over: the one that decides is present,
/// and nothing before it is.
pub proof fn lemma_first_present_decides(present: Seq<bool>)
    ensures
        match first_present(present) {
            Some(i) => {
                &&& 0 <= i < present.len()
                &&& present[i]
                &&& forall|j: int| 0 <= j < i ==> !#[trigger] present[j]
            },
            None => forall|j: int| 0 <= j < present.len() ==> !#[trigger] present[j],
        },
    decreases present.len(),
{
    if present.len() > 0 {
        let front = present.drop_last();
        lemma_first_present_decides(front);
        assert forall|j: int| 0 <= j < front.len() implies #[trigger] present[j] == front[j] by {}
    }
}

/// The argument itself is tried first, and then, for each directory in turn, the document of
/// that name in it.
pub proof fn lemma_the_literal_path_comes_first(
    arg: Seq<char>,
    slug: Seq<char>,
    dirs: Seq<Seq<char>>,
    i: int,
)
    ensures
        candidates_of(arg, slug, dirs).len() == dirs.len() + 1,
        candidates_of(arg, slug, dirs)[0] == arg,
        0 <= i < dirs.len() ==> {
            let path = candidates_of(arg, slug, dirs)[i + 1];
            let name = slug + ".json"@;
            &&& path.len() >= name.len() && path.skip(path.len() - name.len()) == name
            &&& dirs[i].len() > 0 && dirs[i].last() != '/' && (slug.len() == 0 || slug[0] != '/')
                ==> path == dirs[i] + "/"@ + name
            &&& dirs[i].len() == 0 ==> path == name
        },
{
    reveal_strlit(".json");
    if 0 <= i < dirs.len() {
        let path = candidates_of(arg, slug, dirs)[i + 1];
        let name = slug + ".json"@;
        assert(path == document_in(dirs[i], slug));
        assert(path.skip(path.len() - name.len()) =~= name);
        assert(slug.len() > 0 ==> name[0] == slug[0]);
        assert(slug.len() == 0 ==> name[0] == '.');
    }
}

/// A path under a directory has one slash between the two, whether or not the directory ends
/// in one; an absolute path, or one under no directory, stays as it is.
pub proof fn lemma_paths_are_joined_once(dir: Seq<char>, path: Seq<char>)
    ensures
        dir.len() == 0 ==> joined(dir, path) == path,
        path.len() > 0 && path[0] == '/' ==> joined(dir, path) == path,
        dir.len() > 0 && dir.last() != '/' ==> joined(dir, path) == joined(dir.push('/'), path),
        dir.len() > 0 && dir.last() == '/' && !(path.len() > 0 && path[0] == '/') ==> joined(
            dir,
            path,
        ) == dir + path,
{
    reveal_strlit("/");
    if dir.len() > 0 && dir.last() != '/' && !(path.len() > 0 && path[0] == '/') {
        assert(joined(dir, path) =~= joined(dir.push('/'), path));
    }
}

/// A file's name is what follows the last slash of its path: the end of the path, without a
/// slash in it, and with one before it unless it is the whole.
pub proof fn lemma_a_file_name_has_no_slash(path: Seq<char>)
    ensures
        ({
            let name = last_segment(path);
            let rest = path.len() - name.len();
            &&& rest >= 0
            &&& path.skip(rest) == name
            &&& forall|i: int| 0 <= i < name.len() ==> #[trigger] name[i] != '/'
            &&& rest > 0 ==> path[rest - 1] == '/'
        }),
    decreases path.len(),
{
    if path.len() == 0 || path.last() == '/' {
        assert(path.skip(path.len() as int) =~= Seq::<char>::empty());
    } else {
        let t = path.drop_last();
        lemma_a_file_name_has_no_slash(t);
        let name = last_segment(path);
        let rest = path.len() - name.len();
        assert(t.skip(rest) =~= last_segment(t));
        assert(path.skip(rest) =~= name) by {
            assert forall|i: int| 0 <= i < name.len() implies path.skip(rest)[i] == name[i] by {
                if i < name.len() - 1 {
                    assert(t.skip(rest)[i] == path[rest + i]);
                }
            }
        }
        if rest > 0 {
            assert(t[rest - 1] == path[rest - 1]);
        }
    }
}

/// A name without its extension: what comes before the last dot, where anything does; a name
/// without a dot, or with its only dot in front, is kept whole.
pub proof fn lemma_a_stem_is_without_its_extension(name: Seq<char>, extension: Seq<char>)
    requires
        forall|i: int| 0 <= i < extension.len() ==> #[trigger] extension[i] != '.',
    ensures
        stem(extension) == extension,
        stem(seq!['.'] + extension) == seq!['.'] + extension,
        name.len() > 0 ==> stem(name + seq!['.'] + extension) == name,
{
    lemma_last_dot(Seq::empty(), extension);
    lemma_last_dot(name, extension);
    lemma_no_dot(extension);
    assert(Seq::<char>::empty() + seq!['.'] + extension =~= seq!['.'] + extension);
    if name.len() > 0 {
        assert((name + seq!['.'] + extension).take(name.len() as int) =~= name);
    }
}

proof fn lemma_last_dot(name: Seq<char>, extension: Seq<char>)
    requires
        forall|i: int| 0 <= i < extension.len() ==> #[trigger] extension[i] != '.',
    ensures
        last_dot(name + seq!['.'] + extension) == name.len(),
    decreases extension.len(),
{
    let all = name + seq!['.'] + extension;
    if extension.len() == 0 {
        assert(all =~= name.push('.'));
    } else {
        let t = extension.drop_last();
        assert forall|i: int| 0 <= i < t.len() implies #[trigger] t[i] != '.' by {
            assert(t[i] == extension[i]);
        }
        lemma_last_dot(name, t);
        assert(all.drop_last() =~= name + seq!['.'] + t);
        assert(all.last() == extension[extension.len() - 1]);
    }
}

proof fn lemma_no_dot(name: Seq<char>)
    requires
        forall|i: int| 0 <= i < name.len() ==> #[trigger] name[i] != '.',
    ensures
        last_dot(name) == -1,
    decreases name.len(),
{
    if name.len() > 0 {
        let t = name.drop_last();
        assert forall|i: int| 0 <= i < t.len() implies #[trigger] t[i] != '.' by {
            assert(t[i] == name[i]);
        }
        assert(name.last() == name[name.len() - 1]);
        lemma_no_dot(t);
    }
}

/// A slot is called by what it holds, and an empty one is called procedural.
pub proof fn lemma_slots_are_called_by_what_they_hold(f: Fixture)
    ensures
        name_in_slot(Some(f)) == f.name@,
        name_in_slot(None) == "procedural"@,
{
}

/// What was tried is listed in order: one alone by itself, and each further one after a comma
/// and a blank.
pub proof fn lemma_all_that_was_tried_is_listed(items: Seq<Seq<char>>, next: Seq<char>)
    ensures
        listed(seq![next]) == next,
        items.len() > 0 ==> listed(items.push(next)) == listed(items) + ", "@ + next,
{
    if items.len() > 0 {
        assert(items.push(next).drop_last() =~= items);
    }
}

} // verus!
