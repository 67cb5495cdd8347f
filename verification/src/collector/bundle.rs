//! The application that an executable belongs to.
use vstd::prelude::*;
use vstd::string::*;
use crate::text::{chars_of, is_text, part, same_text, string_of};

verus! {

/// The parts of a path between its slashes, empty ones and later dots left out.
pub open spec fn components(path: Seq<char>) -> Seq<Seq<char>>
    decreases path.len(),
{
    if path.len() == 0 {
        Seq::empty()
    } else {
        proof {
            lemma_last_slash(path);
        }
        let k = last_slash(path);
        let name = path.skip(k);
        let rest = if k == 0 {
            Seq::empty()
        } else {
            path.take(k - 1)
        };
        let before = components(rest);
        if name.len() == 0 || (name == seq!['.'] && k > 0) {
            before
        } else {
            before.push(name)
        }
    }
}

/// The place after the last slash of a path; zero where there is none.
pub open spec fn last_slash(path: Seq<char>) -> int
    decreases path.len(),
{
    if path.len() == 0 || path.last() == '/' {
        path.len() as int
    } else {
        last_slash(path.drop_last())
    }
}

/// Whether a part of a path is a name, not a step within it.
pub open spec fn is_name(part: Seq<char>) -> bool {
    part != seq!['.'] && part != seq!['.', '.']
}

/// The names of a path's directories, the innermost first.
pub open spec fn directory_names(parts: Seq<Seq<char>>) -> Seq<Seq<char>>
    decreases parts.len(),
{
    if parts.len() <= 1 {
        Seq::empty()
    } else {
        let parent = parts[parts.len() - 2];
        let above = directory_names(parts.drop_last());
        if is_name(parent) {
            seq![parent] + above
        } else {
            above
        }
    }
}

/// Whether a name is that of a bundle.
pub open spec fn is_bundle(name: Seq<char>) -> bool {
    name.len() >= 4 && name.skip(name.len() - 4) == seq!['.', 'a', 'p', 'p']
}

/// The first bundle among the names, without its ending.
pub open spec fn first_bundle(names: Seq<Seq<char>>) -> Option<Seq<char>>
    decreases names.len(),
{
    if names.len() == 0 {
        None
    } else if is_bundle(names[0]) {
        Some(names[0].take(names[0].len() - 4))
    } else {
        first_bundle(names.drop_first())
    }
}

/// The name of the bundle whose own executable the path is, unless it is empty or
/// repeats `name`.
pub open spec fn bundle_of(path: Seq<char>, name: Seq<char>) -> Option<Seq<char>> {
    let dirs = directory_names(components(path));
    if dirs.len() < 2 || dirs[0] != "MacOS"@ || dirs[1] != "Contents"@ {
        None
    } else {
        match first_bundle(dirs.skip(2)) {
            Some(bundle) => if bundle.len() == 0 || bundle == name {
                None
            } else {
                Some(bundle)
            },
            None => None,
        }
    }
}

/// The characters of each part.
pub open spec fn views(parts: Seq<Vec<char>>) -> Seq<Seq<char>> {
    parts.map_values(|v: Vec<char>| v@)
}

/// The place after the last slash lies within the path.
pub proof fn lemma_last_slash(path: Seq<char>)
    ensures
        0 <= last_slash(path) <= path.len(),
        last_slash(path) > 0 ==> path[last_slash(path) - 1] == '/',
        path.len() > 0 && last_slash(path) == path.len() ==> path.last() == '/',
        path.len() > 0 && path.last() != '/' ==> last_slash(path) < path.len(),
    decreases path.len(),
{
    if path.len() > 0 && path.last() != '/' {
        lemma_last_slash(path.drop_last());
    }
}

/// Splits a path into its parts.
fn split_path(path: &Vec<char>) -> (r: Vec<Vec<char>>)
    ensures
        views(r@) == components(path@),
    decreases path@.len(),
{
    if path.len() == 0 {
        let r: Vec<Vec<char>> = Vec::new();
        assert(views(r@) =~= Seq::empty());
        return r;
    }
    let mut k: usize = path.len();
    assert(path@.take(path@.len() as int) =~= path@);
    while k > 0 && path[k - 1] != '/'
        invariant
            k <= path@.len(),
            last_slash(path@) == last_slash(path@.take(k as int)),
        decreases k,
    {
        assert(path@.take(k as int).drop_last() =~= path@.take(k as int - 1));
        k -= 1;
    }
    proof {
        if k > 0 {
            assert(path@.take(k as int).last() == '/');
        }
        assert(last_slash(path@) == k);
    }
    let name = part(path, k, path.len());
    assert(name@ =~= path@.skip(k as int));
    let rest = if k == 0 {
        Vec::new()
    } else {
        part(path, 0, k - 1)
    };
    assert(rest@ =~= if k == 0 {
        Seq::empty()
    } else {
        path@.take(k as int - 1)
    });
    let mut parts = split_path(&rest);
    let dot: bool = name.len() == 1 && name[0] == '.';
    assert(dot == (name@ =~= seq!['.']));
    if name.len() == 0 || (dot && k > 0) {
        parts
    } else {
        let ghost before = parts@;
        parts.push(name);
        assert(views(parts@) =~= views(before).push(name@));
        parts
    }
}

/// Whether the name is that of a bundle.
fn names_bundle(name: &Vec<char>) -> (r: bool)
    ensures
        r == is_bundle(name@),
{
    let n: usize = name.len();
    let r: bool = n >= 4 && name[n - 4] == '.' && name[n - 3] == 'a' && name[n - 2] == 'p' && name[n
        - 1] == 'p';
    proof {
        if n >= 4 {
            let end = name@.skip(n - 4);
            assert(end.len() == 4);
            assert(end[0] == name@[n - 4] && end[1] == name@[n - 3] && end[2] == name@[n - 2]
                && end[3] == name@[n - 1]);
            if r {
                assert(end =~= seq!['.', 'a', 'p', 'p']);
            } else if end == seq!['.', 'a', 'p', 'p'] {
                assert(end[0] == '.' && end[1] == 'a' && end[2] == 'p' && end[3] == 'p');
            }
        }
    }
    r
}

/// Whether a part of a path is a name.
fn names_something(piece: &Vec<char>) -> (r: bool)
    ensures
        r == is_name(piece@),
{
    let dot: bool = piece.len() == 1 && piece[0] == '.';
    let dots: bool = piece.len() == 2 && piece[0] == '.' && piece[1] == '.';
    assert(dot == (piece@ =~= seq!['.']));
    assert(dots == (piece@ =~= seq!['.', '.']));
    !dot && !dots
}

/// The name of the application that an executable belongs to, where the
/// executable's own name does not say it.
pub fn app_bundle_name(exe: &str, name: &str) -> (r: Option<String>)
    ensures
        r is Some == bundle_of(exe@, name@) is Some,
        r is Some ==> r->0@ == bundle_of(exe@, name@)->0,
{
    let parts = split_path(&chars_of(exe));
    let ghost all = views(parts@);
    let mut dirs: Vec<Vec<char>> = Vec::new();
    let mut i: usize = parts.len();
    assert(all.take(all.len() as int) =~= all);
    assert(views(dirs@) =~= Seq::empty());
    assert(directory_names(all) =~= views(dirs@) + directory_names(all.take(i as int)));
    while i > 1
        invariant
            i <= parts@.len(),
            all == views(parts@),
            directory_names(all) == views(dirs@) + directory_names(all.take(i as int)),
        decreases i,
    {
        let ghost here = all.take(i as int);
        let ghost had = views(dirs@);
        assert(here.drop_last() =~= all.take(i as int - 1));
        assert(here[i - 2] == parts@[i - 2]@);
        if names_something(&parts[i - 2]) {
            let copy = part(&parts[i - 2], 0, parts[i - 2].len());
            assert(copy@ =~= parts@[i - 2]@);
            dirs.push(copy);
            assert(views(dirs@) =~= had.push(copy@));
            assert(had + (seq![copy@] + directory_names(here.drop_last())) =~= views(dirs@)
                + directory_names(here.drop_last()));
        }
        i -= 1;
    }
    assert(views(dirs@) =~= directory_names(all));
    let ghost names = views(dirs@);
    if dirs.len() < 2 {
        return None;
    }
    assert(names[0] == dirs@[0]@ && names[1] == dirs@[1]@);
    if !is_text(&dirs[0], "MacOS") || !is_text(&dirs[1], "Contents") {
        return None;
    }
    let mut k: usize = 2;
    while k < dirs.len()
        invariant
            2 <= k <= dirs@.len(),
            names == views(dirs@),
            first_bundle(names.skip(2)) == first_bundle(names.skip(k as int)),
            names == directory_names(components(exe@)),
            dirs@.len() >= 2,
            names[0] == "MacOS"@,
            names[1] == "Contents"@,
        decreases dirs@.len() - k,
    {
        let ghost left = names.skip(k as int);
        assert(left[0] == dirs@[k as int]@);
        assert(left.drop_first() =~= names.skip(k as int + 1));
        if names_bundle(&dirs[k]) {
            let stem = part(&dirs[k], 0, dirs[k].len() - 4);
            assert(stem@ =~= left[0].take(left[0].len() - 4));
            let bundle = string_of(&stem);
            if stem.len() == 0 || same_text(bundle.as_str(), name) {
                return None;
            }
            return Some(bundle);
        }
        k += 1;
    }
    None
}

/// A display name adds something: it is never empty and never the executable's
/// own name. A path that does not lead to a bundle's own executable gives none.
pub proof fn law_display_name_adds_something(path: Seq<char>, name: Seq<char>)
    ensures
        bundle_of(path, name) is Some ==> bundle_of(path, name)->0 != name && bundle_of(
            path,
            name,
        )->0.len() > 0,
        ({
            let dirs = directory_names(components(path));
            dirs.len() < 2 || dirs[0] != "MacOS"@ || dirs[1] != "Contents"@
        }) ==> bundle_of(path, name) is None,
{
}

/// The last slash of a path that ends in a name.
proof fn lemma_slash_before(p: Seq<char>, n: Seq<char>)
    requires
        forall|i: int| 0 <= i < n.len() ==> #[trigger] n[i] != '/',
    ensures
        last_slash(p + seq!['/'] + n) == p.len() + 1,
    decreases n.len(),
{
    let path = p + seq!['/'] + n;
    if n.len() == 0 {
        assert(path.last() == '/');
    } else {
        let m = n.drop_last();
        assert(n[n.len() - 1] != '/');
        assert(path.last() == n.last());
        assert(path.drop_last() =~= p + seq!['/'] + m);
        assert forall|i: int| 0 <= i < m.len() implies #[trigger] m[i] != '/' by {
            assert(n[i] != '/');
        }
        lemma_slash_before(p, m);
    }
}

/// A name at the end of a path is its last part.
proof fn lemma_last_component(p: Seq<char>, n: Seq<char>)
    requires
        n.len() > 0,
        n != seq!['.'],
        forall|i: int| 0 <= i < n.len() ==> #[trigger] n[i] != '/',
    ensures
        components(p + seq!['/'] + n) == components(p).push(n),
{
    let path = p + seq!['/'] + n;
    lemma_slash_before(p, n);
    assert(path.skip(p.len() as int + 1) =~= n);
    assert(path.take(p.len() as int) =~= p);
}

/// The executable of a bundle belongs to the application that the bundle is named
/// for, the innermost where bundles are nested. The name is told unless it is empty
/// or that of the executable.
pub proof fn law_executable_of_a_bundle(
    prefix: Seq<char>,
    app: Seq<char>,
    exe: Seq<char>,
    name: Seq<char>,
)
    requires
        forall|i: int| 0 <= i < app.len() ==> #[trigger] app[i] != '/',
        forall|i: int| 0 <= i < exe.len() ==> #[trigger] exe[i] != '/',
        exe.len() > 0,
        exe != seq!['.'],
    ensures
        ({
            let dir = prefix + seq!['/'] + (app + seq!['.', 'a', 'p', 'p']);
            let path = dir + seq!['/'] + "Contents"@ + seq!['/'] + "MacOS"@ + seq!['/'] + exe;
            bundle_of(path, name) == if app.len() == 0 || app == name {
                None
            } else {
                Some(app)
            }
        }),
{
    reveal_strlit("Contents");
    reveal_strlit("MacOS");
    let bundle = app + seq!['.', 'a', 'p', 'p'];
    let dir = prefix + seq!['/'] + bundle;
    let contents = dir + seq!['/'] + "Contents"@;
    let macos = contents + seq!['/'] + "MacOS"@;
    let path = macos + seq!['/'] + exe;
    assert(bundle.len() >= 4 && "Contents"@.len() == 8 && "MacOS"@.len() == 5);
    let dot = seq!['.'];
    assert(dot.len() == 1);
    assert forall|i: int| 0 <= i < bundle.len() implies #[trigger] bundle[i] != '/' by {
        if i < app.len() {
            assert(app[i] != '/');
        }
    }
    lemma_last_component(prefix, bundle);
    lemma_last_component(dir, "Contents"@);
    lemma_last_component(contents, "MacOS"@);
    lemma_last_component(macos, exe);
    let c0 = components(prefix);
    let c1 = c0.push(bundle);
    let c2 = c1.push("Contents"@);
    let c3 = c2.push("MacOS"@);
    let c4 = c3.push(exe);
    assert(components(path) == c4);
    assert(c4.drop_last() =~= c3);
    assert(c3.drop_last() =~= c2);
    assert(c2.drop_last() =~= c1);
    assert(c4[c4.len() - 2] == "MacOS"@);
    assert(c3[c3.len() - 2] == "Contents"@);
    assert(c2[c2.len() - 2] == bundle);
    let dots = seq!['.', '.'];
    assert(dots.len() == 2);
    assert(is_name("MacOS"@) && is_name("Contents"@) && is_name(bundle));
    let above = directory_names(c1);
    let dirs = directory_names(c4);
    assert(directory_names(c2) == seq![bundle] + above);
    assert(directory_names(c3) == seq!["Contents"@] + directory_names(c2));
    assert(dirs == seq!["MacOS"@] + directory_names(c3));
    assert(dirs =~= seq!["MacOS"@] + (seq!["Contents"@] + (seq![bundle] + above)));
    assert(dirs.skip(2)[0] == bundle);
    assert(bundle.skip(bundle.len() - 4) =~= seq!['.', 'a', 'p', 'p']);
    assert(bundle.take(bundle.len() - 4) =~= app);
}

} // verus!
