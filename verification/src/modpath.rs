//! Resolution of IMPORT paths: the `ns:name` form, lexical path
//! normalisation, the project-root boundary and the project-root search.
use vstd::prelude::*;

use crate::text::{chars_of, concat2, str_eq, string_from_chars};

verus! {

/// `p` begins with `pre`.
pub open spec fn has_prefix(p: Seq<char>, pre: Seq<char>) -> bool {
    pre.len() <= p.len() && p.take(pre.len() as int) == pre
}

pub open spec fn std_prefix() -> Seq<char> {
    seq!['w', 'l', 'w', 'l', ':']
}

pub open spec fn dot_slash() -> Seq<char> {
    seq!['.', '/']
}

pub open spec fn dot_dot_slash() -> Seq<char> {
    seq!['.', '.', '/']
}

/// `i` is the position of the first occurrence of `c` in `s`.
pub open spec fn first_index_of(s: Seq<char>, c: char, i: int) -> bool {
    0 <= i < s.len() && s[i] == c && forall|k: int| 0 <= k < i ==> s[k] != c
}

/// The `ns:name` reading of an IMPORT path: split at the first `:`, both
/// sides non-empty; not for `wlwl:` std paths or `./` / `../` relative paths.
pub open spec fn ns_split(p: Seq<char>) -> Option<(Seq<char>, Seq<char>)> {
    if has_prefix(p, std_prefix()) || has_prefix(p, dot_slash()) || has_prefix(p, dot_dot_slash()) {
        None
    } else if exists|i: int| first_index_of(p, ':', i) {
        let i = choose|i: int| first_index_of(p, ':', i);
        if i == 0 || i + 1 == p.len() {
            None
        } else {
            Some((p.take(i), p.skip(i + 1)))
        }
    } else {
        None
    }
}

pub(crate) fn chars_start_with(s: &Vec<char>, pre: &Vec<char>) -> (b: bool)
    ensures
        b == has_prefix(s@, pre@),
{
    if pre.len() > s.len() {
        return false;
    }
    let mut i: usize = 0;
    while i < pre.len()
        invariant
            i <= pre@.len() <= s@.len(),
            forall|k: int| 0 <= k < i ==> s@[k] == pre@[k],
        decreases pre@.len() - i,
    {
        if s[i] != pre[i] {
            assert(s@.take(pre@.len() as int)[i as int] != pre@[i as int]);
            return false;
        }
        i = i + 1;
    }
    assert(s@.take(pre@.len() as int) =~= pre@);
    true
}

/// The position of the first `c` in `s`, if any.
pub(crate) fn find_char(s: &Vec<char>, c: char) -> (r: Option<usize>)
    ensures
        match r {
            Some(i) => first_index_of(s@, c, i as int),
            None => forall|k: int| 0 <= k < s@.len() ==> s@[k] != c,
        },
{
    let mut i: usize = 0;
    while i < s.len()
        invariant
            i <= s@.len(),
            forall|k: int| 0 <= k < i ==> s@[k] != c,
        decreases s@.len() - i,
    {
        if s[i] == c {
            return Some(i);
        }
        i = i + 1;
    }
    None
}

/// If `path` has the form `<ns>:<name>` (a third-party namespace import),
/// the two parts; `None` for std paths, relative paths and plain names.
pub fn parse_ns_path(path: &str) -> (r: Option<(&str, &str)>)
    ensures
        match r {
            Some((ns, name)) => ns_split(path@) == Some((ns@, name@)),
            None => ns_split(path@) is None,
        },
{
    let cs = chars_of(path);
    let std_pre = vec!['w', 'l', 'w', 'l', ':'];
    let dot = vec!['.', '/'];
    let dotdot = vec!['.', '.', '/'];
    assert(std_pre@ == std_prefix());
    assert(dot@ == dot_slash());
    assert(dotdot@ == dot_dot_slash());
    if chars_start_with(&cs, &std_pre) {
        return None;
    }
    if chars_start_with(&cs, &dot) || chars_start_with(&cs, &dotdot) {
        return None;
    }
    match find_char(&cs, ':') {
        None => {
            assert(!exists|i: int| first_index_of(path@, ':', i));
            None
        },
        Some(i) => {
            assert(first_index_of(path@, ':', i as int));
            let ghost j = choose|j: int| first_index_of(path@, ':', j);
            assert(j == i) by {
                if j < i {
                    assert(path@[j] != ':');
                } else if j > i {
                    assert(path@[i as int] != ':');
                }
            }
            if i == 0 || i == cs.len() - 1 {
                return None;
            }
            let ns = path.substring_char(0, i);
            let name = path.substring_char(i + 1, cs.len());
            assert(ns@ =~= path@.take(i as int));
            assert(name@ =~= path@.skip(i + 1));
            Some((ns, name))
        },
    }
}


/// One component of a filesystem path, as `std::path::Path::components`
/// yields it.
#[derive(Debug, PartialEq, Eq)]
pub enum PathPart {
    /// A Windows path prefix such as `C:`.
    Prefix(String),
    /// The root directory `/`.
    Root,
    /// A leading `.`.
    Cur,
    /// A `..`.
    Parent,
    /// An ordinary name.
    Normal(String),
}

/// The abstract value of a path component.
pub enum Part {
    Prefix(Seq<char>),
    Root,
    Cur,
    Parent,
    Normal(Seq<char>),
}

impl View for PathPart {
    type V = Part;

    open spec fn view(&self) -> Part {
        match self {
            PathPart::Prefix(s) => Part::Prefix(s@),
            PathPart::Root => Part::Root,
            PathPart::Cur => Part::Cur,
            PathPart::Parent => Part::Parent,
            PathPart::Normal(s) => Part::Normal(s@),
        }
    }
}

pub open spec fn parts_view(v: Seq<PathPart>) -> Seq<Part> {
    v.map_values(|p: PathPart| p@)
}

/// The components that `std::path::Path::new(p).components()` yields for
/// the path text `p`.
pub uninterp spec fn path_components(p: Seq<char>) -> Seq<Part>;

/// The components of the path text `p`.
///
/// Trusted: calls `std::path::Path::components` and converts each
/// `Component` to the `PathPart` of the same kind, one for one. The
/// contract names the result; it states nothing of how std splits a path.
#[verifier::external_body]
pub(crate) fn components_of(p: &str) -> (parts: Vec<PathPart>)
    ensures
        parts_view(parts@) == path_components(p@),
{
    std::path::Path::new(p).components().map(|c| match c {
        std::path::Component::Prefix(x) => PathPart::Prefix(x.as_os_str().to_string_lossy().into_owned()),
        std::path::Component::RootDir => PathPart::Root,
        std::path::Component::CurDir => PathPart::Cur,
        std::path::Component::ParentDir => PathPart::Parent,
        std::path::Component::Normal(x) => PathPart::Normal(x.to_string_lossy().into_owned()),
    }).collect()
}

/// One step of lexical normalisation: `.` is dropped, `..` removes the last
/// name (never a root or prefix), a root starts over after the prefix (if
/// the path so far begins with one), a prefix starts over, a name is
/// appended.
pub open spec fn normalize_step(out: Seq<Part>, c: Part) -> Seq<Part> {
    match c {
        Part::Cur => out,
        Part::Parent => if out.len() > 0 && out.last() is Normal {
            out.drop_last()
        } else {
            out
        },
        Part::Root => if out.len() > 0 && out[0] is Prefix {
            seq![out[0], Part::Root]
        } else {
            seq![Part::Root]
        },
        Part::Prefix(x) => seq![Part::Prefix(x)],
        Part::Normal(x) => out.push(Part::Normal(x)),
    }
}

/// Lexical normalisation of a component list, left to right.
pub open spec fn normalize(parts: Seq<Part>) -> Seq<Part>
    decreases parts.len(),
{
    if parts.len() == 0 {
        Seq::empty()
    } else {
        normalize_step(normalize(parts.drop_last()), parts.last())
    }
}

fn part_clone(p: &PathPart) -> (r: PathPart)
    ensures
        r@ == p@,
{
    match p {
        PathPart::Prefix(s) => PathPart::Prefix(s.clone()),
        PathPart::Root => PathPart::Root,
        PathPart::Cur => PathPart::Cur,
        PathPart::Parent => PathPart::Parent,
        PathPart::Normal(s) => PathPart::Normal(s.clone()),
    }
}

fn part_eq(a: &PathPart, b: &PathPart) -> (r: bool)
    ensures
        r == (a@ == b@),
{
    match (a, b) {
        (PathPart::Prefix(x), PathPart::Prefix(y)) => x.eq(y),
        (PathPart::Root, PathPart::Root) => true,
        (PathPart::Cur, PathPart::Cur) => true,
        (PathPart::Parent, PathPart::Parent) => true,
        (PathPart::Normal(x), PathPart::Normal(y)) => x.eq(y),
        _ => false,
    }
}

/// A copy of a component list.
pub fn clone_parts(v: &Vec<PathPart>) -> (r: Vec<PathPart>)
    ensures
        parts_view(r@) == parts_view(v@),
{
    let mut r: Vec<PathPart> = Vec::new();
    let mut i: usize = 0;
    while i < v.len()
        invariant
            i <= v@.len(),
            r@.len() == i,
            parts_view(r@) == parts_view(v@.take(i as int)),
        decreases v@.len() - i,
    {
        let ghost old_r = r@;
        r.push(part_clone(&v[i]));
        assert(r@ =~= old_r.push(r@[i as int]));
        assert(v@.take(i + 1) =~= v@.take(i as int).push(v@[i as int]));
        assert forall|k: int| 0 <= k <= i implies parts_view(r@)[k] == parts_view(
            v@.take(i + 1),
        )[k] by {
            if k < i {
                assert(parts_view(old_r)[k] == parts_view(v@.take(i as int))[k]);
            }
        }
        assert(parts_view(r@) =~= parts_view(v@.take(i + 1)));
        i = i + 1;
    }
    assert(v@.take(v@.len() as int) =~= v@);
    r
}

/// Lexically normalise a component list: drop `.` and resolve `..`
/// against the preceding names, without touching the filesystem.
pub fn normalize_parts(parts: &Vec<PathPart>) -> (out: Vec<PathPart>)
    ensures
        parts_view(out@) == normalize(parts_view(parts@)),
{
    let mut out: Vec<PathPart> = Vec::new();
    let mut i: usize = 0;
    while i < parts.len()
        invariant
            i <= parts@.len(),
            parts_view(out@) == normalize(parts_view(parts@.take(i as int))),
        decreases parts@.len() - i,
    {
        let ghost before = parts_view(out@);
        assert(parts_view(parts@.take(i + 1)).drop_last() =~= parts_view(parts@.take(i as int)));
        assert(parts_view(parts@.take(i + 1)).last() == parts@[i as int]@);
        match &parts[i] {
            PathPart::Cur => {},
            PathPart::Parent => {
                let n = out.len();
                if n > 0 {
                    if let PathPart::Normal(_) = &out[n - 1] {
                        out.pop();
                        assert(parts_view(out@) =~= before.drop_last());
                    }
                }
            },
            PathPart::Root => {
                let keep = out.len() > 0 && match &out[0] {
                    PathPart::Prefix(_) => true,
                    _ => false,
                };
                if keep {
                    let first = part_clone(&out[0]);
                    out = vec![first, PathPart::Root];
                    assert(parts_view(out@) =~= seq![before[0], Part::Root]);
                } else {
                    out = vec![PathPart::Root];
                    assert(parts_view(out@) =~= seq![Part::Root]);
                }
            },
            PathPart::Prefix(x) => {
                out = vec![PathPart::Prefix(x.clone())];
                assert(parts_view(out@) =~= seq![parts@[i as int]@]);
            },
            PathPart::Normal(x) => {
                out.push(PathPart::Normal(x.clone()));
                assert(parts_view(out@) =~= before.push(parts@[i as int]@));
            },
        }
        i = i + 1;
    }
    assert(parts@.take(parts@.len() as int) =~= parts@);
    out
}

/// The components of the path `p`, as the host's path parser splits it.
pub fn path_parts(p: &str) -> (out: Vec<PathPart>)
    ensures
        parts_view(out@) == path_components(p@),
{
    components_of(p)
}

/// Lexically normalise the path `p`: drop `.` components and resolve `..`
/// against preceding components. Symlinks are not resolved.
pub fn lexical_normalize(p: &str) -> (out: Vec<PathPart>)
    ensures
        parts_view(out@) == normalize(path_components(p@)),
{
    let parts = components_of(p);
    normalize_parts(&parts)
}

/// `root` is `path` or one of its ancestors, comparing whole components.
pub open spec fn within(path: Seq<Part>, root: Seq<Part>) -> bool {
    root.len() <= path.len() && path.take(root.len() as int) == root
}

/// True if `path` is `root` or lies under it (lexically).
pub fn is_within(path: &Vec<PathPart>, root: &Vec<PathPart>) -> (r: bool)
    ensures
        r == within(parts_view(path@), parts_view(root@)),
{
    if root.len() > path.len() {
        return false;
    }
    let mut i: usize = 0;
    while i < root.len()
        invariant
            i <= root@.len() <= path@.len(),
            forall|k: int| 0 <= k < i ==> path@[k]@ == root@[k]@,
        decreases root@.len() - i,
    {
        if !part_eq(&path[i], &root[i]) {
            assert(parts_view(path@).take(root@.len() as int)[i as int] != parts_view(root@)[i as int]);
            return false;
        }
        i = i + 1;
    }
    assert(parts_view(path@).take(root@.len() as int) =~= parts_view(root@));
    true
}

/// The parent of a path, as `Path::parent` gives it: the path without its
/// last component; none for the empty path or one that ends in a root or
/// a prefix.
pub open spec fn parent_of(p: Seq<Part>) -> Option<Seq<Part>> {
    if p.len() == 0 || p.last() is Root || p.last() is Prefix {
        None
    } else {
        Some(p.drop_last())
    }
}

/// The path itself, then its parent, grandparent, ... up to the top.
pub open spec fn ancestors_of(p: Seq<Part>) -> Seq<Seq<Part>>
    decreases p.len(),
{
    match parent_of(p) {
        Some(q) => seq![p] + ancestors_of(q),
        None => seq![p],
    }
}

/// The directories that the project-root search visits, starting at
/// `start` and walking up one component at a time.
pub fn ancestors(start: &Vec<PathPart>) -> (r: Vec<Vec<PathPart>>)
    ensures
        r@.map_values(|v: Vec<PathPart>| parts_view(v@)) == ancestors_of(parts_view(start@)),
{
    let mut r: Vec<Vec<PathPart>> = Vec::new();
    let mut cur = clone_parts(start);
    let ghost mut seen: Seq<Seq<Part>> = Seq::empty();
    loop
        invariant
            r@.map_values(|v: Vec<PathPart>| parts_view(v@)) == seen,
            seen + ancestors_of(parts_view(cur@)) == ancestors_of(parts_view(start@)),
        decreases cur@.len(),
    {
        let n = cur.len();
        let stop = n == 0 || matches!(cur[n - 1], PathPart::Root) || matches!(
            cur[n - 1],
            PathPart::Prefix(_)
        );
        let ghost cv = parts_view(cur@);
        let next = if stop {
            Vec::new()
        } else {
            let mut q = clone_parts(&cur);
            q.pop();
            assert(parts_view(q@) =~= cv.drop_last());
            q
        };
        let ghost old_r = r@;
        r.push(cur);
        assert(r@.map_values(|v: Vec<PathPart>| parts_view(v@)) =~= old_r.map_values(
            |v: Vec<PathPart>| parts_view(v@),
        ).push(cv));
        proof {
            seen = seen.push(cv);
        }
        if stop {
            assert(ancestors_of(cv) == seq![cv]);
            assert(seen =~= seen.drop_last() + ancestors_of(cv));
            return r;
        }
        assert(ancestors_of(cv) == seq![cv] + ancestors_of(cv.drop_last()));
        assert(seen.drop_last() + ancestors_of(cv) =~= seen + ancestors_of(cv.drop_last()));
        cur = next;
    }
}

/// The project root: the first directory among the ancestors of `start`
/// (itself included) that holds a project manifest, else `start`.
pub open spec fn project_root(start: Seq<Part>, manifest_at: Seq<bool>) -> Seq<Part> {
    if exists|k: int| 0 <= k < manifest_at.len() && manifest_at[k] {
        let k = choose|k: int|
            0 <= k < manifest_at.len() && manifest_at[k] && forall|j: int|
                0 <= j < k ==> !manifest_at[j];
        ancestors_of(start)[k]
    } else {
        start
    }
}

/// Walk up from `start` looking for the directory that holds a project
/// manifest. `manifest_at[k]` tells whether the k-th directory of
/// `ancestors(start)` holds one (checked by the caller on the filesystem);
/// the first such directory is the root, and without one the root is
/// `start` itself.
pub fn find_project_root(start: &Vec<PathPart>, manifest_at: &Vec<bool>) -> (root: Vec<PathPart>)
    requires
        manifest_at@.len() == ancestors_of(parts_view(start@)).len(),
    ensures
        parts_view(root@) == project_root(parts_view(start@), manifest_at@),
{
    let anc = ancestors(start);
    let ghost av = anc@.map_values(|v: Vec<PathPart>| parts_view(v@));
    let mut k: usize = 0;
    while k < manifest_at.len()
        invariant
            k <= manifest_at@.len(),
            manifest_at@.len() == anc@.len(),
            av == anc@.map_values(|v: Vec<PathPart>| parts_view(v@)),
            av == ancestors_of(parts_view(start@)),
            forall|j: int| 0 <= j < k ==> !manifest_at@[j],
        decreases manifest_at@.len() - k,
    {
        if manifest_at[k] {
            let ghost c = choose|c: int|
                0 <= c < manifest_at@.len() && manifest_at@[c] && forall|j: int|
                    0 <= j < c ==> !manifest_at@[j];
            assert(c == k) by {
                if c < k {
                } else if c > k {
                    assert(!manifest_at@[k as int]);
                }
            }
            let r = clone_parts(&anc[k]);
            assert(av[k as int] == parts_view(anc@[k as int]@));
            return r;
        }
        k = k + 1;
    }
    clone_parts(start)
}


/// The directories where a bare module name (neither `ns:name` nor a
/// relative path) is looked for, in order: the importing module's
/// directory, then the project root when that is another directory.
pub fn bare_module_dirs(base_dir: &Vec<PathPart>, root: &Vec<PathPart>) -> (r: Vec<Vec<PathPart>>)
    ensures
        parts_view(base_dir@) == parts_view(root@) ==> r@.len() == 1,
        parts_view(base_dir@) != parts_view(root@) ==> r@.len() == 2 && parts_view(r@[1]@) == parts_view(root@),
        r@.len() >= 1 && parts_view(r@[0]@) == parts_view(base_dir@),
{
    let mut r: Vec<Vec<PathPart>> = Vec::new();
    r.push(clone_parts(base_dir));
    let same = base_dir.len() == root.len() && is_within(base_dir, root);
    proof {
        if base_dir@.len() == root@.len() && within(parts_view(base_dir@), parts_view(root@)) {
            assert(parts_view(base_dir@).take(root@.len() as int) =~= parts_view(base_dir@));
        }
        if parts_view(base_dir@) == parts_view(root@) {
            assert(parts_view(base_dir@).len() == base_dir@.len());
            assert(parts_view(base_dir@).take(root@.len() as int) =~= parts_view(base_dir@));
        }
    }
    if !same {
        r.push(clone_parts(root));
    }
    r
}

/// The file name of the module `name`: `name.wl`.
pub fn module_file_name(name: &str) -> (r: String)
    ensures
        r@ == name@ + wl_suffix(),
{
    proof {
        reveal_strlit(".wl");
    }
    let r = concat2(name, ".wl");
    assert(".wl"@ =~= wl_suffix());
    r
}

/// Where an `IMPORT` path leads, before any file is read.
#[derive(Debug)]
pub enum ModuleSource {
    /// A path under `wlwl:`, which the standard library serves.
    Std,
    /// `ns:name`, which the project manifest maps to a directory.
    Namespace(String, String),
    /// `./m` or `../d/m`, resolved against the importing module's
    /// directory (`OutsideRoot` is `E0040`).
    Relative(RelativeResolution),
    /// A bare name: its file name, and the directories to look for it in,
    /// in order.
    Bare(String, Vec<Vec<PathPart>>),
}

/// The source of the module `path` imported from the directory
/// `base_dir` of a project rooted at `root`: the standard library first,
/// then a namespace, then a relative path, then a bare name.
pub fn module_source(path: &str, base_dir: &Vec<PathPart>, root: &Vec<PathPart>) -> (r: ModuleSource)
    ensures
        has_prefix(path@, std_prefix()) ==> r is Std,
        !has_prefix(path@, std_prefix()) && ns_split(path@) is Some ==> (r matches ModuleSource::Namespace(ns, name)
            && ns_split(path@) == Some((ns@, name@))),
        !has_prefix(path@, std_prefix()) && ns_split(path@) is None && (has_prefix(path@, dot_slash()) || has_prefix(
            path@,
            dot_dot_slash(),
        )) ==> (r matches ModuleSource::Relative(rr) && match pop_n(parts_view(base_dir@), leading_ups(path@)) {
            None => rr is OutsideRoot,
            Some(dir) => rr matches RelativeResolution::Resolved(ri) && parts_view(ri.dir@) == dir && ri.rel_dir@
                == split_module(after_ups(path@)).0 && ri.module@ == split_module(after_ups(path@)).1,
        }),
        !has_prefix(path@, std_prefix()) && ns_split(path@) is None && !(has_prefix(path@, dot_slash()) || has_prefix(
            path@,
            dot_dot_slash(),
        )) ==> (r matches ModuleSource::Bare(file, dirs) && file@ == path@ + wl_suffix() && (if parts_view(base_dir@)
            == parts_view(root@) {
            dirs@.len() == 1
        } else {
            dirs@.len() == 2 && parts_view(dirs@[1]@) == parts_view(root@)
        }) && dirs@.len() >= 1 && parts_view(dirs@[0]@) == parts_view(base_dir@)),
{
    let cs = chars_of(path);
    let std_pre = vec!['w', 'l', 'w', 'l', ':'];
    assert(std_pre@ == std_prefix());
    if chars_start_with(&cs, &std_pre) {
        return ModuleSource::Std;
    }
    if let Some((ns, name)) = parse_ns_path(path) {
        return ModuleSource::Namespace(String::from_str(ns), String::from_str(name));
    }
    match resolve_relative_import(base_dir, path) {
        RelativeResolution::NotRelative => ModuleSource::Bare(module_file_name(path), bare_module_dirs(base_dir, root)),
        other => ModuleSource::Relative(other),
    }
}

pub open spec fn wl_suffix() -> Seq<char> {
    seq!['.', 'w', 'l']
}

pub open spec fn has_suffix(s: Seq<char>, suf: Seq<char>) -> bool {
    suf.len() <= s.len() && s.skip(s.len() - suf.len()) == suf
}

/// `s` with every trailing `.wl` removed.
pub open spec fn trim_wl(s: Seq<char>) -> Seq<char>
    decreases s.len(),
{
    if has_suffix(s, wl_suffix()) {
        trim_wl(s.take(s.len() - 3))
    } else {
        s
    }
}

/// The number of leading `../` of `p`.
pub open spec fn leading_ups(p: Seq<char>) -> nat
    decreases p.len(),
{
    if has_prefix(p, dot_dot_slash()) {
        1 + leading_ups(p.skip(3))
    } else {
        0
    }
}

/// `p` after its leading `../`, and then one `./` if there is one.
pub open spec fn after_ups(p: Seq<char>) -> Seq<char>
    decreases p.len(),
{
    if has_prefix(p, dot_dot_slash()) {
        after_ups(p.skip(3))
    } else if has_prefix(p, dot_slash()) {
        p.skip(2)
    } else {
        p
    }
}

/// `i` is the position of the last `c` of `s`.
pub open spec fn last_index_of(s: Seq<char>, c: char, i: int) -> bool {
    0 <= i < s.len() && s[i] == c && forall|k: int| i < k < s.len() ==> s[k] != c
}

/// The directory part and the module part of the rest of a relative
/// import: split at the last `/` (no directory part without one), with the
/// trailing `.wl` suffixes removed from the module part.
pub open spec fn split_module(rest: Seq<char>) -> (Seq<char>, Seq<char>) {
    if exists|i: int| last_index_of(rest, '/', i) {
        let i = choose|i: int| last_index_of(rest, '/', i);
        (rest.take(i), trim_wl(rest.skip(i + 1)))
    } else {
        (Seq::empty(), trim_wl(rest))
    }
}

/// `dir` with its last component removed `n` times; none as soon as a
/// removal is impossible.
pub open spec fn pop_n(dir: Seq<Part>, n: nat) -> Option<Seq<Part>>
    decreases n,
{
    if n == 0 {
        Some(dir)
    } else {
        match parent_of(dir) {
            Some(q) => pop_n(q, (n - 1) as nat),
            None => None,
        }
    }
}

/// Where a relative import points: the directory that the leading `../`
/// lead to, the sub-directory text to join onto it, and the module name.
#[derive(Debug)]
pub struct RelativeImport {
    pub dir: Vec<PathPart>,
    pub rel_dir: String,
    pub module: String,
}

/// The reading of an IMPORT path as a relative import.
#[derive(Debug)]
pub enum RelativeResolution {
    /// The path does not start with `./` or `../`.
    NotRelative,
    /// A `../` climbs above the top of the importing module's directory.
    OutsideRoot,
    Resolved(RelativeImport),
}

pub(crate) fn chars_end_with(s: &Vec<char>, suf: &Vec<char>) -> (b: bool)
    ensures
        b == has_suffix(s@, suf@),
{
    if suf.len() > s.len() {
        return false;
    }
    let off = s.len() - suf.len();
    let mut i: usize = 0;
    while i < suf.len()
        invariant
            off + suf@.len() == s@.len(),
            s@.len() == s.len(),
            i <= suf@.len(),
            forall|k: int| 0 <= k < i ==> s@[off + k] == suf@[k],
        decreases suf@.len() - i,
    {
        if s[off + i] != suf[i] {
            assert(s@.skip(off as int)[i as int] != suf@[i as int]);
            return false;
        }
        i = i + 1;
    }
    assert(s@.skip(off as int) =~= suf@);
    true
}

fn trim_wl_chars(s: Vec<char>) -> (r: Vec<char>)
    ensures
        r@ == trim_wl(s@),
{
    let suf = vec!['.', 'w', 'l'];
    assert(suf@ == wl_suffix());
    let mut cur = s;
    while chars_end_with(&cur, &suf)
        invariant
            suf@ == wl_suffix(),
            trim_wl(cur@) == trim_wl(s@),
        decreases cur@.len(),
    {
        let n = cur.len();
        cur.truncate(n - 3);
    }
    cur
}

fn last_slash(s: &Vec<char>) -> (r: Option<usize>)
    ensures
        match r {
            Some(i) => last_index_of(s@, '/', i as int),
            None => forall|k: int| 0 <= k < s@.len() ==> s@[k] != '/',
        },
{
    let mut i = s.len();
    while i > 0
        invariant
            i <= s@.len(),
            forall|k: int| i <= k < s@.len() ==> s@[k] != '/',
        decreases i,
    {
        if s[i - 1] == '/' {
            return Some(i - 1);
        }
        i = i - 1;
    }
    None
}

pub(crate) fn sub_chars(s: &Vec<char>, from: usize, to: usize) -> (r: Vec<char>)
    requires
        from <= to <= s@.len(),
    ensures
        r@ == s@.subrange(from as int, to as int),
{
    let mut r: Vec<char> = Vec::new();
    let mut i = from;
    while i < to
        invariant
            from <= i <= to <= s@.len(),
            r@ == s@.subrange(from as int, i as int),
        decreases to - i,
    {
        r.push(s[i]);
        assert(s@.subrange(from as int, i + 1) =~= s@.subrange(from as int, i as int).push(
            s@[i as int],
        ));
        i = i + 1;
    }
    r
}

/// Resolve the relative IMPORT `path` (`./m`, `../d/m.wl`, ...) against the
/// directory `base_dir` of the importing module: each leading `../` climbs
/// one directory, one `./` after them is dropped, the rest is split into a
/// sub-directory and a module name at its last `/`, and trailing `.wl`
/// suffixes are dropped from the name.
pub fn resolve_relative_import(base_dir: &Vec<PathPart>, path: &str) -> (r: RelativeResolution)
    ensures
        !(has_prefix(path@, dot_slash()) || has_prefix(path@, dot_dot_slash())) ==> r is NotRelative,
        (has_prefix(path@, dot_slash()) || has_prefix(path@, dot_dot_slash())) ==> match pop_n(
            parts_view(base_dir@),
            leading_ups(path@),
        ) {
            None => r is OutsideRoot,
            Some(dir) => match r {
                RelativeResolution::Resolved(ri) => {
                    &&& parts_view(ri.dir@) == dir
                    &&& ri.rel_dir@ == split_module(after_ups(path@)).0
                    &&& ri.module@ == split_module(after_ups(path@)).1
                },
                _ => false,
            },
        },
{
    let cs = chars_of(path);
    let dot = vec!['.', '/'];
    let dotdot = vec!['.', '.', '/'];
    assert(dot@ == dot_slash());
    assert(dotdot@ == dot_dot_slash());
    if !(chars_start_with(&cs, &dot) || chars_start_with(&cs, &dotdot)) {
        return RelativeResolution::NotRelative;
    }
    let mut dir = clone_parts(base_dir);
    let mut pos: usize = 0;
    let ghost mut ups: nat = 0;
    let mut rest = sub_chars(&cs, 0, cs.len());
    assert(rest@ =~= path@);
    while chars_start_with(&rest, &dotdot)
        invariant
            dotdot@ == dot_dot_slash(),
            dot@ == dot_slash(),
            ups + leading_ups(rest@) == leading_ups(path@),
            after_ups(rest@) == after_ups(path@),
            pop_n(parts_view(base_dir@), ups) == Some(parts_view(dir@)),
        decreases rest@.len(),
    {
        let n = dir.len();
        let stop = n == 0 || matches!(dir[n - 1], PathPart::Root) || matches!(
            dir[n - 1],
            PathPart::Prefix(_)
        );
        proof {
            lemma_pop_n_step(parts_view(base_dir@), ups);
        }
        if stop {
            proof {
                lemma_pop_n_none(parts_view(base_dir@), ups, leading_ups(rest@));
            }
            return RelativeResolution::OutsideRoot;
        }
        let ghost before = parts_view(dir@);
        dir.pop();
        assert(parts_view(dir@) =~= before.drop_last());
        proof {
            ups = ups + 1;
        }
        rest = sub_chars(&rest, 3, rest.len());
    }
    let rest = if chars_start_with(&rest, &dot) {
        sub_chars(&rest, 2, rest.len())
    } else {
        rest
    };
    assert(leading_ups(path@) == ups);
    let (rel_dir, module) = match last_slash(&rest) {
        Some(i) => {
            proof {
                let j = choose|j: int| last_index_of(rest@, '/', j);
                assert(j == i) by {
                    if j < i {
                        assert(rest@[i as int] != '/');
                    } else if j > i {
                        assert(rest@[j] != '/');
                    }
                }
            }
            let d = sub_chars(&rest, 0, i);
            let n = rest.len();
            assert(i < n);
            let m = trim_wl_chars(sub_chars(&rest, i + 1, n));
            assert(d@ =~= rest@.take(i as int));
            assert(rest@.subrange(i + 1, rest@.len() as int) =~= rest@.skip(i + 1));
            (d, m)
        },
        None => {
            assert(!exists|j: int| last_index_of(rest@, '/', j));
            (Vec::new(), trim_wl_chars(rest))
        },
    };
    RelativeResolution::Resolved(
        RelativeImport {
            dir,
            rel_dir: string_from_chars(rel_dir.as_slice()),
            module: string_from_chars(module.as_slice()),
        },
    )
}

proof fn lemma_pop_n_step(dir: Seq<Part>, n: nat)
    requires
        pop_n(dir, n) is Some,
    ensures
        pop_n(dir, n + 1) == match parent_of(pop_n(dir, n)->0) {
            Some(q) => Some(q),
            None => None::<Seq<Part>>,
        },
    decreases n,
{
    reveal_with_fuel(pop_n, 2);
    if n > 0 {
        lemma_pop_n_step(parent_of(dir)->0, (n - 1) as nat);
    }
}

proof fn lemma_pop_n_none(dir: Seq<Part>, n: nat, more: nat)
    requires
        pop_n(dir, n) is Some,
        parent_of(pop_n(dir, n)->0) is None,
        more >= 1,
    ensures
        pop_n(dir, n + more) is None,
    decreases n,
{
    if n > 0 {
        lemma_pop_n_none(parent_of(dir)->0, (n - 1) as nat, more);
    } else {
        assert(pop_n(dir, more) is None);
    }
}


pub open spec fn arrow() -> Seq<char> {
    seq![' ', '-', '>', ' ']
}

/// The names of `names` separated by ` -> `.
pub open spec fn arrow_join(names: Seq<Seq<char>>) -> Seq<char>
    decreases names.len(),
{
    if names.len() == 0 {
        Seq::empty()
    } else if names.len() == 1 {
        names[0]
    } else {
        arrow_join(names.drop_last()) + arrow() + names.last()
    }
}

/// The import cycle that loading `module` would close, given the stack of
/// modules being loaded: when `module` is already on the stack, the stack
/// followed by `module`, joined with ` -> `; otherwise none.
pub fn circular_import(loading: &Vec<String>, module: &str) -> (r: Option<String>)
    ensures
        match r {
            Some(cycle) => {
                &&& exists|k: int| 0 <= k < loading@.len() && loading@[k]@ == module@
                &&& cycle@ == arrow_join(
                    loading@.map_values(|s: String| s@).push(module@),
                )
            },
            None => forall|k: int| 0 <= k < loading@.len() ==> loading@[k]@ != module@,
        },
{
    let mut found = false;
    let mut i: usize = 0;
    while i < loading.len()
        invariant
            i <= loading@.len(),
            found ==> exists|k: int| 0 <= k < loading@.len() && loading@[k]@ == module@,
            !found ==> forall|k: int| 0 <= k < i ==> loading@[k]@ != module@,
        decreases loading@.len() - i,
    {
        if str_eq(loading[i].as_str(), module) {
            found = true;
        }
        i = i + 1;
    }
    if !found {
        return None;
    }
    let ghost names = loading@.map_values(|s: String| s@).push(module@);
    let mut out = String::new();
    let mut j: usize = 0;
    while j < loading.len()
        invariant
            j <= loading@.len(),
            names == loading@.map_values(|s: String| s@).push(module@),
            out@ == arrow_join(names.take(j as int)),
        decreases loading@.len() - j,
    {
        if j > 0 {
            out.append(" -> ");
            proof {
                reveal_strlit(" -> ");
            }
        }
        out.append(loading[j].as_str());
        assert(names.take(j + 1).drop_last() =~= names.take(j as int));
        assert(names.take(j + 1).last() == loading@[j as int]@);
        j = j + 1;
    }
    if loading.len() > 0 {
        out.append(" -> ");
        proof {
            reveal_strlit(" -> ");
        }
    }
    out.append(module);
    assert(names.take(loading@.len() as int + 1) =~= names);
    assert(names.take(loading@.len() as int + 1).drop_last() =~= names.take(loading@.len() as int));
    Some(out)
}

} // verus!
