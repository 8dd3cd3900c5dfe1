//! Paths as sequences of components, and the path arithmetic done on them.
use vstd::prelude::*;

use crate::bytes::{copy_bytes, is_word, lemma_split_on_nonempty, lines_view, same_bytes, split_on, split_on_of};
use crate::lang::file_name;
use vstd::string::StringSliceAdditionalSpecFns;

verus! {

/// One component of a path, as a path parser yields it.
#[derive(Debug)]
pub enum PathPart {
    /// The root directory, `/`.
    RootDir,
    /// A reference to the current directory, `.`.
    CurDir,
    /// A reference to the parent directory, `..`.
    ParentDir,
    /// A name, as its bytes.
    Normal(Vec<u8>),
}

/// The view of a path component.
pub enum PartView {
    RootDir,
    CurDir,
    ParentDir,
    Normal(Seq<u8>),
}

impl View for PathPart {
    type V = PartView;

    open spec fn view(&self) -> PartView {
        match self {
            PathPart::RootDir => PartView::RootDir,
            PathPart::CurDir => PartView::CurDir,
            PathPart::ParentDir => PartView::ParentDir,
            PathPart::Normal(v) => PartView::Normal(v@),
        }
    }
}

/// The views of the components of a path.
pub open spec fn parts_view(p: Seq<PathPart>) -> Seq<PartView> {
    p.map_values(|x: PathPart| x@)
}

/// A fresh copy of a component.
pub fn copy_part(p: &PathPart) -> (r: PathPart)
    ensures
        r@ == p@,
{
    match p {
        PathPart::RootDir => PathPart::RootDir,
        PathPart::CurDir => PathPart::CurDir,
        PathPart::ParentDir => PathPart::ParentDir,
        PathPart::Normal(v) => PathPart::Normal(copy_bytes(v.as_slice())),
    }
}

/// Whether two components are equal.
pub fn same_part(a: &PathPart, b: &PathPart) -> (r: bool)
    ensures
        r == (a@ == b@),
{
    match (a, b) {
        (PathPart::RootDir, PathPart::RootDir) => true,
        (PathPart::CurDir, PathPart::CurDir) => true,
        (PathPart::ParentDir, PathPart::ParentDir) => true,
        (PathPart::Normal(x), PathPart::Normal(y)) => same_bytes(x.as_slice(), y.as_slice()),
        _ => false,
    }
}

/// `p` without its last component, unless that is the root or `p` is empty.
pub open spec fn pop_part(p: Seq<PartView>) -> Seq<PartView> {
    if p.len() > 0 && !(p.last() is RootDir) {
        p.drop_last()
    } else {
        p
    }
}

/// The lexical normal form of a path: `.` dropped, `..` taking away the
/// name before it, a root restarting the path.
pub open spec fn normalized_parts(p: Seq<PartView>) -> Seq<PartView>
    decreases p.len(),
{
    if p.len() == 0 {
        Seq::empty()
    } else {
        let prev = normalized_parts(p.drop_last());
        match p.last() {
            PartView::RootDir => seq![PartView::RootDir],
            PartView::CurDir => prev,
            PartView::ParentDir => pop_part(prev),
            PartView::Normal(c) => prev.push(PartView::Normal(c)),
        }
    }
}

/// Normalises a path without touching the file system.
pub fn normalize_path(path: &[PathPart]) -> (r: Option<Vec<PathPart>>)
    ensures
        r is Some,
        parts_view(r->0@) == normalized_parts(parts_view(path@)),
{
    let mut ret: Vec<PathPart> = Vec::new();
    let mut i: usize = 0;
    proof {
        assert(parts_view(path@).take(0) =~= Seq::<PartView>::empty());
        assert(parts_view(ret@) =~= Seq::<PartView>::empty());
    }
    while i < path.len()
        invariant
            i <= path@.len(),
            parts_view(ret@) == normalized_parts(parts_view(path@).take(i as int)),
        decreases path@.len() - i,
    {
        let ghost prev = ret@;
        proof {
            assert(parts_view(path@).take(i + 1).drop_last() =~= parts_view(path@).take(i as int));
            assert(parts_view(path@).take(i + 1).last() == path@[i as int]@);
        }
        match &path[i] {
            PathPart::RootDir => {
                ret = Vec::new();
                ret.push(PathPart::RootDir);
                assert(parts_view(ret@) =~= seq![PartView::RootDir]);
            },
            PathPart::CurDir => {},
            PathPart::ParentDir => {
                let n = ret.len();
                if n > 0 && !matches!(ret[n - 1], PathPart::RootDir) {
                    ret.pop();
                    assert(parts_view(ret@) =~= parts_view(prev).drop_last());
                }
            },
            PathPart::Normal(c) => {
                ret.push(PathPart::Normal(copy_bytes(c.as_slice())));
                assert(parts_view(ret@) =~= parts_view(prev).push(path@[i as int]@));
            },
        }
        i = i + 1;
    }
    assert(parts_view(path@).take(path@.len() as int) =~= parts_view(path@));
    Some(ret)
}

/// Whether `a` is a leading run of the components of `b`.
pub open spec fn is_prefix(a: Seq<PartView>, b: Seq<PartView>) -> bool {
    a.len() <= b.len() && b.take(a.len() as int) == a
}

/// The distance through the longest ancestor of `p1` with at most `k`
/// components that also leads `p2`: the components of both below it.
pub open spec fn dist_from(p1: Seq<PartView>, p2: Seq<PartView>, k: int) -> Option<int>
    decreases k,
{
    if k <= 0 {
        None
    } else if is_prefix(p1.take(k), p2) {
        Some((p1.len() - k) + (p2.len() - k))
    } else {
        dist_from(p1, p2, k - 1)
    }
}

/// The number of components between two paths through their deepest
/// common non-empty ancestor; `None` when they share none.
pub open spec fn paths_dist(p1: Seq<PartView>, p2: Seq<PartView>) -> Option<int> {
    dist_from(p1, p2, p1.len() as int)
}

/// Whether the first `k` components of `a` lead `b`.
fn leads(a: &[PathPart], b: &[PathPart], k: usize) -> (r: bool)
    requires
        k <= a@.len(),
    ensures
        r == is_prefix(parts_view(a@).take(k as int), parts_view(b@)),
{
    if k > b.len() {
        return false;
    }
    let mut i: usize = 0;
    while i < k
        invariant
            k <= a@.len(),
            k <= b@.len(),
            i <= k,
            forall|j: int| 0 <= j < i ==> a@[j]@ == b@[j]@,
        decreases k - i,
    {
        if !same_part(&a[i], &b[i]) {
            assert(parts_view(b@).take(k as int)[i as int] != parts_view(a@).take(
                k as int,
            )[i as int]);
            return false;
        }
        i = i + 1;
    }
    assert(parts_view(b@).take(k as int) =~= parts_view(a@).take(k as int));
    true
}

/// The number of components between two paths through their deepest
/// common ancestor, `None` when they share none.
pub fn get_paths_dist(path1: &[PathPart], path2: &[PathPart]) -> (r: Option<usize>)
    requires
        path1@.len() + path2@.len() <= usize::MAX,
    ensures
        match r {
            Some(d) => paths_dist(parts_view(path1@), parts_view(path2@)) == Some(d as int),
            None => paths_dist(parts_view(path1@), parts_view(path2@)) is None,
        },
{
    let ghost p1 = parts_view(path1@);
    let ghost p2 = parts_view(path2@);
    let mut k: usize = path1.len();
    while k > 0
        invariant
            k <= path1@.len(),
            p1 == parts_view(path1@),
            p2 == parts_view(path2@),
            p1.len() == path1@.len(),
            p2.len() == path2@.len(),
            path1@.len() + path2@.len() <= usize::MAX,
            paths_dist(p1, p2) == dist_from(p1, p2, k as int),
        decreases k,
    {
        if leads(path1, path2, k) {
            return Some((path1.len() - k) + (path2.len() - k));
        }
        k = k - 1;
    }
    None
}

/// Code of the `/` byte.
pub const SLASH: u8 = 47;

/// The component that a piece between slashes gives, if any: empty pieces
/// and `.` give none, but a `.` that opens a relative path.
pub open spec fn part_of_piece(piece: Seq<u8>, opens: bool) -> Option<PartView> {
    if piece.len() == 0 {
        None
    } else if piece == ".".spec_bytes() {
        if opens {
            Some(PartView::CurDir)
        } else {
            None
        }
    } else if piece == "..".spec_bytes() {
        Some(PartView::ParentDir)
    } else {
        Some(PartView::Normal(piece))
    }
}

/// The components given by the pieces of a path, after a root if `root`.
pub open spec fn parts_of_pieces(pieces: Seq<Seq<u8>>, root: bool) -> Seq<PartView>
    decreases pieces.len(),
{
    if pieces.len() == 0 {
        if root {
            seq![PartView::RootDir]
        } else {
            Seq::empty()
        }
    } else {
        let prev = parts_of_pieces(pieces.drop_last(), root);
        match part_of_piece(pieces.last(), pieces.len() == 1 && !root) {
            Some(x) => prev.push(x),
            None => prev,
        }
    }
}

/// The components of a `/`-separated path.
pub open spec fn parse_parts(s: Seq<u8>) -> Seq<PartView> {
    parts_of_pieces(split_on(s, SLASH), s.len() > 0 && s[0] == SLASH)
}

/// Splits a `/`-separated path into its components.
pub fn parse_path(s: &[u8]) -> (r: Vec<PathPart>)
    ensures
        parts_view(r@) == parse_parts(s@),
{
    let root = s.len() > 0 && s[0] == SLASH;
    let pieces = split_on_of(s, SLASH);
    let ghost ps = split_on(s@, SLASH);
    let mut r: Vec<PathPart> = Vec::new();
    if root {
        r.push(PathPart::RootDir);
    }
    proof {
        assert(ps.take(0) =~= Seq::<Seq<u8>>::empty());
        assert(parts_view(r@) =~= parts_of_pieces(ps.take(0), root));
    }
    let mut i: usize = 0;
    while i < pieces.len()
        invariant
            i <= pieces@.len(),
            lines_view(pieces@) == ps,
            parts_view(r@) == parts_of_pieces(ps.take(i as int), root),
        decreases pieces@.len() - i,
    {
        let piece = pieces[i].as_slice();
        let ghost prev = r@;
        proof {
            assert(ps.take(i + 1).drop_last() =~= ps.take(i as int));
            assert(ps.take(i + 1).last() == piece@);
        }
        let opens = i == 0 && !root;
        if piece.len() == 0 {
        } else if is_word(piece, ".") {
            if opens {
                r.push(PathPart::CurDir);
                assert(parts_view(r@) =~= parts_view(prev).push(PartView::CurDir));
            }
        } else if is_word(piece, "..") {
            r.push(PathPart::ParentDir);
            assert(parts_view(r@) =~= parts_view(prev).push(PartView::ParentDir));
        } else {
            r.push(PathPart::Normal(copy_bytes(piece)));
            assert(parts_view(r@) =~= parts_view(prev).push(PartView::Normal(piece@)));
        }
        i = i + 1;
    }
    assert(ps.take(pieces@.len() as int) =~= ps);
    r
}

/// A fresh copy of a path.
pub fn copy_path(p: &[PathPart]) -> (r: Vec<PathPart>)
    ensures
        parts_view(r@) == parts_view(p@),
{
    let mut r: Vec<PathPart> = Vec::new();
    let mut i: usize = 0;
    while i < p.len()
        invariant
            i <= p@.len(),
            parts_view(r@) == parts_view(p@).take(i as int),
        decreases p@.len() - i,
    {
        let ghost prev = r@;
        let c = copy_part(&p[i]);
        r.push(c);
        assert(parts_view(r@) =~= parts_view(prev).push(c@));
        i = i + 1;
        assert(parts_view(r@) =~= parts_view(p@).take(i as int));
    }
    assert(parts_view(p@).take(p@.len() as int) =~= parts_view(p@));
    r
}

/// Whether two paths have the same components.
pub fn same_path(a: &[PathPart], b: &[PathPart]) -> (r: bool)
    ensures
        r == (parts_view(a@) == parts_view(b@)),
{
    let n = a.len();
    if n != b.len() {
        assert(parts_view(a@).len() != parts_view(b@).len());
        return false;
    }
    let r = leads(a, b, n);
    assert(parts_view(a@).take(n as int) =~= parts_view(a@));
    assert(parts_view(b@).take(n as int) =~= parts_view(b@));
    r
}

/// The path that an import directive names, a leading `mozilla/` dropped,
/// in normal form.
pub open spec fn import_target(s: Seq<u8>) -> Seq<PartView> {
    let rel = if s.len() >= 8 && s.take(8) == "mozilla/".spec_bytes() {
        s.skip(8)
    } else {
        s
    };
    normalized_parts(parse_parts(rel))
}

/// The views of a list of paths.
pub open spec fn paths_view(ps: Seq<Vec<PathPart>>) -> Seq<Seq<PartView>> {
    ps.map_values(|p: Vec<PathPart>| parts_view(p@))
}

/// The view of a table from file names to the paths of the files so named.
pub open spec fn table_view(t: Seq<(Vec<u8>, Vec<Vec<PathPart>>)>) -> Seq<
    (Seq<u8>, Seq<Seq<PartView>>),
> {
    t.map_values(|e: (Vec<u8>, Vec<Vec<PathPart>>)| (e.0@, paths_view(e.1@)))
}

/// The paths of the first entry of `t` whose name is `key`.
pub open spec fn lookup(t: Seq<(Seq<u8>, Seq<Seq<PartView>>)>, key: Seq<u8>) -> Option<
    Seq<Seq<PartView>>,
>
    decreases t.len(),
{
    if t.len() == 0 {
        None
    } else if t[0].0 == key {
        Some(t[0].1)
    } else {
        lookup(t.skip(1), key)
    }
}

/// Whether `a` is a trailing run of the components of `b`.
pub open spec fn is_suffix(a: Seq<PartView>, b: Seq<PartView>) -> bool {
    a.len() <= b.len() && b.skip(b.len() - a.len()) == a
}

/// The directory a path is in: `None` for an empty path or the root.
pub open spec fn parent_of(p: Seq<PartView>) -> Option<Seq<PartView>> {
    if p.len() > 0 && !(p.last() is RootDir) {
        Some(p.drop_last())
    } else {
        None
    }
}

/// The paths of `ps` other than `cur` that end with `pat` (if `suffix`) or
/// start with it (if not), in order.
pub open spec fn filtered(
    ps: Seq<Seq<PartView>>,
    pat: Seq<PartView>,
    cur: Seq<PartView>,
    suffix: bool,
) -> Seq<Seq<PartView>>
    decreases ps.len(),
{
    if ps.len() == 0 {
        Seq::empty()
    } else {
        let prev = filtered(ps.drop_last(), pat, cur, suffix);
        let p = ps.last();
        let hit = if suffix {
            is_suffix(pat, p)
        } else {
            is_prefix(pat, p)
        };
        if hit && p != cur {
            prev.push(p)
        } else {
            prev
        }
    }
}

/// The distance from `cur` to a candidate `p`; none for `cur` itself.
pub open spec fn candidate_dist(cur: Seq<PartView>, p: Seq<PartView>) -> Option<int> {
    if p == cur {
        None
    } else {
        paths_dist(cur, p)
    }
}

/// The least distance from `cur` to a path of `ps`.
pub open spec fn min_dist(ps: Seq<Seq<PartView>>, cur: Seq<PartView>) -> Option<int>
    decreases ps.len(),
{
    if ps.len() == 0 {
        None
    } else {
        let prev = min_dist(ps.drop_last(), cur);
        match (prev, candidate_dist(cur, ps.last())) {
            (None, d) => d,
            (Some(a), None) => Some(a),
            (Some(a), Some(b)) => Some(if b < a { b } else { a }),
        }
    }
}

/// The paths of `ps` at distance `m` from `cur`, in order.
pub open spec fn nearest(ps: Seq<Seq<PartView>>, cur: Seq<PartView>, m: int) -> Seq<
    Seq<PartView>,
>
    decreases ps.len(),
{
    if ps.len() == 0 {
        Seq::empty()
    } else {
        let prev = nearest(ps.drop_last(), cur, m);
        if candidate_dist(cur, ps.last()) == Some(m) {
            prev.push(ps.last())
        } else {
            prev
        }
    }
}

/// The files that an import of `import` in the file `cur` may mean:
/// the only file of that name; else the only other one whose path ends
/// with the import; else the only other one in the directory of `cur`
/// or below; else the others nearest to `cur`.
pub open spec fn guessed_files(
    cur: Seq<PartView>,
    import: Seq<u8>,
    t: Seq<(Seq<u8>, Seq<Seq<PartView>>)>,
) -> Seq<Seq<PartView>> {
    let inc = import_target(import);
    match lookup(t, file_name(inc)->0) {
        None => Seq::empty(),
        Some(ps) => if ps.len() == 1 {
            ps
        } else if filtered(ps, inc, cur, true).len() == 1 {
            filtered(ps, inc, cur, true)
        } else if parent_of(cur) is Some && filtered(ps, parent_of(cur)->0, cur, false).len()
            == 1 {
            filtered(ps, parent_of(cur)->0, cur, false)
        } else {
            match min_dist(ps, cur) {
                None => Seq::empty(),
                Some(m) => nearest(ps, cur, m),
            }
        },
    }
}

/// The path that an import directive names, a leading `mozilla/` dropped,
/// in normal form.
pub fn import_target_of(import: &[u8]) -> (r: Vec<PathPart>)
    ensures
        parts_view(r@) == import_target(import@),
{
    let rel: &[u8] = if import.len() >= 8 && is_word(import.split_at(8).0, "mozilla/") {
        import.split_at(8).1
    } else {
        import
    };
    let parts = parse_path(rel);
    let r = normalize_path(parts.as_slice());
    match r {
        Some(v) => v,
        None => Vec::new(),
    }
}

/// The index of the first entry of `t` named `key`.
fn find_entry(t: &[(Vec<u8>, Vec<Vec<PathPart>>)], key: &[u8]) -> (r: Option<usize>)
    ensures
        match r {
            Some(i) => i < t@.len() && lookup(table_view(t@), key@) == Some(
                paths_view(t@[i as int].1@),
            ),
            None => lookup(table_view(t@), key@) is None,
        },
{
    let ghost tv = table_view(t@);
    let mut i: usize = 0;
    assert(tv.skip(0) =~= tv);
    while i < t.len()
        invariant
            i <= t@.len(),
            tv == table_view(t@),
            lookup(tv, key@) == lookup(tv.skip(i as int), key@),
        decreases t@.len() - i,
    {
        assert(tv.skip(i as int)[0] == tv[i as int]);
        assert(tv.skip(i as int).skip(1) =~= tv.skip(i + 1));
        if same_bytes(t[i].0.as_slice(), key) {
            return Some(i);
        }
        i = i + 1;
    }
    None
}

/// Whether the components of `pat` end `b`.
fn trails(pat: &[PathPart], b: &[PathPart]) -> (r: bool)
    ensures
        r == is_suffix(parts_view(pat@), parts_view(b@)),
{
    let n = pat.len();
    let m = b.len();
    if n > m {
        return false;
    }
    let off = m - n;
    let mut i: usize = 0;
    while i < n
        invariant
            n == pat@.len(),
            m == b@.len(),
            off == m - n,
            i <= n,
            forall|j: int| 0 <= j < i ==> pat@[j]@ == b@[off + j]@,
        decreases n - i,
    {
        if !same_part(&pat[i], &b[off + i]) {
            assert(parts_view(b@).skip(off as int)[i as int] != parts_view(pat@)[i as int]);
            return false;
        }
        i = i + 1;
    }
    assert(parts_view(b@).skip(off as int) =~= parts_view(pat@));
    true
}

/// The paths of `ps` other than `cur` that end with `pat` (if `suffix`) or
/// start with it (if not), in order.
fn filter_paths(ps: &[Vec<PathPart>], pat: &[PathPart], cur: &[PathPart], suffix: bool) -> (r: Vec<
    Vec<PathPart>,
>)
    ensures
        paths_view(r@) == filtered(paths_view(ps@), parts_view(pat@), parts_view(cur@), suffix),
{
    let ghost pv = paths_view(ps@);
    let mut r: Vec<Vec<PathPart>> = Vec::new();
    let mut i: usize = 0;
    assert(pv.take(0) =~= Seq::<Seq<PartView>>::empty());
    assert(paths_view(r@) =~= Seq::<Seq<PartView>>::empty());
    while i < ps.len()
        invariant
            i <= ps@.len(),
            pv == paths_view(ps@),
            paths_view(r@) == filtered(pv.take(i as int), parts_view(pat@), parts_view(cur@), suffix),
        decreases ps@.len() - i,
    {
        let p = ps[i].as_slice();
        proof {
            assert(pv.take(i + 1).drop_last() =~= pv.take(i as int));
            assert(pv.take(i + 1).last() == parts_view(p@));
        }
        let hit = if suffix {
            trails(pat, p)
        } else {
            p.len() >= pat.len() && leads(pat, p, pat.len())
        };
        proof {
            assert(parts_view(pat@).take(pat@.len() as int) =~= parts_view(pat@));
        }
        if hit && !same_path(cur, p) {
            let ghost prev = r@;
            let c = copy_path(p);
            r.push(c);
            assert(paths_view(r@) =~= paths_view(prev).push(parts_view(c@)));
        }
        i = i + 1;
    }
    assert(pv.take(ps@.len() as int) =~= pv);
    r
}

/// No path of `ps` is at a distance below the least one.
proof fn lemma_nearest_below_min_is_empty(ps: Seq<Seq<PartView>>, cur: Seq<PartView>, d: int)
    requires
        min_dist(ps, cur) is None || d < min_dist(ps, cur)->0,
    ensures
        nearest(ps, cur, d) == Seq::<Seq<PartView>>::empty(),
    decreases ps.len(),
{
    if ps.len() > 0 {
        lemma_nearest_below_min_is_empty(ps.drop_last(), cur, d);
    }
}

/// The paths of `ps` other than `cur` nearest to `cur`, in order.
fn nearest_paths(ps: &[Vec<PathPart>], cur: &[PathPart]) -> (r: Vec<Vec<PathPart>>)
    requires
        forall|j: int| 0 <= j < ps@.len() ==> cur@.len() + (#[trigger] ps@[j])@.len() <= usize::MAX,
    ensures
        paths_view(r@) == (match min_dist(paths_view(ps@), parts_view(cur@)) {
            None => Seq::empty(),
            Some(m) => nearest(paths_view(ps@), parts_view(cur@), m),
        }),
{
    let ghost pv = paths_view(ps@);
    let ghost cv = parts_view(cur@);
    let mut dist_min: Option<usize> = None;
    let mut path_min: Vec<Vec<PathPart>> = Vec::new();
    let mut i: usize = 0;
    assert(pv.take(0) =~= Seq::<Seq<PartView>>::empty());
    assert(paths_view(path_min@) =~= Seq::<Seq<PartView>>::empty());
    while i < ps.len()
        invariant
            i <= ps@.len(),
            pv == paths_view(ps@),
            cv == parts_view(cur@),
            forall|j: int| 0 <= j < ps@.len() ==> cur@.len() + (#[trigger] ps@[j])@.len() <= usize::MAX,
            match dist_min {
                None => min_dist(pv.take(i as int), cv) is None && paths_view(path_min@)
                    == Seq::<Seq<PartView>>::empty(),
                Some(m) => min_dist(pv.take(i as int), cv) == Some(m as int) && paths_view(
                    path_min@,
                ) == nearest(pv.take(i as int), cv, m as int),
            },
        decreases ps@.len() - i,
    {
        let p = ps[i].as_slice();
        let ghost before = pv.take(i as int);
        proof {
            assert(pv.take(i + 1).drop_last() =~= before);
            assert(pv.take(i + 1).last() == parts_view(p@));
            assert(cur@.len() + ps@[i as int]@.len() <= usize::MAX);
        }
        if !same_path(cur, p) {
            if let Some(dist) = get_paths_dist(cur, p) {
                let closer = match dist_min {
                    None => true,
                    Some(m) => dist < m,
                };
                if closer {
                    proof {
                        lemma_nearest_below_min_is_empty(before, cv, dist as int);
                    }
                    dist_min = Some(dist);
                    path_min = Vec::new();
                    let c = copy_path(p);
                    path_min.push(c);
                    assert(paths_view(path_min@) =~= seq![parts_view(c@)]);
                    assert(Seq::<Seq<PartView>>::empty().push(parts_view(c@)) =~= seq![
                        parts_view(c@),
                    ]);
                } else if dist_min == Some(dist) {
                    let ghost prev = path_min@;
                    let c = copy_path(p);
                    path_min.push(c);
                    assert(paths_view(path_min@) =~= paths_view(prev).push(parts_view(c@)));
                }
            }
        }
        i = i + 1;
    }
    assert(pv.take(ps@.len() as int) =~= pv);
    path_min
}

/// Whether every path that the table holds fits beside `cur` in a distance.
pub open spec fn table_fits(cur: Seq<PathPart>, t: Seq<(Vec<u8>, Vec<Vec<PathPart>>)>) -> bool {
    forall|i: int, j: int|
        0 <= i < t.len() && 0 <= j < t[i].1@.len() ==> cur.len() + (#[trigger] t[i].1@[j])@.len()
            <= usize::MAX
}

/// The files that an import of `import_path` from the file `current_path`
/// may mean, given the table `all_files` from file names to the paths of
/// the files so named.
pub fn guess_file(
    current_path: &[PathPart],
    import_path: &[u8],
    all_files: &[(Vec<u8>, Vec<Vec<PathPart>>)],
) -> (r: Vec<Vec<PathPart>>)
    requires
        file_name(import_target(import_path@)) is Some,
        table_fits(current_path@, all_files@),
    ensures
        paths_view(r@) == guessed_files(parts_view(current_path@), import_path@, table_view(all_files@)),
{
    let target = import_target_of(import_path);
    let n = target.len();
    assert(parts_view(target@).last() == target@[n - 1]@);
    let name: &[u8] = match &target[n - 1] {
        PathPart::Normal(v) => v.as_slice(),
        _ => {
            return Vec::new();
        },
    };
    let ghost cur = parts_view(current_path@);
    let ghost inc = parts_view(target@);
    let i = match find_entry(all_files, name) {
        Some(i) => i,
        None => {
            return Vec::new();
        },
    };
    let possibilities = all_files[i].1.as_slice();
    if possibilities.len() == 1 {
        return copy_paths(possibilities);
    }
    let ending = filter_paths(possibilities, target.as_slice(), current_path, true);
    if ending.len() == 1 {
        return ending;
    }
    let m = current_path.len();
    if m > 0 && !matches!(current_path[m - 1], PathPart::RootDir) {
        let (parent, _) = current_path.split_at(m - 1);
        proof {
            assert(parts_view(current_path@).last() == current_path@[m - 1]@);
            assert(parts_view(parent@) =~= parts_view(current_path@).drop_last());
        }
        let below = filter_paths(possibilities, parent, current_path, false);
        if below.len() == 1 {
            return below;
        }
    } else {
        assert(parent_of(cur) is None);
    }
    proof {
        assert forall|j: int| 0 <= j < possibilities@.len() implies current_path@.len()
            + (#[trigger] possibilities@[j])@.len() <= usize::MAX by {
            assert(possibilities@[j] == all_files@[i as int].1@[j]);
        }
    }
    nearest_paths(possibilities, current_path)
}

/// A fresh copy of a list of paths.
pub fn copy_paths(ps: &[Vec<PathPart>]) -> (r: Vec<Vec<PathPart>>)
    ensures
        paths_view(r@) == paths_view(ps@),
{
    let mut r: Vec<Vec<PathPart>> = Vec::new();
    let mut i: usize = 0;
    while i < ps.len()
        invariant
            i <= ps@.len(),
            paths_view(r@) == paths_view(ps@).take(i as int),
        decreases ps@.len() - i,
    {
        let ghost prev = r@;
        let c = copy_path(ps[i].as_slice());
        r.push(c);
        assert(paths_view(r@) =~= paths_view(prev).push(parts_view(c@)));
        i = i + 1;
        assert(paths_view(r@) =~= paths_view(ps@).take(i as int));
    }
    assert(paths_view(ps@).take(ps@.len() as int) =~= paths_view(ps@));
    r
}

} // verus!
