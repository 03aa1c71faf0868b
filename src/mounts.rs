//! The mount table of a layered filesystem: which backing filesystem, and
//! which path inside it, a path of the whole tree stands for.
use crate::text::{chars_of, string_of};
use vstd::prelude::*;

verus! {

/// A path cut at each `/`, as `str::split('/')` cuts it.
pub open spec fn slash_pieces(s: Seq<char>) -> Seq<Seq<char>>
    decreases s.len(),
{
    if s.len() == 0 {
        seq![seq![]]
    } else {
        let p = slash_pieces(s.drop_last());
        if s.last() == '/' {
            p.push(seq![])
        } else {
            p.update(p.len() - 1, p.last().push(s.last()))
        }
    }
}

/// The components that remain of `parts`, read from the root: empty ones
/// and `.` are dropped, and `..` drops the component before it (at the root
/// it stays at the root).
pub open spec fn resolve_components(parts: Seq<Seq<char>>) -> Seq<Seq<char>>
    decreases parts.len(),
{
    if parts.len() == 0 {
        seq![]
    } else {
        let kept = resolve_components(parts.drop_last());
        let c = parts.last();
        if c.len() == 0 || c == seq!['.'] {
            kept
        } else if c == seq!['.', '.'] {
            if kept.len() > 0 {
                kept.drop_last()
            } else {
                kept
            }
        } else {
            kept.push(c)
        }
    }
}

/// Each component after a `/`.
pub open spec fn slash_joined(cs: Seq<Seq<char>>) -> Seq<char>
    decreases cs.len(),
{
    if cs.len() == 0 {
        seq![]
    } else {
        slash_joined(cs.drop_last()) + seq!['/'] + cs.last()
    }
}

/// The path that `vfs` makes of `p` when it is joined to a filesystem's
/// root: `""` for the root itself, else `/a/b` with `.`, `..` and repeated
/// slashes resolved.
pub open spec fn vfs_root_join(p: Seq<char>) -> Seq<char> {
    slash_joined(resolve_components(slash_pieces(p)))
}

/// Relies on `vfs::VfsPath::join` (its `join_internal`) from the root path of
/// a filesystem: it refuses a path of more than one character that ends in
/// `/`, returns the root unchanged for an empty path, and otherwise splits
/// the path at `/` and resolves its components from the root.
#[verifier::external_body]
fn join_to_root(p: &str) -> (r: Option<String>)
    ensures
        r is None <==> (p@.len() > 1 && p@.last() == '/'),
        r is Some ==> r->0@ == vfs_root_join(p@),
        p@.len() == 0 ==> r is Some && r->0@.len() == 0,
{
    match vfs::VfsPath::new(vfs::MemoryFS::new()).join(p) {
        Ok(v) => Some(v.as_str().to_string()),
        Err(_) => None,
    }
}

/// Why a path could not be resolved.
#[derive(Clone, Copy, Debug, PartialEq, Eq, Structural)]
pub enum MountError {
    /// The path ends in a slash after the one that is dropped.
    InvalidPath,
    /// No mount covers the path.
    FileNotFound,
}

/// `p` with one trailing slash dropped.
pub open spec fn strip_slash(p: Seq<char>) -> Seq<char> {
    if p.len() > 0 && p.last() == '/' {
        p.drop_last()
    } else {
        p
    }
}

/// The mount point `m` is `p` itself or an ancestor of it.
pub open spec fn covers(m: Seq<char>, p: Seq<char>) -> bool {
    &&& m.len() <= p.len()
    &&& p.subrange(0, m.len() as int) == m
    &&& (p.len() == m.len() || p[m.len() as int] == '/')
}

/// The first layer, in table order, that covers `p`.
pub open spec fn first_cover(layers: Seq<(Seq<char>, usize)>, p: Seq<char>) -> Option<int>
    decreases layers.len(),
{
    if layers.len() == 0 {
        None
    } else if covers(layers[0].0, p) {
        Some(0)
    } else {
        match first_cover(layers.drop_first(), p) {
            Some(i) => Some(i + 1),
            None => None,
        }
    }
}

/// A position moved `by` places further.
pub open spec fn shift(o: Option<int>, by: int) -> Option<int> {
    match o {
        Some(k) => Some(k + by),
        None => None,
    }
}

/// `m` is a mount point directly inside the directory `d`.
pub open spec fn is_child(d: Seq<char>, m: Seq<char>) -> bool {
    &&& m.len() > d.len() + 1
    &&& m.subrange(0, d.len() as int) == d
    &&& m[d.len() as int] == '/'
    &&& forall|j: int| d.len() < j < m.len() ==> m[j] != '/'
}

/// The names of the mount points directly inside `d`, in table order.
pub open spec fn children_in(layers: Seq<(Seq<char>, usize)>, d: Seq<char>) -> Seq<Seq<char>>
    decreases layers.len(),
{
    if layers.len() == 0 {
        seq![]
    } else {
        let rest = children_in(layers.drop_last(), d);
        let m = layers.last().0;
        if is_child(d, m) {
            rest.push(m.subrange(d.len() as int + 1, m.len() as int))
        } else {
            rest
        }
    }
}

/// Where a path leads: a backing filesystem and the path inside it.
#[derive(Clone, Debug)]
pub struct Resolved {
    pub backing: usize,
    pub inner: String,
}

/// Mount points, each with the index of the filesystem mounted there,
/// longest first; the root `""` is always mounted.
pub struct MountTable {
    layers: Vec<(String, usize)>,
}

impl MountTable {
    /// The mount points and their filesystems, in the order they are tried.
    pub closed spec fn view_layers(&self) -> Seq<(Seq<char>, usize)> {
        self.layers@.map_values(|l: (String, usize)| (l.0@, l.1))
    }

    /// Longer mount points come first, and the last one is the root.
    pub open spec fn wf(&self) -> bool {
        let l = self.view_layers();
        &&& l.len() > 0
        &&& l.last().0.len() == 0
        &&& forall|i: int, j: int| 0 <= i < j < l.len() ==> l[i].0.len() >= l[j].0.len()
    }

    /// A table with the filesystem `root` mounted at the root.
    pub fn new(root: usize) -> (r: MountTable)
        ensures
            r.wf(),
            r.view_layers() == seq![(Seq::<char>::empty(), root)],
    {
        let r = MountTable { layers: vec![(String::new(), root)] };
        assert(r.view_layers() =~= seq![(Seq::<char>::empty(), root)]);
        r
    }

    /// Mount the filesystem `backing` at `path`. The new mount goes after
    /// every mount point at least as long, so that the most specific mount
    /// is tried first, and among equally long ones the older first.
    pub fn push(&mut self, path: &str, backing: usize) -> (r: Result<(), MountError>)
        requires
            old(self).wf(),
        ensures
            final(self).wf(),
            r is Err ==> final(self).view_layers() == old(self).view_layers(),
            r is Err <==> (path@.len() > 1 && path@.last() == '/'),
            r is Ok ==> exists|k: int|
                0 <= k <= old(self).view_layers().len() && #[trigger] final(self).view_layers() == old(
                    self,
                ).view_layers().insert(k, (vfs_root_join(path@), backing)) && (forall|i: int|
                    0 <= i < k ==> old(self).view_layers()[i].0.len() >= vfs_root_join(path@).len()) && (
                forall|i: int|
                    k <= i < old(self).view_layers().len() ==> old(self).view_layers()[i].0.len()
                        < vfs_root_join(path@).len()),
    {
        let m = match join_to_root(path) {
            Some(m) => m,
            None => {
                return Err(MountError::InvalidPath);
            },
        };
        let n = m.as_str().unicode_len();
        let ghost l0 = self.view_layers();
        let mut k: usize = 0;
        while k < self.layers.len() && self.layers[k].0.as_str().unicode_len() >= n
            invariant
                k <= self.layers@.len(),
                l0 == self.view_layers(),
                self.wf(),
                n == m@.len(),
                forall|i: int| 0 <= i < k ==> l0[i].0.len() >= n,
            decreases self.layers@.len() - k,
        {
            k = k + 1;
        }
        let ghost mv = m@;
        self.layers.insert(k, (m, backing));
        proof {
            let l1 = self.view_layers();
            assert(l1 =~= l0.insert(k as int, (mv, backing)));
            assert forall|i: int| k <= i < l0.len() implies l0[i].0.len() < n by {
                assert(l0[k as int].0.len() < n);
                if i > k {
                    assert(l0[k as int].0.len() >= l0[i].0.len());
                }
            }
            assert(n > 0 || k == l0.len()) by {
                if n == 0 {
                    assert(l0.last().0.len() >= n);
                }
            }
            if k == l0.len() {
                assert(l0.last().0.len() >= n);
                assert(l0.last().0.len() == 0);
                assert(l1.last() == (mv, backing));
            } else {
                assert(l1.last() == l0.last());
            }
        }
        Ok(())
    }

    /// Where `path` leads: one trailing slash is dropped and the rest
    /// normalised; the first mount point that is the path or an ancestor
    /// of it gives the filesystem, and the part of the path below the mount
    /// point is the path inside it.
    pub fn resolve(&self, path: &str) -> (r: Result<Resolved, MountError>)
        requires
            self.wf(),
        ensures
            ({
                let s = strip_slash(path@);
                if s.len() > 1 && s.last() == '/' {
                    r == Err::<Resolved, MountError>(MountError::InvalidPath)
                } else {
                    let p = vfs_root_join(s);
                    match first_cover(self.view_layers(), p) {
                        Some(i) => r is Ok && r->Ok_0.backing == self.view_layers()[i].1 && r->Ok_0.inner@
                            == p.subrange(self.view_layers()[i].0.len() as int, p.len() as int),
                        None => r == Err::<Resolved, MountError>(MountError::FileNotFound),
                    }
                }
            }),
    {
        let chars = chars_of(path);
        let ghost s = strip_slash(path@);
        let stripped = if chars.len() > 0 && chars[chars.len() - 1] == '/' {
            let mut c = chars;
            c.pop();
            c
        } else {
            chars
        };
        assert(stripped@ =~= s);
        let joined = match join_to_root(string_of(&stripped).as_str()) {
            Some(j) => j,
            None => {
                return Err(MountError::InvalidPath);
            },
        };
        let p = chars_of(joined.as_str());
        let ghost l = self.view_layers();
        let mut i: usize = 0;
        assert(l.subrange(0, l.len() as int) =~= l);
        assert(shift(first_cover(l, p@), 0) == first_cover(l, p@));
        while i < self.layers.len()
            invariant
                i <= self.layers@.len(),
                l == self.view_layers(),
                l.len() == self.layers@.len(),
                p@ == vfs_root_join(s),
                !(s.len() > 1 && s.last() == '/'),
                s == strip_slash(path@),
                first_cover(l, p@) == shift(first_cover(l.subrange(i as int, l.len() as int), p@), i as int),
            decreases self.layers@.len() - i,
        {
            let ghost rest = l.subrange(i as int, l.len() as int);
            assert(rest[0] == l[i as int]);
            assert(rest.drop_first() =~= l.subrange(i + 1, l.len() as int));
            let m = chars_of(self.layers[i].0.as_str());
            if covers_exec(&m, &p) {
                assert(l[i as int] == (m@, self.layers@[i as int].1));
                assert(first_cover(rest, p@) == Some(0int));
                let inner = slice_from(&p, m.len());
                let res = Resolved { backing: self.layers[i].1, inner: string_of(&inner) };
                assert(first_cover(l, p@) == Some(i as int));
                assert(res.backing == l[i as int].1);
                assert(res.inner@ == p@.subrange(l[i as int].0.len() as int, p@.len() as int));
                return Ok(res);
            }
            i = i + 1;
        }
        assert(l.subrange(i as int, l.len() as int).len() == 0);
        Err(MountError::FileNotFound)
    }

    /// The names of the mount points directly inside the directory `dir`
    /// (a normalised path, `""` for the root), which a listing of `dir` shows
    /// besides what is stored there.
    pub fn mounted_children(&self, dir: &str) -> (r: Vec<String>)
        ensures
            r@.map_values(|s: String| s@) == children_in(self.view_layers(), dir@),
    {
        let d = chars_of(dir);
        let ghost l = self.view_layers();
        let mut r: Vec<String> = Vec::new();
        let mut i: usize = 0;
        while i < self.layers.len()
            invariant
                i <= self.layers@.len(),
                l == self.view_layers(),
                d@ == dir@,
                r@.map_values(|s: String| s@) == children_in(l.subrange(0, i as int), dir@),
            decreases self.layers@.len() - i,
        {
            let ghost pre = l.subrange(0, i + 1);
            assert(pre.drop_last() =~= l.subrange(0, i as int));
            assert(pre.last() == l[i as int]);
            let m = chars_of(self.layers[i].0.as_str());
            let ghost r0 = r@;
            if child_exec(&d, &m) {
                let ml = m.len();
                assert(d@.len() + 1 < ml);
                let name = string_of(&slice_from(&m, d.len() + 1));
                r.push(name);
                assert(r@.map_values(|s: String| s@) =~= r0.map_values(|s: String| s@).push(name@));
            }
            i = i + 1;
        }
        assert(l.subrange(0, i as int) =~= l);
        r
    }
}

proof fn lemma_first_cover_min(l: Seq<(Seq<char>, usize)>, p: Seq<char>, j: int)
    requires
        0 <= j < l.len(),
        covers(l[j].0, p),
    ensures
        first_cover(l, p) is Some,
        0 <= first_cover(l, p)->0 <= j,
        covers(l[first_cover(l, p)->0].0, p),
    decreases l.len(),
{
    if !covers(l[0].0, p) {
        let t = l.drop_first();
        assert(t[j - 1] == l[j]);
        lemma_first_cover_min(t, p, j - 1);
        assert(t[first_cover(t, p)->0] == l[first_cover(t, p)->0 + 1]);
    }
}

/// The mount that a path resolves through is the most specific one: no
/// other mount point that is the path or an ancestor of it is longer.
pub proof fn lemma_most_specific_mount(t: MountTable, p: Seq<char>, j: int)
    requires
        t.wf(),
        0 <= j < t.view_layers().len(),
        covers(t.view_layers()[j].0, p),
    ensures
        first_cover(t.view_layers(), p) is Some,
        t.view_layers()[first_cover(t.view_layers(), p)->0].0.len() >= t.view_layers()[j].0.len(),
{
    lemma_first_cover_min(t.view_layers(), p, j);
}

/// Every normalised path resolves: the root mount covers it.
pub proof fn lemma_root_covers_all(t: MountTable, p: Seq<char>)
    requires
        t.wf(),
        p.len() == 0 || p[0] == '/',
    ensures
        first_cover(t.view_layers(), p) is Some,
{
    let l = t.view_layers();
    assert(p.subrange(0, 0) =~= l.last().0);
    assert(covers(l[l.len() - 1].0, p));
    lemma_first_cover_min(l, p, l.len() - 1);
}

/// A path without trailing slashes, except that `/` stays.
pub open spec fn trimmed(p: Seq<char>) -> Seq<char>
    decreases p.len(),
{
    if p.len() > 1 && p.last() == '/' {
        trimmed(p.drop_last())
    } else {
        p
    }
}

/// Drop the trailing slashes of a path typed by a user, keeping a lone `/`.
pub fn trim_trailing_slashes(path: &str) -> (r: String)
    ensures
        r@ == trimmed(path@),
{
    let mut cs = chars_of(path);
    while cs.len() > 1 && cs[cs.len() - 1] == '/'
        invariant
            trimmed(cs@) == trimmed(path@),
        decreases cs@.len(),
    {
        let ghost before = cs@;
        cs.pop();
        assert(cs@ =~= before.drop_last());
    }
    string_of(&cs)
}

fn slice_from(v: &Vec<char>, from: usize) -> (r: Vec<char>)
    requires
        from <= v@.len(),
    ensures
        r@ == v@.subrange(from as int, v@.len() as int),
{
    let mut r: Vec<char> = Vec::new();
    let mut i = from;
    while i < v.len()
        invariant
            from <= i <= v@.len(),
            r@ == v@.subrange(from as int, i as int),
        decreases v@.len() - i,
    {
        r.push(v[i]);
        i = i + 1;
        assert(r@ =~= v@.subrange(from as int, i as int));
    }
    r
}

fn prefix_exec(m: &Vec<char>, p: &Vec<char>) -> (r: bool)
    requires
        m@.len() <= p@.len(),
    ensures
        r == (p@.subrange(0, m@.len() as int) == m@),
{
    let mut i: usize = 0;
    while i < m.len()
        invariant
            i <= m@.len(),
            m@.len() <= p@.len(),
            p@.subrange(0, i as int) == m@.subrange(0, i as int),
        decreases m@.len() - i,
    {
        if m[i] != p[i] {
            assert(p@.subrange(0, m@.len() as int)[i as int] != m@[i as int]);
            return false;
        }
        assert(p@.subrange(0, i + 1) =~= p@.subrange(0, i as int).push(p@[i as int]));
        assert(m@.subrange(0, i + 1) =~= m@.subrange(0, i as int).push(m@[i as int]));
        i = i + 1;
    }
    assert(m@.subrange(0, i as int) =~= m@);
    true
}

fn covers_exec(m: &Vec<char>, p: &Vec<char>) -> (r: bool)
    ensures
        r == covers(m@, p@),
{
    if m.len() > p.len() {
        return false;
    }
    if !prefix_exec(m, p) {
        return false;
    }
    p.len() == m.len() || p[m.len()] == '/'
}

fn child_exec(d: &Vec<char>, m: &Vec<char>) -> (r: bool)
    ensures
        r == is_child(d@, m@),
{
    if m.len() <= d.len() || m.len() - d.len() < 2 {
        return false;
    }
    if !prefix_exec(d, m) || m[d.len()] != '/' {
        return false;
    }
    let mut j = d.len() + 1;
    while j < m.len()
        invariant
            d@.len() < j <= m@.len(),
            forall|k: int| d@.len() < k < j ==> m@[k] != '/',
        decreases m@.len() - j,
    {
        if m[j] == '/' {
            return false;
        }
        j = j + 1;
    }
    true
}

} // verus!
