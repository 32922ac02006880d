//! The identifier table: a bidirectional map between relative paths and
//! inode numbers, grown lazily and never shrunk.

use vstd::prelude::*;

verus! {

/// The inode number of the mount root, whose path is the empty string.
pub const ROOT_INO: u64 = 1;

/// The path of inode `ino` in table `t`, where `t[i]` holds the path of
/// inode `i + 1`.
pub open spec fn path_of(t: Seq<Seq<char>>, ino: u64) -> Option<Seq<char>> {
    if 1 <= ino && ino <= t.len() {
        Some(t[ino - 1])
    } else {
        None
    }
}

/// The inode number that table `t` gives to `p`, if it holds `p`.
pub open spec fn ino_of(t: Seq<Seq<char>>, p: Seq<char>) -> Option<u64> {
    if t.contains(p) {
        Some((t.index_of(p) + 1) as u64)
    } else {
        None
    }
}

/// A table is well formed when the root path comes first, no path occurs
/// twice, and every inode number fits in 64 bits.
pub open spec fn table_wf(t: Seq<Seq<char>>) -> bool {
    &&& 1 <= t.len() <= u64::MAX
    &&& t[0] == Seq::<char>::empty()
    &&& t.no_duplicates()
}

/// The table after `assign_or_get(p)`, and the inode number it returns.
pub open spec fn assign_spec(t: Seq<Seq<char>>, p: Seq<char>) -> (Seq<Seq<char>>, u64) {
    if t.contains(p) {
        (t, ino_of(t, p).unwrap())
    } else {
        (t.push(p), (t.len() + 1) as u64)
    }
}

/// Whether a table can take `n` more paths without running out of inode
/// numbers.
pub open spec fn has_room(t: Seq<Seq<char>>, n: nat) -> bool {
    t.len() + n <= u64::MAX
}

/// The option's string, as a sequence of characters.
pub open spec fn opt_view(o: Option<String>) -> Option<Seq<char>> {
    match o {
        Some(s) => Some(s@),
        None => None,
    }
}

/// In a well formed table, the index of a path that it holds is the one
/// position where that path stands.
proof fn lemma_index_unique(t: Seq<Seq<char>>, i: int)
    requires
        table_wf(t),
        0 <= i < t.len(),
    ensures
        t.contains(t[i]),
        t.index_of(t[i]) == i,
{
    assert(t.contains(t[i]));
}

/// Assigning a path keeps the table well formed.
pub proof fn lemma_assign_wf(t: Seq<Seq<char>>, p: Seq<char>)
    requires
        table_wf(t),
        t.contains(p) || has_room(t, 1),
    ensures
        table_wf(assign_spec(t, p).0),
{
    if !t.contains(p) {
        let u = t.push(p);
        assert forall|i: int, j: int| 0 <= i < u.len() && 0 <= j < u.len() && i != j implies u[i]
            != u[j] by {
            if i == t.len() {
                assert(t[j] != p);
            } else if j == t.len() {
                assert(t[i] != p);
            }
        }
    }
}

/// A path that the table holds keeps its inode number whatever path is
/// assigned next.
pub proof fn lemma_known_kept(t: Seq<Seq<char>>, p: Seq<char>, q: Seq<char>)
    requires
        table_wf(t),
        t.contains(p),
        t.contains(q) || has_room(t, 1),
    ensures
        ino_of(assign_spec(t, q).0, p) == ino_of(t, p),
{
    if !t.contains(q) {
        let u = t.push(q);
        let k = t.index_of(p);
        lemma_assign_wf(t, q);
        assert(u[k] == p);
        lemma_index_unique(u, k);
    }
}

/// Stability: a path observed, then another path, then the first path
/// again, gets the same inode number both times.
pub proof fn lemma_stability(t: Seq<Seq<char>>, p: Seq<char>, q: Seq<char>)
    requires
        table_wf(t),
        has_room(t, 2),
    ensures
        ({
            let (t1, first) = assign_spec(t, p);
            let t2 = assign_spec(t1, q).0;
            assign_spec(t2, p).1 == first
        }),
{
    let (t1, first) = assign_spec(t, p);
    lemma_assign_wf(t, p);
    if !t.contains(p) {
        lemma_index_unique(t1, t.len() as int);
    }
    assert(t1.contains(p));
    lemma_known_kept(t1, p, q);
    let t2 = assign_spec(t1, q).0;
    assert(t2.contains(p));
}

/// Bijection: the two directions of a well formed table are inverse to
/// each other.
pub proof fn lemma_bijection(t: Seq<Seq<char>>)
    requires
        table_wf(t),
    ensures
        forall|ino: u64|
            #![trigger path_of(t, ino)]
            path_of(t, ino) is Some ==> ino_of(t, path_of(t, ino).unwrap()) == Some(ino),
        forall|p: Seq<char>|
            #![trigger ino_of(t, p)]
            ino_of(t, p) is Some ==> path_of(t, ino_of(t, p).unwrap()) == Some(p),
{
    assert forall|ino: u64| #[trigger]
        path_of(t, ino) is Some implies ino_of(t, path_of(t, ino).unwrap()) == Some(ino) by {
        lemma_index_unique(t, ino - 1);
    }
}

/// Root fixed point: the empty path has inode number one in every well
/// formed table, before and after any assignment.
pub proof fn lemma_root_fixed(t: Seq<Seq<char>>, p: Seq<char>)
    requires
        table_wf(t),
        t.contains(p) || has_room(t, 1),
    ensures
        ino_of(t, Seq::<char>::empty()) == Some(ROOT_INO),
        path_of(t, ROOT_INO) == Some(Seq::<char>::empty()),
        ino_of(assign_spec(t, p).0, Seq::<char>::empty()) == Some(ROOT_INO),
{
    lemma_index_unique(t, 0);
    lemma_known_kept(t, Seq::<char>::empty(), p);
}

/// Monotonic allocation: a freshly assigned inode number is greater than
/// every number that the table had handed out before.
pub proof fn lemma_fresh_greater(t: Seq<Seq<char>>, p: Seq<char>)
    requires
        table_wf(t),
        !t.contains(p),
        has_room(t, 1),
    ensures
        forall|ino: u64| #[trigger] path_of(t, ino) is Some ==> ino < assign_spec(t, p).1,
{
}

/// The table after assigning each path of `ps` in turn.
pub open spec fn assign_all(t: Seq<Seq<char>>, ps: Seq<Seq<char>>) -> Seq<Seq<char>>
    decreases ps.len(),
{
    if ps.len() == 0 {
        t
    } else {
        assign_spec(assign_all(t, ps.drop_last()), ps.last()).0
    }
}

/// Assigning a run of paths keeps the table well formed, adds at most one
/// entry per path, leaves every known path where it was, and leaves each
/// path of the run known.
pub proof fn lemma_assign_all(t: Seq<Seq<char>>, ps: Seq<Seq<char>>)
    requires
        table_wf(t),
        has_room(t, ps.len()),
    ensures
        table_wf(assign_all(t, ps)),
        assign_all(t, ps).len() <= t.len() + ps.len(),
        forall|i: int| 0 <= i < ps.len() ==> #[trigger] assign_all(t, ps).contains(ps[i]),
        forall|p: Seq<char>|
            t.contains(p) ==> #[trigger] ino_of(assign_all(t, ps), p) == ino_of(t, p),
    decreases ps.len(),
{
    if ps.len() > 0 {
        let init = ps.drop_last();
        let q = ps.last();
        lemma_assign_all(t, init);
        let u = assign_all(t, init);
        lemma_assign_wf(u, q);
        let v = assign_spec(u, q).0;
        assert(v.contains(q)) by {
            if !u.contains(q) {
                assert(v[u.len() as int] == q);
            }
        }
        assert forall|i: int| 0 <= i < ps.len() implies #[trigger] v.contains(ps[i]) by {
            if i < ps.len() - 1 {
                assert(init[i] == ps[i]);
                assert(u.contains(init[i]));
                let k = u.index_of(ps[i]);
                if !u.contains(q) {
                    assert(v[k] == ps[i]);
                }
            }
        }
        assert forall|p: Seq<char>| t.contains(p) implies #[trigger] ino_of(v, p) == ino_of(t, p) by {
            assert(ino_of(u, p) == ino_of(t, p));
            assert(u.contains(p));
            lemma_known_kept(u, p, q);
        }
    }
}

/// Assigning paths that the table already holds changes nothing.
pub proof fn lemma_assign_all_known(t: Seq<Seq<char>>, ps: Seq<Seq<char>>)
    requires
        forall|i: int| 0 <= i < ps.len() ==> #[trigger] t.contains(ps[i]),
    ensures
        assign_all(t, ps) == t,
    decreases ps.len(),
{
    if ps.len() > 0 {
        let init = ps.drop_last();
        assert forall|i: int| 0 <= i < init.len() implies #[trigger] t.contains(init[i]) by {
            assert(init[i] == ps[i]);
        }
        lemma_assign_all_known(t, init);
        assert(t.contains(ps[ps.len() - 1]));
    }
}

/// The identifier table of one mount.
pub struct InodeTable {
    paths: Vec<String>,
}

impl View for InodeTable {
    type V = Seq<Seq<char>>;

    closed spec fn view(&self) -> Seq<Seq<char>> {
        self.paths@.map_values(|s: String| s@)
    }
}

impl InodeTable {
    pub open spec fn wf(&self) -> bool {
        table_wf(self@)
    }

    /// A table that knows the root alone.
    pub fn new() -> (t: Self)
        ensures
            t.wf(),
            t@ == seq![Seq::<char>::empty()],
    {
        let mut paths: Vec<String> = Vec::new();
        paths.push(String::new());
        let t = InodeTable { paths };
        assert(t@ =~= seq![Seq::<char>::empty()]);
        t
    }

    /// The number of inodes handed out so far, the root included.
    pub fn len(&self) -> (n: u64)
        requires
            self.wf(),
        ensures
            n == self@.len(),
    {
        self.paths.len() as u64
    }

    /// The path of inode `ino`, if the table knows it.
    pub fn resolve_path(&self, ino: u64) -> (r: Option<String>)
        requires
            self.wf(),
        ensures
            opt_view(r) == path_of(self@, ino),
    {
        if 1 <= ino && ino <= self.paths.len() as u64 {
            let i: usize = (ino - 1) as usize;
            Some(self.paths[i].clone())
        } else {
            None
        }
    }

    /// The inode number of `path`, if the table knows it.
    pub fn resolve_inode(&self, path: &String) -> (r: Option<u64>)
        requires
            self.wf(),
        ensures
            r == ino_of(self@, path@),
    {
        let n: usize = self.paths.len();
        let mut i: usize = 0;
        while i < n
            invariant
                self.wf(),
                n == self@.len(),
                i <= n,
                forall|j: int| 0 <= j < i ==> self@[j] != path@,
            decreases n - i,
        {
            if self.paths[i] == *path {
                proof {
                    assert(self@[i as int] == path@);
                    assert(self@.contains(path@));
                    let k = self@.index_of(path@);
                    assert(self@[k] == path@);
                    assert(k == i);
                }
                return Some((i + 1) as u64);
            }
            i = i + 1;
        }
        assert(!self@.contains(path@));
        None
    }

    /// The inode number of `path`: the one it already has, or else the next
    /// unused number, recorded in both directions.
    pub fn assign_or_get(&mut self, path: &String) -> (ino: u64)
        requires
            old(self).wf(),
            old(self)@.contains(path@) || has_room(old(self)@, 1),
        ensures
            final(self).wf(),
            (final(self)@, ino) == assign_spec(old(self)@, path@),
    {
        match self.resolve_inode(path) {
            Some(ino) => ino,
            None => {
                let ghost before = self@;
                self.paths.push(path.clone());
                assert(self@ =~= before.push(path@));
                proof {
                    assert forall|i: int, j: int|
                        0 <= i < self@.len() && 0 <= j < self@.len() && i != j
                        implies self@[i] != self@[j] by {
                        if i < before.len() && j < before.len() {
                        } else if i == before.len() {
                            assert(!before.contains(path@));
                            assert(before[j] != path@);
                        } else {
                            assert(!before.contains(path@));
                            assert(before[i] != path@);
                        }
                    }
                }
                self.paths.len() as u64
            }
        }
    }
}

} // verus!
