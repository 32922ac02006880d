//! The request handlers of the filesystem: directory listing, name
//! resolution, attribute query and data read.
//!
//! Each handler takes what the tree store answered for the path in question
//! (`None` where the store could not answer), so that the decisions here hold
//! whatever the store returns. The caller learns which path to ask the store
//! about from `resolve_path` and `lookup_path`.

use vstd::prelude::*;
use vstd::string::StringExecFns;
use crate::attr::{attr_spec, file_kind, info2attr, kind_spec, FileAttr, FileKind, Metadata};
use crate::table::{
    assign_all, assign_spec, has_room, ino_of, lemma_assign_all, lemma_assign_all_known,
    lemma_assign_wf, lemma_bijection, lemma_known_kept, opt_view, path_of, table_wf, InodeTable,
};

verus! {

/// How long, in seconds, the kernel may keep an attribute or a name
/// resolution before asking again.
pub const TTL_SECS: u64 = 1;

/// The one error that the handlers report: no such entry.
#[derive(Clone, Copy, Debug, PartialEq, Eq, Structural)]
pub enum FsError {
    NotFound,
}

/// One child of a directory, as the tree store enumerates it.
pub struct ChildInfo {
    pub name: String,
    pub meta: Metadata,
}

impl View for ChildInfo {
    type V = (Seq<char>, Metadata);

    open spec fn view(&self) -> (Seq<char>, Metadata) {
        (self.name@, self.meta)
    }
}

/// One entry of a directory listing: inode, position to resume after it,
/// kind and name.
pub struct DirEntry {
    pub ino: u64,
    pub offset: i64,
    pub kind: FileKind,
    pub name: String,
}

impl View for DirEntry {
    type V = (u64, i64, FileKind, Seq<char>);

    open spec fn view(&self) -> (u64, i64, FileKind, Seq<char>) {
        (self.ino, self.offset, self.kind, self.name@)
    }
}

pub open spec fn children_view(v: Seq<ChildInfo>) -> Seq<(Seq<char>, Metadata)> {
    v.map_values(|c: ChildInfo| c@)
}

pub open spec fn entries_view(v: Seq<DirEntry>) -> Seq<(u64, i64, FileKind, Seq<char>)> {
    v.map_values(|e: DirEntry| e@)
}

/// The path of child `name` of directory `dir`; children of the root have
/// their bare name as path.
pub open spec fn child_path(dir: Seq<char>, name: Seq<char>) -> Seq<char> {
    if dir.len() == 0 {
        name
    } else {
        dir + seq!['/'] + name
    }
}

/// Where a listing or a read with `offset` starts in `n` items; an offset
/// that is negative or past the end starts at the end.
pub open spec fn window_start(offset: i64, n: nat) -> nat {
    if offset < 0 || offset > n {
        n
    } else {
        offset as nat
    }
}

/// The paths of the children that a listing of `dir` from `offset` visits,
/// in the store's order.
pub open spec fn listed_paths(
    dir: Seq<char>,
    offset: i64,
    children: Seq<(Seq<char>, Metadata)>,
) -> Seq<Seq<char>> {
    let s = window_start(offset, children.len());
    Seq::new((children.len() - s) as nat, |k: int| child_path(dir, children[s + k].0))
}

/// The entries of a listing of `dir` from `offset`, with inode numbers
/// taken from table `t`.
pub open spec fn listing_spec(
    t: Seq<Seq<char>>,
    dir: Seq<char>,
    offset: i64,
    children: Seq<(Seq<char>, Metadata)>,
) -> Seq<(u64, i64, FileKind, Seq<char>)> {
    let s = window_start(offset, children.len());
    Seq::new(
        (children.len() - s) as nat,
        |k: int|
            (
                ino_of(t, child_path(dir, children[s + k].0)).unwrap(),
                (s + k + 1) as i64,
                kind_spec(children[s + k].1.kind),
                children[s + k].0,
            ),
    )
}

/// The bytes of a read of at most `size` bytes from `offset`.
pub open spec fn read_window(content: Seq<u8>, offset: i64, size: u32) -> Seq<u8> {
    let start = window_start(offset, content.len());
    let end = if start + size > content.len() {
        content.len()
    } else {
        (start + size) as nat
    };
    content.subrange(start as int, end as int)
}

/// Joins a directory path and a child's name.
pub fn join_path(dir: &String, name: &String) -> (r: String)
    ensures
        r@ == child_path(dir@, name@),
{
    if dir.as_str().is_empty() {
        name.clone()
    } else {
        let mut r = dir.clone();
        let sep: &str = "/";
        proof {
            reveal_strlit("/");
        }
        r.append(sep);
        r.append(name.as_str());
        r
    }
}

/// The filesystem of one mount: its identifier table.
pub struct TreeFs {
    table: InodeTable,
}

impl View for TreeFs {
    type V = Seq<Seq<char>>;

    closed spec fn view(&self) -> Seq<Seq<char>> {
        self.table@
    }
}

impl TreeFs {
    pub open spec fn wf(&self) -> bool {
        table_wf(self@)
    }

    /// A filesystem whose table knows the root alone.
    pub fn new() -> (fs: Self)
        ensures
            fs.wf(),
            fs@ == seq![Seq::<char>::empty()],
    {
        TreeFs { table: InodeTable::new() }
    }

    /// The number of inodes handed out so far, the root included.
    pub fn inode_count(&self) -> (n: u64)
        requires
            self.wf(),
        ensures
            n == self@.len(),
    {
        self.table.len()
    }

    /// The path of inode `ino`, where the store is to be asked about it.
    pub fn resolve_path(&self, ino: u64) -> (r: Option<String>)
        requires
            self.wf(),
        ensures
            opt_view(r) == path_of(self@, ino),
    {
        self.table.resolve_path(ino)
    }

    /// The inode number of `path`, if one was handed out for it.
    pub fn resolve_inode(&self, path: &String) -> (r: Option<u64>)
        requires
            self.wf(),
        ensures
            r == ino_of(self@, path@),
    {
        self.table.resolve_inode(path)
    }

    /// The path of child `name` of directory `parent`, where the store is
    /// to be asked about it.
    pub fn lookup_path(&self, parent: u64, name: &String) -> (r: Option<String>)
        requires
            self.wf(),
        ensures
            match path_of(self@, parent) {
                Some(d) => opt_view(r) == Some(child_path(d, name@)),
                None => r is None,
            },
    {
        match self.table.resolve_path(parent) {
            Some(d) => Some(join_path(&d, name)),
            None => None,
        }
    }
    /// Lists directory `ino` from position `offset`, given the store's
    /// enumeration of its children (`None` where the store failed).
    ///
    /// Every listed child gets the inode number of its path, assigned on
    /// first sight; the entry at index `j` of the enumeration resumes at
    /// position `j + 1`.
    pub fn readdir(&mut self, ino: u64, offset: i64, listing: Option<Vec<ChildInfo>>) -> (r:
        Result<Vec<DirEntry>, FsError>)
        requires
            old(self).wf(),
            listing matches Some(v) ==> v.len() <= i64::MAX && has_room(old(self)@, v.len() as nat),
        ensures
            final(self).wf(),
            match (path_of(old(self)@, ino), listing) {
                (Some(d), Some(v)) => {
                    &&& final(self)@ == assign_all(
                        old(self)@,
                        listed_paths(d, offset, children_view(v@)),
                    )
                    &&& r matches Ok(es) && entries_view(es@) == listing_spec(
                        final(self)@,
                        d,
                        offset,
                        children_view(v@),
                    )
                },
                _ => r == Err::<Vec<DirEntry>, FsError>(FsError::NotFound) && final(self)@ == old(
                    self,
                )@,
            },
    {
        let dir = match self.table.resolve_path(ino) {
            Some(d) => d,
            None => {
                return Err(FsError::NotFound);
            },
        };
        let children = match listing {
            Some(v) => v,
            None => {
                return Err(FsError::NotFound);
            },
        };
        let n: usize = children.len();
        let start: usize = if offset < 0 || offset > n as i64 {
            n
        } else {
            offset as usize
        };
        let ghost t0 = self@;
        let ghost cv = children_view(children@);
        let ghost ps = listed_paths(dir@, offset, cv);
        let mut out: Vec<DirEntry> = Vec::new();
        let mut j: usize = start;
        while j < n
            invariant
                self.wf(),
                n == children@.len(),
                n <= i64::MAX,
                cv == children_view(children@),
                ps == listed_paths(dir@, offset, cv),
                start == window_start(offset, n as nat),
                start <= j <= n,
                has_room(t0, n as nat),
                table_wf(t0),
                self@ == assign_all(t0, ps.subrange(0, j - start)),
                out@.len() == j - start,
                forall|m: int|
                    0 <= m < j - start ==> self@.contains(#[trigger] ps[m]) && out@[m]@ == (
                        ino_of(self@, ps[m]).unwrap(),
                        (start + m + 1) as i64,
                        kind_spec(cv[start + m].1.kind),
                        cv[start + m].0,
                    ),
            decreases n - j,
        {
            let child = &children[j];
            let path = join_path(&dir, &child.name);
            let ghost before = self@;
            let ghost done = ps.subrange(0, j - start);
            proof {
                lemma_assign_all(t0, done);
                assert(ps[j - start] == path@);
            }
            let child_ino = self.table.assign_or_get(&path);
            proof {
                assert(ps.subrange(0, j + 1 - start).drop_last() =~= done);
                assert(ps.subrange(0, j + 1 - start).last() == path@);
                assert forall|m: int| 0 <= m < j - start implies self@.contains(#[trigger] ps[m])
                    && ino_of(self@, ps[m]) == ino_of(before, ps[m]) by {
                    lemma_known_kept(before, ps[m], path@);
                    lemma_assign_wf(before, path@);
                    let k = before.index_of(ps[m]);
                    if !before.contains(path@) {
                        assert(self@[k] == ps[m]);
                    }
                }
                assert(self@.contains(path@)) by {
                    if !before.contains(path@) {
                        assert(self@[before.len() as int] == path@);
                    }
                }
                assert(ino_of(self@, path@).unwrap() == child_ino) by {
                    if !before.contains(path@) {
                        lemma_assign_wf(before, path@);
                        lemma_bijection(self@);
                        assert(path_of(self@, child_ino) == Some(path@));
                    }
                }
            }
            let entry = DirEntry {
                ino: child_ino,
                offset: (j + 1) as i64,
                kind: file_kind(child.meta.kind),
                name: child.name.clone(),
            };
            out.push(entry);
            j = j + 1;
        }
        proof {
            assert(ps.subrange(0, n - start) =~= ps);
            let ls = listing_spec(self@, dir@, offset, cv);
            assert forall|m: int| 0 <= m < out@.len() implies #[trigger] entries_view(out@)[m]
                == ls[m] by {
                assert(ps[m] == child_path(dir@, cv[start + m].0));
                assert(self@.contains(ps[m]));
            }
            assert(entries_view(out@) =~= ls);
        }
        Ok(out)
    }
    /// Resolves child `name` of directory `parent`, given the store's
    /// metadata for the child's path (`None` where the store has no such
    /// path). A miss leaves the table as it was.
    pub fn lookup(&mut self, parent: u64, name: &String, meta: Option<Metadata>) -> (r: Result<
        FileAttr,
        FsError,
    >)
        requires
            old(self).wf(),
            has_room(old(self)@, 1),
        ensures
            final(self).wf(),
            match (path_of(old(self)@, parent), meta) {
                (Some(d), Some(m)) => {
                    let (t, ino) = assign_spec(old(self)@, child_path(d, name@));
                    final(self)@ == t && r == Ok::<FileAttr, FsError>(attr_spec(m, ino))
                },
                _ => r == Err::<FileAttr, FsError>(FsError::NotFound) && final(self)@ == old(
                    self,
                )@,
            },
    {
        let dir = match self.table.resolve_path(parent) {
            Some(d) => d,
            None => {
                return Err(FsError::NotFound);
            },
        };
        let m = match meta {
            Some(m) => m,
            None => {
                return Err(FsError::NotFound);
            },
        };
        let path = join_path(&dir, name);
        let ino = self.table.assign_or_get(&path);
        Ok(info2attr(&m, ino))
    }

    /// The attributes of inode `ino`, given the store's metadata for its
    /// path (`None` where the store failed).
    pub fn getattr(&self, ino: u64, meta: Option<Metadata>) -> (r: Result<FileAttr, FsError>)
        requires
            self.wf(),
        ensures
            r == match (path_of(self@, ino), meta) {
                (Some(_), Some(m)) => Ok::<FileAttr, FsError>(attr_spec(m, ino)),
                _ => Err(FsError::NotFound),
            },
    {
        if ino < 1 || ino > self.table.len() {
            return Err(FsError::NotFound);
        }
        match meta {
            Some(m) => Ok(info2attr(&m, ino)),
            None => Err(FsError::NotFound),
        }
    }

    /// At most `size` bytes of inode `ino` from byte `offset`, given the
    /// store's full content of its path (`None` where the store failed).
    pub fn read(&self, ino: u64, offset: i64, size: u32, content: Option<Vec<u8>>) -> (r: Result<
        Vec<u8>,
        FsError,
    >)
        requires
            self.wf(),
        ensures
            match (path_of(self@, ino), content) {
                (Some(_), Some(c)) => r matches Ok(v) && v@ == read_window(c@, offset, size),
                _ => r == Err::<Vec<u8>, FsError>(FsError::NotFound),
            },
    {
        if ino < 1 || ino > self.table.len() {
            return Err(FsError::NotFound);
        }
        let c = match content {
            Some(c) => c,
            None => {
                return Err(FsError::NotFound);
            },
        };
        let len: usize = c.len();
        let start: usize = if offset < 0 || offset as u128 > len as u128 {
            len
        } else {
            offset as usize
        };
        let end: usize = if size as u128 > (len - start) as u128 {
            len
        } else {
            start + size as usize
        };
        let mut out: Vec<u8> = Vec::new();
        let mut i: usize = start;
        while i < end
            invariant
                start <= i <= end <= len,
                len == c@.len(),
                out@ == c@.subrange(start as int, i as int),
            decreases end - i,
        {
            out.push(c[i]);
            i = i + 1;
            assert(out@ =~= c@.subrange(start as int, i as int));
        }
        Ok(out)
    }
}

/// Listing determinism: two listings of the same unmodified directory from
/// the same offset name the same children, at the same positions and of the
/// same kinds, in the same order, whatever the table held at either time.
pub proof fn lemma_listing_determinism(
    t1: Seq<Seq<char>>,
    t2: Seq<Seq<char>>,
    dir: Seq<char>,
    offset: i64,
    children: Seq<(Seq<char>, Metadata)>,
)
    ensures
        listing_spec(t1, dir, offset, children).len() == listing_spec(
            t2,
            dir,
            offset,
            children,
        ).len(),
        forall|k: int|
            0 <= k < listing_spec(t1, dir, offset, children).len() ==> {
                let a = #[trigger] listing_spec(t1, dir, offset, children)[k];
                let b = listing_spec(t2, dir, offset, children)[k];
                a.1 == b.1 && a.2 == b.2 && a.3 == b.3
            },
{
}

/// A listing repeated on the table that the first one left allocates
/// nothing, and so returns the very same entries, inode numbers included.
pub proof fn lemma_listing_repeat(
    t: Seq<Seq<char>>,
    dir: Seq<char>,
    offset: i64,
    children: Seq<(Seq<char>, Metadata)>,
)
    requires
        table_wf(t),
        has_room(t, children.len()),
    ensures
        ({
            let ps = listed_paths(dir, offset, children);
            let t1 = assign_all(t, ps);
            &&& assign_all(t1, ps) == t1
            &&& listing_spec(assign_all(t1, ps), dir, offset, children) == listing_spec(
                t1,
                dir,
                offset,
                children,
            )
        }),
{
    let ps = listed_paths(dir, offset, children);
    lemma_assign_all(t, ps);
    let t1 = assign_all(t, ps);
    lemma_assign_all_known(t1, ps);
}

/// Pagination: after a listing from offset zero, a listing from any offset
/// `k` within range allocates nothing and returns exactly the entries of the
/// first listing from position `k` on.
pub proof fn lemma_pagination(
    t: Seq<Seq<char>>,
    dir: Seq<char>,
    k: i64,
    children: Seq<(Seq<char>, Metadata)>,
)
    requires
        table_wf(t),
        has_room(t, children.len()),
        0 <= k <= children.len(),
    ensures
        ({
            let t0 = assign_all(t, listed_paths(dir, 0, children));
            &&& assign_all(t0, listed_paths(dir, k, children)) == t0
            &&& listing_spec(t0, dir, k, children) == listing_spec(t0, dir, 0, children).subrange(
                k as int,
                children.len() as int,
            )
        }),
{
    let all = listed_paths(dir, 0, children);
    let tail = listed_paths(dir, k, children);
    lemma_assign_all(t, all);
    let t0 = assign_all(t, all);
    assert forall|i: int| 0 <= i < tail.len() implies #[trigger] t0.contains(tail[i]) by {
        assert(tail[i] == all[k + i]);
    }
    lemma_assign_all_known(t0, tail);
    assert(listing_spec(t0, dir, k, children) =~= listing_spec(t0, dir, 0, children).subrange(
        k as int,
        children.len() as int,
    ));
}

} // verus!
