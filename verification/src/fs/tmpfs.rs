//! The in-memory file system: nodes kept by normalised path, in path order.
use vstd::prelude::*;
use super::lex::{lex_lt, lex_less, bytes_eq, starts_with, lemma_lex_irrefl, lemma_lex_total, lemma_lex_trans};
use super::path::{normalize_path, normalized, parent_dir, spec_parent_dir};
use super::stat::{FileStat, zero_stat};
use super::vfs::DirEntry;
use super::inode::InodeType;
use super::vfs::OpenOptions;
use super::tmpfile::{TmpFile, TmpDir};

verus! {

pub struct FileData {
    pub ino: u64,
    pub mode: u32,
    pub uid: u32,
    pub gid: u32,
    pub data: Vec<u8>,
    pub mtime: i64,
}

pub struct DirData {
    pub ino: u64,
    pub mode: u32,
}

pub enum FsNode {
    File(FileData),
    Dir(DirData),
    Symlink(Vec<u8>),
}

/// What a node holds, as plain values.
pub enum NodeV {
    File { ino: u64, mode: u32, uid: u32, gid: u32, data: Seq<u8>, mtime: i64 },
    Dir { ino: u64, mode: u32 },
    Symlink(Seq<u8>),
}

impl FsNode {
    pub open spec fn view(&self) -> NodeV {
        match self {
            FsNode::File(f) => NodeV::File { ino: f.ino, mode: f.mode, uid: f.uid, gid: f.gid, data: f.data@, mtime: f.mtime },
            FsNode::Dir(d) => NodeV::Dir { ino: d.ino, mode: d.mode },
            FsNode::Symlink(t) => NodeV::Symlink(t@),
        }
    }

    pub fn clone_node(&self) -> (r: FsNode)
        ensures r@ == self@,
    {
        match self {
            FsNode::File(f) => FsNode::File(FileData {
                ino: f.ino, mode: f.mode, uid: f.uid, gid: f.gid, data: copy_bytes(&f.data), mtime: f.mtime,
            }),
            FsNode::Dir(d) => FsNode::Dir(DirData { ino: d.ino, mode: d.mode }),
            FsNode::Symlink(t) => FsNode::Symlink(copy_bytes(t)),
        }
    }
}

pub fn copy_bytes(v: &[u8]) -> (r: Vec<u8>)
    ensures r@ == v@,
{
    let mut r: Vec<u8> = Vec::new();
    let mut i: usize = 0;
    while i < v.len()
        invariant
            i <= v.len(),
            r@ == v@.take(i as int),
        decreases v.len() - i,
    {
        r.push(v[i]);
        assert(v@.take(i + 1) =~= v@.take(i as int).push(v@[i as int]));
        i = i + 1;
    }
    assert(v@.take(i as int) =~= v@);
    r
}

pub struct TmpFs {
    /// Nodes by normalised path, in increasing path order.
    pub nodes: Vec<(Vec<u8>, FsNode)>,
    /// The inode number the next node gets.
    pub next_ino: u64,
}

impl TmpFs {
    pub open spec fn key(&self, i: int) -> Seq<u8> {
        self.nodes@[i].0@
    }

    pub open spec fn wf(&self) -> bool {
        forall|i: int, j: int| 0 <= i < j < self.nodes@.len() ==> lex_lt(#[trigger] self.key(i), #[trigger] self.key(j))
    }

    pub open spec fn has(&self, p: Seq<u8>) -> bool {
        exists|i: int| 0 <= i < self.nodes@.len() && self.key(i) == p
    }

    /// The node at path `p`.
    pub open spec fn node_at(&self, p: Seq<u8>) -> Option<NodeV> {
        if self.has(p) {
            let i = choose|i: int| 0 <= i < self.nodes@.len() && self.key(i) == p;
            Some(self.nodes@[i].1@)
        } else {
            None
        }
    }

    pub proof fn lemma_node_at_index(&self, i: int)
        requires self.wf(), 0 <= i < self.nodes@.len(),
        ensures self.node_at(self.key(i)) == Some(self.nodes@[i].1@),
    {
        let p = self.key(i);
        assert(self.has(p));
        let j = choose|j: int| 0 <= j < self.nodes@.len() && self.key(j) == p;
        if j != i {
            lemma_lex_irrefl(p);
            if j < i { assert(lex_lt(self.key(j), self.key(i))); } else { assert(lex_lt(self.key(i), self.key(j))); }
        }
    }

    pub proof fn lemma_same_nodes(a: TmpFs, b: TmpFs)
        requires a.nodes == b.nodes,
        ensures
            a.wf() == b.wf(),
            a.wf() ==> forall|q: Seq<u8>| #[trigger] a.node_at(q) == b.node_at(q),
            forall|q: Seq<u8>| #[trigger] a.has(q) == b.has(q),
    {
        assert forall|i: int| #[trigger] a.key(i) == b.key(i) by {}
        if a.wf() {
            assert forall|i: int, j: int| 0 <= i < j < b.nodes@.len() implies lex_lt(#[trigger] b.key(i), #[trigger] b.key(j)) by {
                assert(lex_lt(a.key(i), a.key(j)));
            }
        }
        if b.wf() {
            assert forall|i: int, j: int| 0 <= i < j < a.nodes@.len() implies lex_lt(#[trigger] a.key(i), #[trigger] a.key(j)) by {
                assert(lex_lt(b.key(i), b.key(j)));
            }
        }
        assert forall|q: Seq<u8>| #[trigger] a.has(q) == b.has(q) by {
            if a.has(q) {
                let i = choose|i: int| 0 <= i < a.nodes@.len() && a.key(i) == q;
                assert(b.key(i) == q);
            }
            if b.has(q) {
                let i = choose|i: int| 0 <= i < b.nodes@.len() && b.key(i) == q;
                assert(a.key(i) == q);
            }
        }
        if a.wf() {
            assert forall|q: Seq<u8>| #[trigger] a.node_at(q) == b.node_at(q) by {
                if a.has(q) {
                    let i = choose|i: int| 0 <= i < a.nodes@.len() && a.key(i) == q;
                    a.lemma_node_at_index(i);
                    b.lemma_node_at_index(i);
                }
            }
        }
    }

    /// Where `path` is, or where it would go.
    fn find(&self, path: &[u8]) -> (r: Result<usize, usize>)
        requires self.wf(),
        ensures
            r matches Ok(i) ==> i < self.nodes@.len() && self.key(i as int) == path@,
            r matches Err(p) ==> {
                &&& p <= self.nodes@.len()
                &&& !self.has(path@)
                &&& forall|i: int| 0 <= i < p ==> lex_lt(#[trigger] self.key(i), path@)
                &&& forall|i: int| p <= i < self.nodes@.len() ==> lex_lt(path@, #[trigger] self.key(i))
            },
    {
        let mut i: usize = 0;
        while i < self.nodes.len()
            invariant
                i <= self.nodes@.len(),
                self.wf(),
                forall|k: int| 0 <= k < i ==> lex_lt(#[trigger] self.key(k), path@),
            decreases self.nodes@.len() - i,
        {
            let k = &self.nodes[i].0;
            if !lex_less(k.as_slice(), path) {
                if bytes_eq(k.as_slice(), path) {
                    return Ok(i);
                }
                proof {
                    lemma_lex_total(self.key(i as int), path@);
                    assert forall|j: int| i <= j < self.nodes@.len() implies lex_lt(path@, #[trigger] self.key(j)) by {
                        if j > i { lemma_lex_trans(path@, self.key(i as int), self.key(j)); }
                    }
                    assert(!self.has(path@)) by {
                        if self.has(path@) {
                            let j = choose|j: int| 0 <= j < self.nodes@.len() && self.key(j) == path@;
                            lemma_lex_irrefl(path@);
                            if j < i { assert(lex_lt(self.key(j), path@)); } else { assert(lex_lt(path@, self.key(j))); }
                        }
                    }
                }
                return Err(i);
            }
            i = i + 1;
        }
        proof {
            assert(!self.has(path@)) by {
                if self.has(path@) {
                    let j = choose|j: int| 0 <= j < self.nodes@.len() && self.key(j) == path@;
                    lemma_lex_irrefl(path@);
                    assert(lex_lt(self.key(j), path@));
                }
            }
        }
        Err(i)
    }

    /// Sets the node at `path`, keeping every other path as it was.
    fn put(&mut self, path: Vec<u8>, node: FsNode)
        requires old(self).wf(),
        ensures
            final(self).wf(),
            final(self).next_ino == old(self).next_ino,
            final(self).node_at(path@) == Some(node@),
            forall|q: Seq<u8>| q != path@ ==> #[trigger] final(self).node_at(q) == old(self).node_at(q),
    {
        let ghost pv = path@;
        let ghost nv = node@;
        let ghost old_fs = *self;
        match self.find(path.as_slice()) {
            Ok(i) => {
                self.nodes.set(i, (path, node));
                proof {
                    assert forall|a: int, b: int| 0 <= a < b < self.nodes@.len() implies lex_lt(#[trigger] self.key(a), #[trigger] self.key(b)) by {
                        assert(self.key(a) == old_fs.key(a));
                        assert(self.key(b) == old_fs.key(b));
                    }
                    self.lemma_node_at_index(i as int);
                    assert forall|q: Seq<u8>| q != pv implies #[trigger] self.node_at(q) == old_fs.node_at(q) by {
                        if old_fs.has(q) {
                            let j = choose|j: int| 0 <= j < old_fs.nodes@.len() && old_fs.key(j) == q;
                            old_fs.lemma_node_at_index(j);
                            assert(self.key(j) == q);
                            self.lemma_node_at_index(j);
                        } else {
                            assert(!self.has(q)) by {
                                if self.has(q) {
                                    let j = choose|j: int| 0 <= j < self.nodes@.len() && self.key(j) == q;
                                    assert(old_fs.key(j) == q);
                                }
                            }
                        }
                    }
                }
            },
            Err(p) => {
                self.nodes.insert(p, (path, node));
                proof {
                    assert forall|a: int, b: int| 0 <= a < b < self.nodes@.len() implies lex_lt(#[trigger] self.key(a), #[trigger] self.key(b)) by {
                        if a < p && b < p {
                            assert(self.key(a) == old_fs.key(a) && self.key(b) == old_fs.key(b));
                        } else if a < p && b == p {
                            assert(self.key(a) == old_fs.key(a));
                        } else if a < p {
                            assert(self.key(a) == old_fs.key(a) && self.key(b) == old_fs.key(b - 1));
                            lemma_lex_trans(self.key(a), pv, self.key(b));
                        } else if a == p {
                            assert(self.key(b) == old_fs.key(b - 1));
                        } else {
                            assert(self.key(a) == old_fs.key(a - 1) && self.key(b) == old_fs.key(b - 1));
                        }
                    }
                    assert(self.key(p as int) == pv);
                    self.lemma_node_at_index(p as int);
                    assert forall|q: Seq<u8>| q != pv implies #[trigger] self.node_at(q) == old_fs.node_at(q) by {
                        if old_fs.has(q) {
                            let j = choose|j: int| 0 <= j < old_fs.nodes@.len() && old_fs.key(j) == q;
                            old_fs.lemma_node_at_index(j);
                            let k = if j < p { j } else { j + 1 };
                            assert(self.key(k) == q);
                            self.lemma_node_at_index(k);
                        } else {
                            assert(!self.has(q)) by {
                                if self.has(q) {
                                    let j = choose|j: int| 0 <= j < self.nodes@.len() && self.key(j) == q;
                                    if j < p { assert(old_fs.key(j) == q); }
                                    else if j > p { assert(old_fs.key(j - 1) == q); }
                                }
                            }
                        }
                    }
                }
            },
        }
    }

    /// Removes the node at `path`, keeping every other path as it was.
    fn take(&mut self, path: &[u8]) -> (r: Option<FsNode>)
        requires old(self).wf(),
        ensures
            final(self).wf(),
            final(self).next_ino == old(self).next_ino,
            final(self).node_at(path@).is_none(),
            r.is_none() <==> old(self).node_at(path@).is_none(),
            r matches Some(n) ==> old(self).node_at(path@) == Some(n@),
            forall|q: Seq<u8>| q != path@ ==> #[trigger] final(self).node_at(q) == old(self).node_at(q),
    {
        let ghost old_fs = *self;
        match self.find(path) {
            Ok(i) => {
                proof { old_fs.lemma_node_at_index(i as int); }
                let (_k, n) = self.nodes.remove(i);
                proof {
                    assert forall|a: int, b: int| 0 <= a < b < self.nodes@.len() implies lex_lt(#[trigger] self.key(a), #[trigger] self.key(b)) by {
                        let a0 = if a < i { a } else { a + 1 };
                        let b0 = if b < i { b } else { b + 1 };
                        assert(self.key(a) == old_fs.key(a0) && self.key(b) == old_fs.key(b0));
                    }
                    assert(!self.has(path@)) by {
                        if self.has(path@) {
                            let j = choose|j: int| 0 <= j < self.nodes@.len() && self.key(j) == path@;
                            let j0 = if j < i { j } else { j + 1 };
                            assert(old_fs.key(j0) == path@);
                            lemma_lex_irrefl(path@);
                            if j0 < i { assert(lex_lt(old_fs.key(j0), old_fs.key(i as int))); }
                            else { assert(lex_lt(old_fs.key(i as int), old_fs.key(j0))); }
                        }
                    }
                    assert forall|q: Seq<u8>| q != path@ implies #[trigger] self.node_at(q) == old_fs.node_at(q) by {
                        if old_fs.has(q) {
                            let j = choose|j: int| 0 <= j < old_fs.nodes@.len() && old_fs.key(j) == q;
                            old_fs.lemma_node_at_index(j);
                            assert(j != i);
                            let k = if j < i { j } else { j - 1 };
                            assert(self.key(k) == q);
                            self.lemma_node_at_index(k);
                        } else {
                            assert(!self.has(q)) by {
                                if self.has(q) {
                                    let j = choose|j: int| 0 <= j < self.nodes@.len() && self.key(j) == q;
                                    let j0 = if j < i { j } else { j + 1 };
                                    assert(old_fs.key(j0) == q);
                                }
                            }
                        }
                    }
                }
                Some(n)
            },
            Err(_) => None,
        }
    }

    /// The node at `path`, without following symbolic links.
    fn get(&self, path: &[u8]) -> (r: Option<&FsNode>)
        requires self.wf(),
        ensures
            r.is_none() <==> self.node_at(path@).is_none(),
            r matches Some(n) ==> self.node_at(path@) == Some(n@),
    {
        match self.find(path) {
            Ok(i) => {
                proof { self.lemma_node_at_index(i as int); }
                Some(&self.nodes[i].1)
            },
            Err(_) => None,
        }
    }
}

/// The attributes that `stat` reports for `path` (symbolic links are not followed).
pub open spec fn stat_spec(fs: TmpFs, path: Seq<u8>, now_ms: u64) -> Option<FileStat> {
    match fs.node_at(normalized(path)) {
        None => None,
        Some(NodeV::File { ino, mode, uid, gid, data, mtime }) => Some(FileStat {
            st_ino: ino,
            st_mode: 0o100000u32 | (mode & 0o777u32),
            st_nlink: 1,
            st_uid: uid,
            st_gid: gid,
            st_size: data.len() as i64,
            st_blksize: 4096,
            st_blocks: ((data.len() + 511) / 512) as i64,
            st_atime: (now_ms / 1000) as i64,
            st_mtime: ms_to_sec(mtime),
            st_ctime: ms_to_sec(mtime),
            ..zero_stat()
        }),
        Some(NodeV::Dir { ino, mode }) => Some(FileStat {
            st_ino: ino,
            st_mode: 0o040000u32 | (mode & 0o777u32),
            st_nlink: 2,
            st_blksize: 4096,
            st_atime: (now_ms / 1000) as i64,
            st_mtime: (now_ms / 1000) as i64,
            st_ctime: (now_ms / 1000) as i64,
            ..zero_stat()
        }),
        Some(NodeV::Symlink(t)) => Some(FileStat {
            st_mode: 0o120000u32 | 0o777u32,
            st_size: t.len() as i64,
            st_atime: (now_ms / 1000) as i64,
            st_mtime: (now_ms / 1000) as i64,
            st_ctime: (now_ms / 1000) as i64,
            ..zero_stat()
        }),
    }
}

/// What `readdir` gives for `path`: `None` unless a directory is there, else `.` and `..`
/// followed by its direct children in path order.
pub open spec fn readdir_post(fs: TmpFs, path: Seq<u8>, r: Option<Vec<DirEntry>>) -> bool {
    &&& (r.is_some() <==> (fs.node_at(normalized(path)) matches Some(NodeV::Dir { .. })))
    &&& (r matches Some(es) ==> es@.map_values(|e: DirEntry| entry_view(e))
        == dot_entries() + child_entries(fs.entries(), normalized(path), child_prefix(normalized(path))))
}

/// Milliseconds to seconds, rounding toward zero as integer division does.
pub open spec fn ms_to_sec(ms: i64) -> i64 {
    if ms >= 0 { (ms / 1000) as i64 } else { (-((-ms) / 1000)) as i64 }
}

/// The inode number after `n`, wrapping around.
pub open spec fn next_ino_after(n: u64) -> u64 {
    if n == u64::MAX { 0 } else { (n + 1) as u64 }
}

/// How many symbolic links a lookup follows at most.
pub const SYMLINK_MAX_DEPTH: usize = 40;

/// The path a symbolic link at `cur` with target `t` leads to.
pub open spec fn link_next(cur: Seq<u8>, t: Seq<u8>) -> Seq<u8> {
    if t.len() > 0 && t[0] == 47u8 {
        normalized(t)
    } else {
        normalized(spec_parent_dir(cur) + seq![47u8] + t)
    }
}

/// The inode number a node reports in a directory listing.
pub open spec fn node_ino(n: NodeV) -> u64 {
    match n {
        NodeV::File { ino, .. } => ino,
        NodeV::Dir { ino, .. } => ino,
        NodeV::Symlink(_) => 0,
    }
}

/// The `d_type` of a node.
pub open spec fn node_dtype(n: NodeV) -> u8 {
    match n {
        NodeV::File { .. } => 8,
        NodeV::Dir { .. } => 4,
        NodeV::Symlink(_) => 10,
    }
}

/// Whether `k` names a direct child of `dir`, whose paths start with `prefix`.
pub open spec fn is_child(k: Seq<u8>, dir: Seq<u8>, prefix: Seq<u8>) -> bool {
    &&& k != dir
    &&& prefix.len() <= k.len()
    &&& k.take(prefix.len() as int) == prefix
    &&& !k.skip(prefix.len() as int).contains(47u8)
}

/// The listing of the direct children of `dir` among `s`, in order: name, inode, type.
pub open spec fn child_entries(s: Seq<(Seq<u8>, NodeV)>, dir: Seq<u8>, prefix: Seq<u8>) -> Seq<(Seq<u8>, u64, u8)>
    decreases s.len(),
{
    if s.len() == 0 {
        Seq::empty()
    } else {
        let rest = child_entries(s.drop_last(), dir, prefix);
        let (k, n) = s.last();
        if is_child(k, dir, prefix) {
            rest.push((k.skip(prefix.len() as int), node_ino(n), node_dtype(n)))
        } else {
            rest
        }
    }
}

pub open spec fn entry_view(e: DirEntry) -> (Seq<u8>, u64, u8) {
    (e.name@, e.inode, e.file_type)
}

/// The prefix that the paths of the children of `dir` share.
pub open spec fn child_prefix(dir: Seq<u8>) -> Seq<u8> {
    if dir == seq![47u8] { dir } else { dir.push(47u8) }
}

pub open spec fn dot_entries() -> Seq<(Seq<u8>, u64, u8)> {
    seq![(seq![46u8], 0u64, 4u8), (seq![46u8, 46u8], 0u64, 4u8)]
}

fn contains_slash(s: &[u8]) -> (r: bool)
    ensures r == s@.contains(47u8),
{
    let mut i: usize = 0;
    while i < s.len()
        invariant
            i <= s.len(),
            forall|j: int| 0 <= j < i ==> s@[j] != 47u8,
        decreases s.len() - i,
    {
        if s[i] == 47u8 {
            return true;
        }
        i = i + 1;
    }
    false
}

fn bytes_from(s: &[u8], start: usize) -> (r: Vec<u8>)
    requires start <= s.len(),
    ensures r@ == s@.skip(start as int),
{
    let mut r: Vec<u8> = Vec::new();
    let mut i = start;
    while i < s.len()
        invariant
            start <= i <= s.len(),
            r@ == s@.subrange(start as int, i as int),
        decreases s.len() - i,
    {
        r.push(s[i]);
        assert(s@.subrange(start as int, i + 1) =~= s@.subrange(start as int, i as int).push(s@[i as int]));
        i = i + 1;
    }
    assert(s@.subrange(start as int, i as int) =~= s@.skip(start as int));
    r
}

impl TmpFs {
    /// The nodes as plain values, in path order.
    pub open spec fn entries(&self) -> Seq<(Seq<u8>, NodeV)> {
        self.nodes@.map_values(|e: (Vec<u8>, FsNode)| (e.0@, e.1@))
    }

    /// The node that `cur` leads to after following at most `fuel` symbolic links.
    pub open spec fn resolve(&self, cur: Seq<u8>, fuel: nat) -> Option<NodeV>
        decreases fuel,
    {
        match self.node_at(cur) {
            Some(NodeV::Symlink(t)) => if fuel == 0 { None } else { self.resolve(link_next(cur, t), (fuel - 1) as nat) },
            Some(n) => Some(n),
            None => None,
        }
    }

    /// A file system whose only node is the root directory, inode 1.
    pub fn new() -> (fs: Self)
        ensures
            fs.wf(),
            fs.node_at(seq![47u8]) == Some(NodeV::Dir { ino: 1, mode: 0o755 }),
            forall|q: Seq<u8>| q != seq![47u8] ==> #[trigger] fs.node_at(q).is_none(),
            fs.next_ino == 2,
    {
        let mut fs = TmpFs { nodes: Vec::new(), next_ino: 1 };
        let ino = fs.alloc_ino();
        let mut root: Vec<u8> = Vec::new();
        root.push(47u8);
        proof {
            assert(root@ =~= seq![47u8]);
            assert forall|q: Seq<u8>| #[trigger] fs.node_at(q).is_none() by {
                assert(!fs.has(q));
            }
        }
        fs.put(root, FsNode::Dir(DirData { ino, mode: 0o755 }));
        fs
    }

    fn alloc_ino(&mut self) -> (r: u64)
        ensures
            r == old(self).next_ino,
            final(self).next_ino == next_ino_after(old(self).next_ino),
            final(self).nodes == old(self).nodes,
    {
        let r = self.next_ino;
        self.next_ino = if self.next_ino == u64::MAX { 0 } else { self.next_ino + 1 };
        r
    }

    /// Creates a directory at `path` unless a node is there already.
    pub fn create_dir(&mut self, path: &[u8])
        requires old(self).wf(),
        ensures
            final(self).wf(),
            old(self).has(normalized(path@)) ==> final(self).next_ino == old(self).next_ino
                && forall|q: Seq<u8>| #[trigger] final(self).node_at(q) == old(self).node_at(q),
            !old(self).has(normalized(path@)) ==> {
                &&& final(self).next_ino == next_ino_after(old(self).next_ino)
                &&& final(self).node_at(normalized(path@)) == Some(NodeV::Dir { ino: old(self).next_ino, mode: 0o755 })
                &&& forall|q: Seq<u8>| q != normalized(path@) ==> #[trigger] final(self).node_at(q) == old(self).node_at(q)
            },
    {
        let p = normalize_path(path);
        match self.find(p.as_slice()) {
            Ok(_) => {},
            Err(_) => {
                let ino = self.alloc_ino();
                proof { TmpFs::lemma_same_nodes(*self, *old(self)); }
                self.put(p, FsNode::Dir(DirData { ino, mode: 0o755 }));
            },
        }
    }

    /// Creates (or replaces) a regular file at `path` holding `data`.
    pub fn create_file(&mut self, path: &[u8], data: &[u8], now_ms: u64)
        requires old(self).wf(),
        ensures
            final(self).wf(),
            final(self).next_ino == next_ino_after(old(self).next_ino),
            final(self).node_at(normalized(path@)) == Some(NodeV::File {
                ino: old(self).next_ino, mode: 0o644, uid: 0, gid: 0, data: data@, mtime: now_ms as i64,
            }),
            forall|q: Seq<u8>| q != normalized(path@) ==> #[trigger] final(self).node_at(q) == old(self).node_at(q),
    {
        let p = normalize_path(path);
        let ino = self.alloc_ino();
        proof { TmpFs::lemma_same_nodes(*self, *old(self)); }
        self.put(p, FsNode::File(FileData {
            ino, mode: 0o644, uid: 0, gid: 0, data: copy_bytes(data), mtime: now_ms as i64,
        }));
    }

    /// Creates (or replaces) a symbolic link at `path` pointing to `target`.
    pub fn create_symlink(&mut self, path: &[u8], target: &[u8])
        requires old(self).wf(),
        ensures
            final(self).wf(),
            final(self).next_ino == old(self).next_ino,
            final(self).node_at(normalized(path@)) == Some(NodeV::Symlink(target@)),
            forall|q: Seq<u8>| q != normalized(path@) ==> #[trigger] final(self).node_at(q) == old(self).node_at(q),
    {
        let p = normalize_path(path);
        self.put(p, FsNode::Symlink(copy_bytes(target)));
    }

    /// The node at `path`, following symbolic links (at most forty).
    pub fn get_node(&self, path: &[u8]) -> (r: Option<FsNode>)
        requires self.wf(),
        ensures
            r.is_none() <==> self.resolve(normalized(path@), SYMLINK_MAX_DEPTH as nat).is_none(),
            r matches Some(n) ==> self.resolve(normalized(path@), SYMLINK_MAX_DEPTH as nat) == Some(n@),
    {
        let mut current = normalize_path(path);
        let mut depth: usize = 0;
        loop
            invariant
                self.wf(),
                depth <= SYMLINK_MAX_DEPTH,
                self.resolve(normalized(path@), SYMLINK_MAX_DEPTH as nat)
                    == self.resolve(current@, (SYMLINK_MAX_DEPTH - depth) as nat),
            decreases SYMLINK_MAX_DEPTH - depth,
        {
            match self.get(current.as_slice()) {
                Some(FsNode::Symlink(target)) => {
                    if depth + 1 > SYMLINK_MAX_DEPTH {
                        return None;
                    }
                    depth = depth + 1;
                    let next = if target.len() > 0 && target[0] == 47u8 {
                        normalize_path(target.as_slice())
                    } else {
                        let mut joined = parent_dir(current.as_slice());
                        joined.push(47u8);
                        let mut k: usize = 0;
                        let ghost base = joined@;
                        assert(base =~= spec_parent_dir(current@) + seq![47u8]);
                        while k < target.len()
                            invariant
                                k <= target.len(),
                                joined@ == base + target@.take(k as int),
                            decreases target.len() - k,
                        {
                            joined.push(target[k]);
                            assert(target@.take(k + 1) =~= target@.take(k as int).push(target@[k as int]));
                            k = k + 1;
                        }
                        assert(target@.take(k as int) =~= target@);
                        assert(joined@ =~= spec_parent_dir(current@) + seq![47u8] + target@);
                        normalize_path(joined.as_slice())
                    };
                    current = next;
                },
                Some(node) => {
                    return Some(node.clone_node());
                },
                None => {
                    return None;
                },
            }
        }
    }

    /// The attributes of the node at `path` (symbolic links are not followed).
    pub fn stat(&self, path: &[u8], now_ms: u64) -> (r: Option<FileStat>)
        requires self.wf(),
        ensures
            r == stat_spec(*self, path@, now_ms),
    {
        let p = normalize_path(path);
        let now = (now_ms / 1000) as i64;
        match self.get(p.as_slice()) {
            None => None,
            Some(FsNode::File(f)) => {
                let mut st = FileStat::zeroed();
                st.st_ino = f.ino;
                st.st_mode = InodeType::Regular.mode_bits() | (f.mode & 0o777);
                st.st_nlink = 1;
                st.st_uid = f.uid;
                st.st_gid = f.gid;
                st.st_size = f.data.len() as i64;
                st.st_blksize = 4096;
                st.st_blocks = ((f.data.len() as u128 + 511) / 512) as i64;
                st.st_atime = now;
                st.st_mtime = f.mtime / 1000;
                st.st_ctime = f.mtime / 1000;
                Some(st)
            },
            Some(FsNode::Dir(d)) => {
                let mut st = FileStat::zeroed();
                st.st_ino = d.ino;
                st.st_mode = InodeType::Directory.mode_bits() | (d.mode & 0o777);
                st.st_nlink = 2;
                st.st_blksize = 4096;
                st.st_atime = now;
                st.st_mtime = now;
                st.st_ctime = now;
                Some(st)
            },
            Some(FsNode::Symlink(t)) => {
                let mut st = FileStat::zeroed();
                st.st_mode = InodeType::Symlink.mode_bits() | 0o777;
                st.st_size = t.len() as i64;
                st.st_atime = now;
                st.st_mtime = now;
                st.st_ctime = now;
                Some(st)
            },
        }
    }
}

impl TmpFs {
    /// The entries of the directory at `path`: `.` and `..`, then its direct children in path order.
    pub fn readdir(&self, path: &[u8]) -> (r: Option<Vec<DirEntry>>)
        requires self.wf(),
        ensures
            readdir_post(*self, path@, r),
    {
        let p = normalize_path(path);
        match self.get(p.as_slice()) {
            Some(FsNode::Dir(_)) => {},
            _ => return None,
        }
        let is_root = p.len() == 1 && p[0] == 47u8;
        let prefix = if is_root {
            copy_bytes(p.as_slice())
        } else {
            let mut q = copy_bytes(p.as_slice());
            q.push(47u8);
            q
        };
        proof {
            if is_root { assert(p@ =~= seq![47u8]); }
            if p@ == seq![47u8] { assert(is_root); }
            assert(prefix@ == child_prefix(p@));
        }
        let mut entries: Vec<DirEntry> = Vec::new();
        let mut dot: Vec<u8> = Vec::new();
        dot.push(46u8);
        let mut dotdot: Vec<u8> = Vec::new();
        dotdot.push(46u8);
        dotdot.push(46u8);
        let ghost dv = dot@;
        let ghost ddv = dotdot@;
        proof {
            assert(dv =~= seq![46u8]);
            assert(ddv =~= seq![46u8, 46u8]);
        }
        entries.push(DirEntry { name: dot, inode: 0, file_type: 4 });
        entries.push(DirEntry { name: dotdot, inode: 0, file_type: 4 });
        proof {
            assert(entries@[0].name@ == dv);
            assert(entries@[1].name@ == ddv);
            assert(entries@.map_values(|e: DirEntry| entry_view(e)) =~= dot_entries());
            assert(self.entries().take(0) =~= Seq::<(Seq<u8>, NodeV)>::empty());
        }
        let mut i: usize = 0;
        while i < self.nodes.len()
            invariant
                self.wf(),
                i <= self.nodes@.len(),
                prefix@ == child_prefix(p@),
                entries@.map_values(|e: DirEntry| entry_view(e))
                    == dot_entries() + child_entries(self.entries().take(i as int), p@, prefix@),
            decreases self.nodes@.len() - i,
        {
            let ghost before = entries@.map_values(|e: DirEntry| entry_view(e));
            let k = &self.nodes[i].0;
            let n = &self.nodes[i].1;
            proof {
                assert(self.entries().take(i + 1).drop_last() =~= self.entries().take(i as int));
                assert(self.entries().take(i + 1).last() == (k@, n@));
            }
            if !bytes_eq(k.as_slice(), p.as_slice()) && starts_with(k.as_slice(), prefix.as_slice()) {
                let rest = bytes_from(k.as_slice(), prefix.len());
                if !contains_slash(rest.as_slice()) {
                    let (ino, ft) = match n {
                        FsNode::File(f) => (f.ino, 8u8),
                        FsNode::Dir(d) => (d.ino, 4u8),
                        FsNode::Symlink(_) => (0u64, 10u8),
                    };
                    entries.push(DirEntry { name: rest, inode: ino, file_type: ft });
                    proof {
                        assert(entries@.map_values(|e: DirEntry| entry_view(e)) =~= before.push((k@.skip(prefix@.len() as int), ino, ft)));
                    }
                }
            }
            i = i + 1;
        }
        proof { assert(self.entries().take(i as int) =~= self.entries()); }
        Some(entries)
    }

    /// Creates a directory; always succeeds.
    pub fn mkdir(&mut self, path: &[u8], mode: u32) -> (r: isize)
        requires old(self).wf(),
        ensures
            r == 0,
            final(self).wf(),
            old(self).has(normalized(path@)) ==> final(self).next_ino == old(self).next_ino
                && forall|q: Seq<u8>| #[trigger] final(self).node_at(q) == old(self).node_at(q),
            !old(self).has(normalized(path@)) ==> {
                &&& final(self).next_ino == next_ino_after(old(self).next_ino)
                &&& final(self).node_at(normalized(path@)) == Some(NodeV::Dir { ino: old(self).next_ino, mode: 0o755 })
                &&& forall|q: Seq<u8>| q != normalized(path@) ==> #[trigger] final(self).node_at(q) == old(self).node_at(q)
            },
    {
        self.create_dir(path);
        0
    }

    /// Removes the node at `path`: 0, or -1 when there is none.
    pub fn unlink(&mut self, path: &[u8]) -> (r: isize)
        requires old(self).wf(),
        ensures
            final(self).wf(),
            final(self).next_ino == old(self).next_ino,
            r == (if old(self).node_at(normalized(path@)).is_some() { 0isize } else { -1isize }),
            final(self).node_at(normalized(path@)).is_none(),
            forall|q: Seq<u8>| q != normalized(path@) ==> #[trigger] final(self).node_at(q) == old(self).node_at(q),
    {
        let p = normalize_path(path);
        if self.take(p.as_slice()).is_some() { 0 } else { -1 }
    }

    /// Removes a directory the way `unlink` removes any node.
    pub fn rmdir(&mut self, path: &[u8]) -> (r: isize)
        requires old(self).wf(),
        ensures
            final(self).wf(),
            final(self).next_ino == old(self).next_ino,
            r == (if old(self).node_at(normalized(path@)).is_some() { 0isize } else { -1isize }),
            final(self).node_at(normalized(path@)).is_none(),
            forall|q: Seq<u8>| q != normalized(path@) ==> #[trigger] final(self).node_at(q) == old(self).node_at(q),
    {
        self.unlink(path)
    }

    /// Moves the node at `old_path` to `new_path`: 0, or -1 when there is none.
    pub fn rename(&mut self, old_path: &[u8], new_path: &[u8]) -> (r: isize)
        requires old(self).wf(),
        ensures
            final(self).wf(),
            final(self).next_ino == old(self).next_ino,
            r == (if old(self).node_at(normalized(old_path@)).is_some() { 0isize } else { -1isize }),
            r == 0 ==> {
                &&& final(self).node_at(normalized(new_path@)) == old(self).node_at(normalized(old_path@))
                &&& normalized(old_path@) != normalized(new_path@) ==> final(self).node_at(normalized(old_path@)).is_none()
                &&& forall|q: Seq<u8>| q != normalized(old_path@) && q != normalized(new_path@)
                    ==> #[trigger] final(self).node_at(q) == old(self).node_at(q)
            },
            r != 0 ==> forall|q: Seq<u8>| #[trigger] final(self).node_at(q) == old(self).node_at(q),
    {
        let o = normalize_path(old_path);
        let n = normalize_path(new_path);
        match self.take(o.as_slice()) {
            Some(node) => {
                self.put(n, node);
                0
            },
            None => {
                proof {
                    assert forall|q: Seq<u8>| #[trigger] self.node_at(q) == old(self).node_at(q) by {
                        if q == o@ { assert(old(self).node_at(q).is_none()); }
                    }
                }
                -1
            },
        }
    }

    /// Makes `new_path` a copy of the node at `old_path`: 0, or -1 when there is none.
    pub fn link(&mut self, old_path: &[u8], new_path: &[u8]) -> (r: isize)
        requires old(self).wf(),
        ensures
            final(self).wf(),
            final(self).next_ino == old(self).next_ino,
            r == (if old(self).node_at(normalized(old_path@)).is_some() { 0isize } else { -1isize }),
            r == 0 ==> final(self).node_at(normalized(new_path@)) == old(self).node_at(normalized(old_path@)),
            r == 0 ==> forall|q: Seq<u8>| q != normalized(new_path@) ==> #[trigger] final(self).node_at(q) == old(self).node_at(q),
            r != 0 ==> forall|q: Seq<u8>| #[trigger] final(self).node_at(q) == old(self).node_at(q),
    {
        let o = normalize_path(old_path);
        let n = normalize_path(new_path);
        let node = match self.get(o.as_slice()) {
            Some(node) => node.clone_node(),
            None => return -1,
        };
        self.put(n, node);
        0
    }

    /// Creates a symbolic link at `link` pointing to `target`; always succeeds.
    pub fn symlink(&mut self, target: &[u8], link: &[u8]) -> (r: isize)
        requires old(self).wf(),
        ensures
            r == 0,
            final(self).wf(),
            final(self).next_ino == old(self).next_ino,
            final(self).node_at(normalized(link@)) == Some(NodeV::Symlink(target@)),
            forall|q: Seq<u8>| q != normalized(link@) ==> #[trigger] final(self).node_at(q) == old(self).node_at(q),
    {
        self.create_symlink(link, target);
        0
    }

    /// The target of the symbolic link at `path`.
    pub fn readlink(&self, path: &[u8]) -> (r: Option<Vec<u8>>)
        requires self.wf(),
        ensures
            r.is_some() <==> self.node_at(normalized(path@)) matches Some(NodeV::Symlink(_)),
            r matches Some(t) ==> self.node_at(normalized(path@)) == Some(NodeV::Symlink(t@)),
    {
        let p = normalize_path(path);
        match self.get(p.as_slice()) {
            Some(FsNode::Symlink(t)) => Some(copy_bytes(t.as_slice())),
            _ => None,
        }
    }
}


/// Where a symbolic link with target `t`, found at the (unnormalised) path `raw`, leads.
pub open spec fn link_raw(raw: Seq<u8>, t: Seq<u8>) -> Seq<u8> {
    if t.len() > 0 && t[0] == 47u8 { t } else { spec_parent_dir(raw) + seq![47u8] + t }
}

/// What `open` yields: a regular file or a directory.
pub enum Opened {
    File(TmpFile),
    Dir(TmpDir),
}

/// What `open` does: see [`TmpFs::open`].
pub open spec fn open_post(old_fs: TmpFs, new_fs: TmpFs, path: Seq<u8>, flags: i32, mode: u32, now_ms: u64, r: Option<Opened>) -> bool {
    ({
        let opts = OpenOptions::spec_from_flags(flags);
        match old_fs.open_walk(path, opts.create, SYMLINK_MAX_DEPTH as nat) {
            None => r.is_none() && new_fs == old_fs,
            Some(p) => match old_fs.node_at(p) {
                None => {
                    &&& new_fs.next_ino == next_ino_after(old_fs.next_ino)
                    &&& new_fs.node_at(p) == Some(NodeV::File {
                        ino: old_fs.next_ino, mode: mode & 0o777, uid: 0, gid: 0, data: Seq::empty(), mtime: now_ms as i64 })
                    &&& forall|q: Seq<u8>| q != p ==> #[trigger] new_fs.node_at(q) == old_fs.node_at(q)
                    &&& r matches Some(Opened::File(f)) && f.path@ == p && f.ino == old_fs.next_ino
                        && f.data@ == Seq::<u8>::empty() && f.offset == 0 && f.writable == opts.write
                        && f.readable == opts.read && f.append == opts.append && f.nonblock == opts.nonblock
                        && f.flags == flags
                },
                Some(NodeV::File { ino, mode: m, uid, gid, data, mtime }) => {
                    &&& new_fs.next_ino == old_fs.next_ino
                    &&& new_fs.node_at(p) == Some(NodeV::File {
                        ino, mode: m, uid, gid, data: if opts.truncate { Seq::empty() } else { data }, mtime })
                    &&& forall|q: Seq<u8>| q != p ==> #[trigger] new_fs.node_at(q) == old_fs.node_at(q)
                    &&& r matches Some(Opened::File(f)) && f.path@ == p && f.ino == ino
                        && f.data@ == (if opts.truncate { Seq::<u8>::empty() } else { data }) && f.offset == 0
                        && f.writable == opts.write && f.readable == opts.read && f.append == opts.append
                        && f.nonblock == opts.nonblock && f.flags == flags
                },
                Some(_) => {
                    &&& new_fs == old_fs
                    &&& r matches Some(Opened::Dir(d)) && d.path@ == p && d.offset == 0
                },
            },
        }
    })
}

/// `fs1` is `fs0` with the contents of the regular file at `path` replaced by `data`
/// (nothing changes where no regular file is there).
pub open spec fn file_data_set(fs0: TmpFs, fs1: TmpFs, path: Seq<u8>, data: Seq<u8>) -> bool {
    &&& fs1.wf()
    &&& fs1.next_ino == fs0.next_ino
    &&& match fs0.node_at(path) {
        Some(NodeV::File { ino, mode, uid, gid, data: _, mtime }) =>
            fs1.node_at(path) == Some(NodeV::File { ino, mode, uid, gid, data, mtime }),
        _ => fs1.node_at(path) == fs0.node_at(path),
    }
    &&& forall|q: Seq<u8>| q != path ==> #[trigger] fs1.node_at(q) == fs0.node_at(q)
}

fn join_link(raw: &[u8], target: &[u8]) -> (r: Vec<u8>)
    ensures r@ == link_raw(raw@, target@),
{
    if target.len() > 0 && target[0] == 47u8 {
        return copy_bytes(target);
    }
    let mut joined = parent_dir(raw);
    joined.push(47u8);
    let ghost base = joined@;
    let mut k: usize = 0;
    while k < target.len()
        invariant
            k <= target.len(),
            joined@ == base + target@.take(k as int),
        decreases target.len() - k,
    {
        joined.push(target[k]);
        assert(target@.take(k + 1) =~= target@.take(k as int).push(target@[k as int]));
        k = k + 1;
    }
    assert(target@.take(k as int) =~= target@);
    assert(joined@ =~= link_raw(raw@, target@));
    joined
}

impl TmpFs {
    /// The normalised path that opening `raw` ends at, following at most `fuel` symbolic
    /// links: a node that is not a link, or with `create`, a path where nothing is yet.
    pub open spec fn open_walk(&self, raw: Seq<u8>, create: bool, fuel: nat) -> Option<Seq<u8>>
        decreases fuel,
    {
        let p = normalized(raw);
        match self.node_at(p) {
            None => if create { Some(p) } else { None },
            Some(NodeV::Symlink(t)) => if fuel == 0 { None } else { self.open_walk(link_raw(raw, t), create, (fuel - 1) as nat) },
            Some(_) => Some(p),
        }
    }

    /// Opens `path` with the `open` flags: following symbolic links (at most forty), creating
    /// a regular file with permissions `mode & 0o777` where O_CREAT asks for one and nothing
    /// is there, emptying a regular file where O_TRUNC asks for it.
    pub fn open(&mut self, path: &[u8], flags: i32, mode: u32, now_ms: u64) -> (r: Option<Opened>)
        requires old(self).wf(),
        ensures
            final(self).wf(),
            open_post(*old(self), *final(self), path@, flags, mode, now_ms, r),
    {
        let opts = OpenOptions::from_flags(flags);
        let mut raw = copy_bytes(path);
        let mut depth: usize = 0;
        loop
            invariant
                self.wf(),
                *self == *old(self),
                depth <= SYMLINK_MAX_DEPTH,
                opts == OpenOptions::spec_from_flags(flags),
                old(self).open_walk(path@, opts.create, SYMLINK_MAX_DEPTH as nat)
                    == old(self).open_walk(raw@, opts.create, (SYMLINK_MAX_DEPTH - depth) as nat),
            decreases SYMLINK_MAX_DEPTH - depth,
        {
            let p = normalize_path(raw.as_slice());
            let node = match self.get(p.as_slice()) {
                Some(n) => Some(n.clone_node()),
                None => None,
            };
            match node {
                Some(FsNode::Symlink(t)) => {
                    if depth + 1 > SYMLINK_MAX_DEPTH {
                        return None;
                    }
                    depth = depth + 1;
                    raw = join_link(raw.as_slice(), t.as_slice());
                },
                Some(FsNode::File(fd)) => {
                    let data = if opts.truncate {
                        let e: Vec<u8> = Vec::new();
                        self.put(copy_bytes(p.as_slice()), FsNode::File(FileData {
                            ino: fd.ino, mode: fd.mode, uid: fd.uid, gid: fd.gid, data: Vec::new(), mtime: fd.mtime,
                        }));
                        e
                    } else {
                        fd.data
                    };
                    return Some(Opened::File(TmpFile {
                        path: p,
                        ino: fd.ino,
                        data,
                        offset: 0,
                        writable: opts.write,
                        readable: opts.read,
                        append: opts.append,
                        nonblock: opts.nonblock,
                        flags,
                    }));
                },
                Some(FsNode::Dir(_)) => {
                    return Some(Opened::Dir(TmpDir { path: p, offset: 0 }));
                },
                None => {
                    if !opts.create {
                        return None;
                    }
                    let ino = self.alloc_ino();
                    proof { TmpFs::lemma_same_nodes(*self, *old(self)); }
                    self.put(copy_bytes(p.as_slice()), FsNode::File(FileData {
                        ino, mode: mode & 0o777, uid: 0, gid: 0, data: Vec::new(), mtime: now_ms as i64,
                    }));
                    return Some(Opened::File(TmpFile {
                        path: p,
                        ino,
                        data: Vec::new(),
                        offset: 0,
                        writable: opts.write,
                        readable: opts.read,
                        append: opts.append,
                        nonblock: opts.nonblock,
                        flags,
                    }));
                },
            }
        }
    }

    /// Replaces the contents of the regular file at `path` (an already normalised path);
    /// anything else is left alone.
    pub fn set_file_data(&mut self, path: &[u8], data: &[u8])
        requires old(self).wf(),
        ensures file_data_set(*old(self), *final(self), path@, data@),
    {
        let node = match self.get(path) {
            Some(n) => Some(n.clone_node()),
            None => None,
        };
        match node {
            Some(FsNode::File(fd)) => {
                self.put(copy_bytes(path), FsNode::File(FileData {
                    ino: fd.ino, mode: fd.mode, uid: fd.uid, gid: fd.gid, data: copy_bytes(data), mtime: fd.mtime,
                }));
            },
            _ => {},
        }
    }
}

} // verus!
