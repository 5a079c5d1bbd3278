//! The boot image's file table: paths mapped to directories, byte blobs and symbolic links,
//! and the contents the kernel starts with.
use vstd::prelude::*;
use vstd::string::StringSliceAdditionalSpecFns;
use crate::fs::lex::bytes_eq;
use crate::fs::tmpfs::copy_bytes;

verus! {

/// What a path of the table names: a directory, a file with its bytes, or a link.
pub struct VfsEntry {
    pub is_dir: bool,
    pub data: Option<Vec<u8>>,
    pub symlink: Option<Vec<u8>>,
}

pub struct VfsEntryV {
    pub is_dir: bool,
    pub data: Option<Seq<u8>>,
    pub symlink: Option<Seq<u8>>,
}

impl View for VfsEntry {
    type V = VfsEntryV;

    open spec fn view(&self) -> VfsEntryV {
        VfsEntryV {
            is_dir: self.is_dir,
            data: match self.data { Some(d) => Some(d@), None => None },
            symlink: match self.symlink { Some(t) => Some(t@), None => None },
        }
    }
}

/// The table: each path at most once, in the order first inserted.
pub struct Vfs {
    pub entries: Vec<(Vec<u8>, VfsEntry)>,
}

pub open spec fn entries_view(s: Seq<(Vec<u8>, VfsEntry)>) -> Seq<(Seq<u8>, VfsEntryV)> {
    s.map_values(|e: (Vec<u8>, VfsEntry)| (e.0@, e.1@))
}

impl View for Vfs {
    type V = Seq<(Seq<u8>, VfsEntryV)>;

    open spec fn view(&self) -> Seq<(Seq<u8>, VfsEntryV)> {
        entries_view(self.entries@)
    }
}

/// `i` is the place of `p` in `s`: its entry, or the end when it has none.
pub open spec fn path_at(s: Seq<(Seq<u8>, VfsEntryV)>, p: Seq<u8>, i: int) -> bool {
    &&& 0 <= i <= s.len()
    &&& forall|j: int| 0 <= j < i ==> #[trigger] s[j].0 != p
    &&& i < s.len() ==> s[i].0 == p
}

pub open spec fn path_pos(s: Seq<(Seq<u8>, VfsEntryV)>, p: Seq<u8>) -> int {
    choose|i: int| path_at(s, p, i)
}

proof fn lemma_path_pos(s: Seq<(Seq<u8>, VfsEntryV)>, p: Seq<u8>, i: int)
    requires path_at(s, p, i),
    ensures path_pos(s, p) == i,
{
    let c = path_pos(s, p);
    assert(path_at(s, p, c));
    if c < i {
        assert(s[c].0 != p);
    } else if c > i {
        assert(s[i].0 != p);
    }
}

/// Every table has a place for every path.
pub proof fn lemma_path_exists(s: Seq<(Seq<u8>, VfsEntryV)>, p: Seq<u8>) -> (i: int)
    ensures path_at(s, p, i), path_pos(s, p) == i,
    decreases s.len(),
{
    if s.len() == 0 {
        lemma_path_pos(s, p, 0);
        0
    } else {
        let d = s.drop_last();
        let j = lemma_path_exists(d, p);
        let i = if j == d.len() && s.last().0 != p { s.len() as int } else { j };
        assert(forall|q: int| 0 <= q < d.len() ==> d[q] == s[q]);
        lemma_path_pos(s, p, i);
        i
    }
}

/// What the table says of `p`.
pub open spec fn lookup(s: Seq<(Seq<u8>, VfsEntryV)>, p: Seq<u8>) -> Option<VfsEntryV> {
    let i = path_pos(s, p);
    if i < s.len() { Some(s[i].1) } else { None }
}

/// The table with `p` naming `e` (in place of what it named).
pub open spec fn inserted(s: Seq<(Seq<u8>, VfsEntryV)>, p: Seq<u8>, e: VfsEntryV) -> Seq<(Seq<u8>, VfsEntryV)> {
    let i = path_pos(s, p);
    if i < s.len() { s.update(i, (p, e)) } else { s.push((p, e)) }
}

/// After inserting `e` under `p`, the table says `e` of `p` and what it said before of every
/// other path.
pub proof fn lemma_lookup_inserted(s: Seq<(Seq<u8>, VfsEntryV)>, p: Seq<u8>, e: VfsEntryV, q: Seq<u8>)
    ensures
        lookup(inserted(s, p, e), p) == Some(e),
        q != p ==> lookup(inserted(s, p, e), q) == lookup(s, q),
{
    let i = lemma_path_exists(s, p);
    let t = inserted(s, p, e);
    lemma_path_pos(t, p, i);
    if q != p {
        let c = lemma_path_exists(s, q);
        if c < s.len() {
            assert(c != i);
            lemma_path_pos(t, q, c);
        } else {
            lemma_path_pos(t, q, t.len() as int);
        }
    }
}

/// The path `p` leads to after following links, at most `n` of them; `None` for a path
/// not in the table or a chain of links that does not end in time.
pub open spec fn resolve_spec(s: Seq<(Seq<u8>, VfsEntryV)>, p: Seq<u8>, n: nat) -> Option<Seq<u8>>
    decreases n,
{
    if n == 0 {
        None
    } else {
        match lookup(s, p) {
            None => None,
            Some(e) => match e.symlink {
                Some(t) => resolve_spec(s, t, (n - 1) as nat),
                None => Some(p),
            },
        }
    }
}

/// How many links a path may go through.
pub const LINK_HOPS: usize = 8;

impl Vfs {
    pub fn new() -> (v: Vfs)
        ensures v@ == Seq::<(Seq<u8>, VfsEntryV)>::empty(),
    {
        Vfs { entries: Vec::new() }
    }

    /// The place of `path` in the table.
    fn find(&self, path: &[u8]) -> (r: usize)
        ensures path_at(self@, path@, r as int), r == path_pos(self@, path@),
    {
        let mut i: usize = 0;
        while i < self.entries.len()
            invariant
                i <= self.entries@.len(),
                forall|j: int| 0 <= j < i ==> #[trigger] self@[j].0 != path@,
            decreases self.entries@.len() - i,
        {
            if bytes_eq(self.entries[i].0.as_slice(), path) {
                proof { lemma_path_pos(self@, path@, i as int); }
                return i;
            }
            i = i + 1;
        }
        proof { lemma_path_pos(self@, path@, i as int); }
        i
    }

    fn insert(&mut self, path: &[u8], e: VfsEntry)
        ensures final(self)@ == inserted(old(self)@, path@, e@),
    {
        let i = self.find(path);
        let key = copy_bytes(path);
        if i < self.entries.len() {
            self.entries.set(i, (key, e));
        } else {
            self.entries.push((key, e));
        }
        proof { assert(self@ =~= inserted(old(self)@, path@, e@)); }
    }

    pub fn insert_file(&mut self, path: &[u8], data: &[u8])
        ensures final(self)@ == inserted(old(self)@, path@, VfsEntryV { is_dir: false, data: Some(data@), symlink: None }),
    {
        self.insert(path, VfsEntry { is_dir: false, data: Some(copy_bytes(data)), symlink: None });
    }

    pub fn insert_symlink(&mut self, path: &[u8], target: &[u8])
        ensures final(self)@ == inserted(old(self)@, path@, VfsEntryV { is_dir: false, data: None, symlink: Some(target@) }),
    {
        self.insert(path, VfsEntry { is_dir: false, data: None, symlink: Some(copy_bytes(target)) });
    }

    pub fn insert_dir(&mut self, path: &[u8])
        ensures final(self)@ == inserted(old(self)@, path@, VfsEntryV { is_dir: true, data: None, symlink: None }),
    {
        self.insert(path, VfsEntry { is_dir: true, data: None, symlink: None });
    }

    /// The path `path` leads to, following at most eight links.
    pub fn resolve(&self, path: &[u8]) -> (r: Option<Vec<u8>>)
        ensures
            r.is_some() == resolve_spec(self@, path@, LINK_HOPS as nat).is_some(),
            r matches Some(p) ==> resolve_spec(self@, path@, LINK_HOPS as nat) == Some(p@),
    {
        let mut cur = copy_bytes(path);
        let mut k: usize = 0;
        while k < LINK_HOPS
            invariant
                k <= LINK_HOPS,
                resolve_spec(self@, path@, LINK_HOPS as nat) == resolve_spec(self@, cur@, (LINK_HOPS - k) as nat),
            decreases LINK_HOPS - k,
        {
            let i = self.find(cur.as_slice());
            if i == self.entries.len() {
                return None;
            }
            match &self.entries[i].1.symlink {
                Some(t) => {
                    cur = copy_bytes(t.as_slice());
                },
                None => {
                    return Some(cur);
                },
            }
            k = k + 1;
        }
        None
    }

    /// The file `path` leads to, read-only, at position 0, under the path it resolved to:
    /// none for a directory, a missing path or an entry without data.
    pub fn open(&self, path: &[u8]) -> (r: Option<crate::memfile::StaticFile>)
        ensures
            r.is_some() == (match resolve_spec(self@, path@, LINK_HOPS as nat) {
                Some(p) => match lookup(self@, p) {
                    Some(e) => !e.is_dir && e.data.is_some(),
                    None => false,
                },
                None => false,
            }),
            r matches Some(f) ==> f.data@ == lookup(self@, resolve_spec(self@, path@, LINK_HOPS as nat).unwrap()).unwrap().data.unwrap()
                && f.path@ == resolve_spec(self@, path@, LINK_HOPS as nat).unwrap() && f.pos == 0,
    {
        let target = match self.resolve(path) {
            Some(p) => p,
            None => return None,
        };
        let i = self.find(target.as_slice());
        if i == self.entries.len() {
            return None;
        }
        if self.entries[i].1.is_dir {
            return None;
        }
        match &self.entries[i].1.data {
            Some(d) => Some(crate::memfile::StaticFile::new(target.as_slice(), d.as_slice())),
            None => None,
        }
    }

    /// Whether `path` leads to an entry.
    pub fn path_exists(&self, path: &[u8]) -> (r: bool)
        ensures r == (match resolve_spec(self@, path@, LINK_HOPS as nat) {
            Some(p) => lookup(self@, p).is_some(),
            None => false,
        }),
    {
        match self.resolve(path) {
            Some(p) => self.find(p.as_slice()) < self.entries.len(),
            None => false,
        }
    }

    /// The size of the file `path` leads to.
    pub fn size(&self, path: &[u8]) -> (r: Option<u64>)
        ensures r == (match resolve_spec(self@, path@, LINK_HOPS as nat) {
            Some(p) => match lookup(self@, p) {
                Some(e) => match e.data { Some(d) => Some(d.len() as u64), None => None },
                None => None,
            },
            None => None,
        }),
    {
        let target = match self.resolve(path) {
            Some(p) => p,
            None => return None,
        };
        let i = self.find(target.as_slice());
        if i == self.entries.len() {
            return None;
        }
        match &self.entries[i].1.data {
            Some(d) => Some(d.len() as u64),
            None => None,
        }
    }

    /// Whether `path` leads to a directory.
    pub fn is_dir(&self, path: &[u8]) -> (r: Option<bool>)
        ensures r == (match resolve_spec(self@, path@, LINK_HOPS as nat) {
            Some(p) => match lookup(self@, p) { Some(e) => Some(e.is_dir), None => None },
            None => None,
        }),
    {
        let target = match self.resolve(path) {
            Some(p) => p,
            None => return None,
        };
        let i = self.find(target.as_slice());
        if i == self.entries.len() {
            return None;
        }
        Some(self.entries[i].1.is_dir)
    }
}

pub const NGINX_CONF: &'static str = "daemon off;\nmaster_process off;\nworker_processes 1;\nerror_log /dev/stderr warn;\npid /run/nginx.pid;\nevents { worker_connections 16; }\nhttp {\naccess_log off;\ndefault_type application/octet-stream;\nsendfile off;\nkeepalive_timeout 0;\nserver {\nlisten 80 default_server;\nserver_name _;\nroot /var/www;\nindex index.html;\n}\n}\n";
pub const PASSWD: &'static str = "root:x:0:0:root:/root:/bin/sh\nnginx:x:100:101:nginx:/var/lib/nginx:/sbin/nologin\n";
pub const GROUP: &'static str = "root:x:0:\nnginx:x:101:\n";
pub const RESOLV_CONF: &'static str = "nameserver 8.8.8.8\n";
pub const HOSTS: &'static str = "127.0.0.1 localhost\n";
pub const INDEX_HTML: &'static str = "<!doctype html>\n<html><body><h1>Hello from iJiege Rust kernel + nginx</h1></body></html>\n";
pub const MIME_TYPES: &'static str = "types {\ntext/html html htm;\ntext/plain txt;\ntext/css css;\napplication/javascript js;\nimage/png png;\n}\n";

/// The program and libraries the image carries, as the platform embeds them.
pub struct InitImages {
    pub ld_musl: Vec<u8>,
    pub nginx: Vec<u8>,
    pub libcrypto: Vec<u8>,
    pub libssl: Vec<u8>,
    pub libpcre2: Vec<u8>,
    pub libz: Vec<u8>,
}

pub open spec fn dir_v() -> VfsEntryV {
    VfsEntryV { is_dir: true, data: None, symlink: None }
}

pub open spec fn file_v(d: Seq<u8>) -> VfsEntryV {
    VfsEntryV { is_dir: false, data: Some(d), symlink: None }
}

pub open spec fn link_v(t: Seq<u8>) -> VfsEntryV {
    VfsEntryV { is_dir: false, data: None, symlink: Some(t) }
}

/// The table after inserting `steps` in order.
pub open spec fn apply_steps(s: Seq<(Seq<u8>, VfsEntryV)>, steps: Seq<(Seq<u8>, VfsEntryV)>) -> Seq<(Seq<u8>, VfsEntryV)>
    decreases steps.len(),
{
    if steps.len() == 0 {
        s
    } else {
        let t = apply_steps(s, steps.drop_last());
        inserted(t, steps.last().0, steps.last().1)
    }
}

/// The directories of the image, parents first.
pub open spec fn tree_steps() -> Seq<(Seq<u8>, VfsEntryV)> {
    seq![
        ("/".spec_bytes(), dir_v()),
        ("/lib".spec_bytes(), dir_v()),
        ("/usr".spec_bytes(), dir_v()),
        ("/usr/lib".spec_bytes(), dir_v()),
        ("/usr/sbin".spec_bytes(), dir_v()),
        ("/etc".spec_bytes(), dir_v()),
        ("/etc/nginx".spec_bytes(), dir_v()),
        ("/var".spec_bytes(), dir_v()),
        ("/var/www".spec_bytes(), dir_v()),
        ("/var/log".spec_bytes(), dir_v()),
        ("/var/log/nginx".spec_bytes(), dir_v()),
        ("/var/lib".spec_bytes(), dir_v()),
        ("/var/lib/nginx".spec_bytes(), dir_v()),
        ("/var/lib/nginx/logs".spec_bytes(), dir_v()),
        ("/var/lib/nginx/tmp".spec_bytes(), dir_v()),
        ("/var/lib/nginx/tmp/client_body".spec_bytes(), dir_v()),
        ("/var/lib/nginx/tmp/fastcgi".spec_bytes(), dir_v()),
        ("/var/lib/nginx/tmp/proxy".spec_bytes(), dir_v()),
        ("/var/lib/nginx/tmp/scgi".spec_bytes(), dir_v()),
        ("/var/lib/nginx/tmp/uwsgi".spec_bytes(), dir_v()),
        ("/run".spec_bytes(), dir_v()),
        ("/dev".spec_bytes(), dir_v()),
        ("/tmp".spec_bytes(), dir_v()),
        ("/proc".spec_bytes(), dir_v()),
        ("/proc/self".spec_bytes(), dir_v())
    ]
}

/// The files and the link, after the tree.
pub open spec fn file_steps(imgs: InitImages) -> Seq<(Seq<u8>, VfsEntryV)> {
    seq![
        ("/lib/ld-musl-riscv64.so.1".spec_bytes(), file_v(imgs.ld_musl@)),
        ("/lib/libc.musl-riscv64.so.1".spec_bytes(), link_v("/lib/ld-musl-riscv64.so.1".spec_bytes())),
        ("/usr/sbin/nginx".spec_bytes(), file_v(imgs.nginx@)),
        ("/usr/lib/libcrypto.so.3".spec_bytes(), file_v(imgs.libcrypto@)),
        ("/usr/lib/libssl.so.3".spec_bytes(), file_v(imgs.libssl@)),
        ("/usr/lib/libpcre2-8.so.0".spec_bytes(), file_v(imgs.libpcre2@)),
        ("/usr/lib/libpcre2-8.so.0.15.0".spec_bytes(), file_v(imgs.libpcre2@)),
        ("/usr/lib/libz.so.1".spec_bytes(), file_v(imgs.libz@)),
        ("/usr/lib/libz.so.1.3.2".spec_bytes(), file_v(imgs.libz@)),
        ("/etc/nginx/nginx.conf".spec_bytes(), file_v(NGINX_CONF.spec_bytes())),
        ("/etc/nginx/mime.types".spec_bytes(), file_v(MIME_TYPES.spec_bytes())),
        ("/etc/passwd".spec_bytes(), file_v(PASSWD.spec_bytes())),
        ("/etc/group".spec_bytes(), file_v(GROUP.spec_bytes())),
        ("/etc/resolv.conf".spec_bytes(), file_v(RESOLV_CONF.spec_bytes())),
        ("/etc/hosts".spec_bytes(), file_v(HOSTS.spec_bytes())),
        ("/var/www/index.html".spec_bytes(), file_v(INDEX_HTML.spec_bytes()))
    ]
}

/// What `load` inserts, in order: the directory tree, the loader and its link, nginx and
/// its libraries, the configuration files and the web root's page.
pub open spec fn load_steps(imgs: InitImages) -> Seq<(Seq<u8>, VfsEntryV)> {
    tree_steps() + file_steps(imgs)
}

/// Inserting `a` then `b` is inserting `a + b`.
pub proof fn lemma_apply_concat(s: Seq<(Seq<u8>, VfsEntryV)>, a: Seq<(Seq<u8>, VfsEntryV)>, b: Seq<(Seq<u8>, VfsEntryV)>)
    ensures apply_steps(apply_steps(s, a), b) == apply_steps(s, a + b),
    decreases b.len(),
{
    if b.len() > 0 {
        lemma_apply_concat(s, a, b.drop_last());
        assert((a + b).drop_last() =~= a + b.drop_last());
        assert((a + b).last() == b.last());
    } else {
        assert(a + b =~= a);
    }
}

fn add_dir(vfs: &mut Vfs, p: &str, Ghost(base): Ghost<Seq<(Seq<u8>, VfsEntryV)>>, Ghost(done): Ghost<Seq<(Seq<u8>, VfsEntryV)>>)
    requires old(vfs)@ == apply_steps(base, done),
    ensures final(vfs)@ == apply_steps(base, done.push((p.spec_bytes(), dir_v()))),
{
    vfs.insert_dir(p.as_bytes());
    proof { assert(done.push((p.spec_bytes(), dir_v())).drop_last() =~= done); }
}

fn add_file(vfs: &mut Vfs, p: &str, d: &[u8], Ghost(base): Ghost<Seq<(Seq<u8>, VfsEntryV)>>, Ghost(done): Ghost<Seq<(Seq<u8>, VfsEntryV)>>)
    requires old(vfs)@ == apply_steps(base, done),
    ensures final(vfs)@ == apply_steps(base, done.push((p.spec_bytes(), file_v(d@)))),
{
    vfs.insert_file(p.as_bytes(), d);
    proof { assert(done.push((p.spec_bytes(), file_v(d@))).drop_last() =~= done); }
}

fn add_link(vfs: &mut Vfs, p: &str, t: &str, Ghost(base): Ghost<Seq<(Seq<u8>, VfsEntryV)>>, Ghost(done): Ghost<Seq<(Seq<u8>, VfsEntryV)>>)
    requires old(vfs)@ == apply_steps(base, done),
    ensures final(vfs)@ == apply_steps(base, done.push((p.spec_bytes(), link_v(t.spec_bytes())))),
{
    vfs.insert_symlink(p.as_bytes(), t.as_bytes());
    proof { assert(done.push((p.spec_bytes(), link_v(t.spec_bytes()))).drop_last() =~= done); }
}

fn load_tree(vfs: &mut Vfs)
    ensures final(vfs)@ == apply_steps(old(vfs)@, tree_steps()),
{
    let ghost base = vfs@;
    let ghost mut done: Seq<(Seq<u8>, VfsEntryV)> = Seq::empty();
    add_dir(vfs, "/", Ghost(base), Ghost(done));
    proof { done = done.push(("/".spec_bytes(), dir_v())); }
    add_dir(vfs, "/lib", Ghost(base), Ghost(done));
    proof { done = done.push(("/lib".spec_bytes(), dir_v())); }
    add_dir(vfs, "/usr", Ghost(base), Ghost(done));
    proof { done = done.push(("/usr".spec_bytes(), dir_v())); }
    add_dir(vfs, "/usr/lib", Ghost(base), Ghost(done));
    proof { done = done.push(("/usr/lib".spec_bytes(), dir_v())); }
    add_dir(vfs, "/usr/sbin", Ghost(base), Ghost(done));
    proof { done = done.push(("/usr/sbin".spec_bytes(), dir_v())); }
    add_dir(vfs, "/etc", Ghost(base), Ghost(done));
    proof { done = done.push(("/etc".spec_bytes(), dir_v())); }
    add_dir(vfs, "/etc/nginx", Ghost(base), Ghost(done));
    proof { done = done.push(("/etc/nginx".spec_bytes(), dir_v())); }
    add_dir(vfs, "/var", Ghost(base), Ghost(done));
    proof { done = done.push(("/var".spec_bytes(), dir_v())); }
    add_dir(vfs, "/var/www", Ghost(base), Ghost(done));
    proof { done = done.push(("/var/www".spec_bytes(), dir_v())); }
    add_dir(vfs, "/var/log", Ghost(base), Ghost(done));
    proof { done = done.push(("/var/log".spec_bytes(), dir_v())); }
    add_dir(vfs, "/var/log/nginx", Ghost(base), Ghost(done));
    proof { done = done.push(("/var/log/nginx".spec_bytes(), dir_v())); }
    add_dir(vfs, "/var/lib", Ghost(base), Ghost(done));
    proof { done = done.push(("/var/lib".spec_bytes(), dir_v())); }
    add_dir(vfs, "/var/lib/nginx", Ghost(base), Ghost(done));
    proof { done = done.push(("/var/lib/nginx".spec_bytes(), dir_v())); }
    add_dir(vfs, "/var/lib/nginx/logs", Ghost(base), Ghost(done));
    proof { done = done.push(("/var/lib/nginx/logs".spec_bytes(), dir_v())); }
    add_dir(vfs, "/var/lib/nginx/tmp", Ghost(base), Ghost(done));
    proof { done = done.push(("/var/lib/nginx/tmp".spec_bytes(), dir_v())); }
    add_dir(vfs, "/var/lib/nginx/tmp/client_body", Ghost(base), Ghost(done));
    proof { done = done.push(("/var/lib/nginx/tmp/client_body".spec_bytes(), dir_v())); }
    add_dir(vfs, "/var/lib/nginx/tmp/fastcgi", Ghost(base), Ghost(done));
    proof { done = done.push(("/var/lib/nginx/tmp/fastcgi".spec_bytes(), dir_v())); }
    add_dir(vfs, "/var/lib/nginx/tmp/proxy", Ghost(base), Ghost(done));
    proof { done = done.push(("/var/lib/nginx/tmp/proxy".spec_bytes(), dir_v())); }
    add_dir(vfs, "/var/lib/nginx/tmp/scgi", Ghost(base), Ghost(done));
    proof { done = done.push(("/var/lib/nginx/tmp/scgi".spec_bytes(), dir_v())); }
    add_dir(vfs, "/var/lib/nginx/tmp/uwsgi", Ghost(base), Ghost(done));
    proof { done = done.push(("/var/lib/nginx/tmp/uwsgi".spec_bytes(), dir_v())); }
    add_dir(vfs, "/run", Ghost(base), Ghost(done));
    proof { done = done.push(("/run".spec_bytes(), dir_v())); }
    add_dir(vfs, "/dev", Ghost(base), Ghost(done));
    proof { done = done.push(("/dev".spec_bytes(), dir_v())); }
    add_dir(vfs, "/tmp", Ghost(base), Ghost(done));
    proof { done = done.push(("/tmp".spec_bytes(), dir_v())); }
    add_dir(vfs, "/proc", Ghost(base), Ghost(done));
    proof { done = done.push(("/proc".spec_bytes(), dir_v())); }
    add_dir(vfs, "/proc/self", Ghost(base), Ghost(done));
    proof { done = done.push(("/proc/self".spec_bytes(), dir_v())); }
    proof { assert(done =~= tree_steps()); }
}

fn load_files(vfs: &mut Vfs, imgs: &InitImages)
    ensures final(vfs)@ == apply_steps(old(vfs)@, file_steps(*imgs)),
{
    let ghost base = vfs@;
    let ghost mut done: Seq<(Seq<u8>, VfsEntryV)> = Seq::empty();
    add_file(vfs, "/lib/ld-musl-riscv64.so.1", imgs.ld_musl.as_slice(), Ghost(base), Ghost(done));
    proof { done = done.push(("/lib/ld-musl-riscv64.so.1".spec_bytes(), file_v(imgs.ld_musl@))); }
    add_link(vfs, "/lib/libc.musl-riscv64.so.1", "/lib/ld-musl-riscv64.so.1", Ghost(base), Ghost(done));
    proof { done = done.push(("/lib/libc.musl-riscv64.so.1".spec_bytes(), link_v("/lib/ld-musl-riscv64.so.1".spec_bytes()))); }
    add_file(vfs, "/usr/sbin/nginx", imgs.nginx.as_slice(), Ghost(base), Ghost(done));
    proof { done = done.push(("/usr/sbin/nginx".spec_bytes(), file_v(imgs.nginx@))); }
    add_file(vfs, "/usr/lib/libcrypto.so.3", imgs.libcrypto.as_slice(), Ghost(base), Ghost(done));
    proof { done = done.push(("/usr/lib/libcrypto.so.3".spec_bytes(), file_v(imgs.libcrypto@))); }
    add_file(vfs, "/usr/lib/libssl.so.3", imgs.libssl.as_slice(), Ghost(base), Ghost(done));
    proof { done = done.push(("/usr/lib/libssl.so.3".spec_bytes(), file_v(imgs.libssl@))); }
    add_file(vfs, "/usr/lib/libpcre2-8.so.0", imgs.libpcre2.as_slice(), Ghost(base), Ghost(done));
    proof { done = done.push(("/usr/lib/libpcre2-8.so.0".spec_bytes(), file_v(imgs.libpcre2@))); }
    add_file(vfs, "/usr/lib/libpcre2-8.so.0.15.0", imgs.libpcre2.as_slice(), Ghost(base), Ghost(done));
    proof { done = done.push(("/usr/lib/libpcre2-8.so.0.15.0".spec_bytes(), file_v(imgs.libpcre2@))); }
    add_file(vfs, "/usr/lib/libz.so.1", imgs.libz.as_slice(), Ghost(base), Ghost(done));
    proof { done = done.push(("/usr/lib/libz.so.1".spec_bytes(), file_v(imgs.libz@))); }
    add_file(vfs, "/usr/lib/libz.so.1.3.2", imgs.libz.as_slice(), Ghost(base), Ghost(done));
    proof { done = done.push(("/usr/lib/libz.so.1.3.2".spec_bytes(), file_v(imgs.libz@))); }
    add_file(vfs, "/etc/nginx/nginx.conf", NGINX_CONF.as_bytes(), Ghost(base), Ghost(done));
    proof { done = done.push(("/etc/nginx/nginx.conf".spec_bytes(), file_v(NGINX_CONF.spec_bytes()))); }
    add_file(vfs, "/etc/nginx/mime.types", MIME_TYPES.as_bytes(), Ghost(base), Ghost(done));
    proof { done = done.push(("/etc/nginx/mime.types".spec_bytes(), file_v(MIME_TYPES.spec_bytes()))); }
    add_file(vfs, "/etc/passwd", PASSWD.as_bytes(), Ghost(base), Ghost(done));
    proof { done = done.push(("/etc/passwd".spec_bytes(), file_v(PASSWD.spec_bytes()))); }
    add_file(vfs, "/etc/group", GROUP.as_bytes(), Ghost(base), Ghost(done));
    proof { done = done.push(("/etc/group".spec_bytes(), file_v(GROUP.spec_bytes()))); }
    add_file(vfs, "/etc/resolv.conf", RESOLV_CONF.as_bytes(), Ghost(base), Ghost(done));
    proof { done = done.push(("/etc/resolv.conf".spec_bytes(), file_v(RESOLV_CONF.spec_bytes()))); }
    add_file(vfs, "/etc/hosts", HOSTS.as_bytes(), Ghost(base), Ghost(done));
    proof { done = done.push(("/etc/hosts".spec_bytes(), file_v(HOSTS.spec_bytes()))); }
    add_file(vfs, "/var/www/index.html", INDEX_HTML.as_bytes(), Ghost(base), Ghost(done));
    proof { done = done.push(("/var/www/index.html".spec_bytes(), file_v(INDEX_HTML.spec_bytes()))); }
    proof { assert(done =~= file_steps(*imgs)); }
}

/// Fills the table with the boot image: see `load_steps`.
pub fn load(vfs: &mut Vfs, imgs: &InitImages)
    ensures final(vfs)@ == apply_steps(old(vfs)@, load_steps(*imgs)),
{
    let ghost v0 = vfs@;
    load_tree(vfs);
    load_files(vfs, imgs);
    proof { lemma_apply_concat(v0, tree_steps(), file_steps(*imgs)); }
}

} // verus!
