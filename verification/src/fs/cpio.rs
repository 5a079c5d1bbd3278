//! Unpacking an initial file system image in the `newc` cpio format.
use vstd::prelude::*;
use super::tmpfs::{TmpFs, NodeV, next_ino_after, copy_bytes};
use super::path::normalized;
use super::lex::{bytes_eq, starts_with};
use vstd::string::StringSliceAdditionalSpecFns;

verus! {

/// Whether `std::str::from_utf8` accepts the bytes.
pub uninterp spec fn utf8_valid(s: Seq<u8>) -> bool;

/// Calls `std::str::from_utf8` on `b` and tells whether it succeeded; what UTF-8 validity
/// means is left to the name `utf8_valid`.
#[verifier::external_body]
fn is_utf8(b: &[u8]) -> (r: bool)
    ensures r == utf8_valid(b@),
{
    std::str::from_utf8(b).is_ok()
}

/// The value of a hexadecimal digit.
pub open spec fn hex_digit(c: u8) -> Option<nat> {
    if 48 <= c <= 57 {
        Some((c - 48) as nat)
    } else if 97 <= c <= 102 {
        Some((c - 87) as nat)
    } else if 65 <= c <= 70 {
        Some((c - 55) as nat)
    } else {
        None
    }
}

/// The value of a string of hexadecimal digits (`None` if one is not a digit).
pub open spec fn hex_value(s: Seq<u8>) -> Option<nat>
    decreases s.len(),
{
    if s.len() == 0 {
        Some(0)
    } else {
        match (hex_value(s.drop_last()), hex_digit(s.last())) {
            (Some(v), Some(d)) => Some(v * 16 + d),
            _ => None,
        }
    }
}

/// A header field read the way `usize::from_str_radix(s, 16)` reads it: an optional `+`,
/// then one or more hexadecimal digits, the value fitting in a `usize`. Anything else reads
/// as 0.
pub open spec fn parse_hex_spec(s: Seq<u8>) -> nat {
    let digits = if s.len() > 0 && s[0] == 43u8 { s.skip(1) } else { s };
    if digits.len() == 0 {
        0
    } else {
        match hex_value(digits) {
            Some(v) => if v <= usize::MAX { v } else { 0 },
            None => 0,
        }
    }
}

proof fn lemma_hex_prefix(s: Seq<u8>, i: int)
    requires 0 <= i <= s.len(), hex_value(s).is_some(),
    ensures hex_value(s.take(i)).is_some(), hex_value(s.take(i)).unwrap() <= hex_value(s).unwrap(),
    decreases s.len(),
{
    if i == s.len() {
        assert(s.take(i) =~= s);
    } else {
        assert(s.drop_last().take(i) =~= s.take(i));
        lemma_hex_prefix(s.drop_last(), i);
    }
}

fn hex_digit_of(c: u8) -> (r: Option<usize>)
    ensures
        r.is_some() == hex_digit(c).is_some(),
        r matches Some(d) ==> hex_digit(c) == Some(d as nat) && d < 16,
{
    if 48 <= c && c <= 57 {
        Some((c - 48) as usize)
    } else if 97 <= c && c <= 102 {
        Some((c - 87) as usize)
    } else if 65 <= c && c <= 70 {
        Some((c - 55) as usize)
    } else {
        None
    }
}

/// Reads a header field: its hexadecimal value, or 0 where it is not one.
pub fn parse_hex(s: &[u8]) -> (r: usize)
    ensures r == parse_hex_spec(s@),
{
    let start: usize = if s.len() > 0 && s[0] == 43u8 { 1 } else { 0 };
    let ghost digits = if s@.len() > 0 && s@[0] == 43u8 { s@.skip(1) } else { s@ };
    if start >= s.len() {
        proof { assert(digits.len() == 0); }
        return 0;
    }
    let mut acc: usize = 0;
    let mut i: usize = start;
    proof { assert(digits.take(0) =~= Seq::<u8>::empty()); }
    while i < s.len()
        invariant
            start <= i <= s.len(),
            digits == s@.skip(start as int),
            digits == (if s@.len() > 0 && s@[0] == 43u8 { s@.skip(1) } else { s@ }),
            digits.len() > 0,
            hex_value(digits.take(i - start)) == Some(acc as nat),
        decreases s.len() - i,
    {
        let ghost k = i - start;
        assert(digits.take(k + 1).drop_last() =~= digits.take(k));
        assert(digits.take(k + 1).last() == s@[i as int]);
        match hex_digit_of(s[i]) {
            None => {
                proof {
                    assert(hex_value(digits.take(k + 1)).is_none());
                    if hex_value(digits).is_some() {
                        lemma_hex_prefix(digits, k + 1);
                    }
                    assert(digits.len() > 0);
                    assert(hex_value(digits).is_none());
                    assert(parse_hex_spec(s@) == 0);
                }
                return 0;
            },
            Some(d) => {
                if acc > (usize::MAX - d) / 16 {
                    proof {
                        assert(acc * 16 + d > usize::MAX) by (nonlinear_arith)
                            requires acc > (usize::MAX - d) / 16, d < 16;
                        assert(hex_value(digits.take(k + 1)) == Some((acc * 16 + d) as nat));
                        if hex_value(digits).is_some() {
                            lemma_hex_prefix(digits, k + 1);
                        }
                        assert(digits.len() > 0);
                    }
                    return 0;
                }
                proof {
                    assert(acc * 16 + d <= usize::MAX) by (nonlinear_arith)
                        requires acc <= (usize::MAX - d) / 16, d < 16;
                }
                acc = acc * 16 + d;
            },
        }
        i = i + 1;
    }
    proof { assert(digits.take(i - start) =~= digits); }
    acc
}

/// One step of unpacking an image.
pub enum CpioAct {
    Dir(Seq<u8>),
    File(Seq<u8>, Seq<u8>),
    Link(Seq<u8>, Seq<u8>),
}

pub open spec fn field(data: Seq<u8>, off: int, a: int, b: int) -> nat {
    parse_hex_spec(data.subrange(off + a, off + b))
}

/// The name an entry's name bytes stand for: themselves when valid UTF-8, else `unknown`.
pub open spec fn entry_name(raw: Seq<u8>, valid: bool) -> Seq<u8> {
    if valid { raw } else { "unknown".spec_bytes() }
}

/// The absolute path of an entry: `./x` and `x` become `/x`.
pub open spec fn entry_path(name: Seq<u8>) -> Seq<u8> {
    if name.len() >= 2 && name[0] == 46u8 && name[1] == 47u8 {
        seq![47u8] + name.skip(2)
    } else if !(name.len() > 0 && name[0] == 47u8) {
        seq![47u8] + name
    } else {
        name
    }
}

/// The file type bits of a `st_mode`.
pub open spec fn mode_kind(mode: nat) -> int {
    (mode as int / 0o10000) % 0o20 * 0o10000
}

/// The step an entry stands for, if any.
pub open spec fn entry_act(name: Seq<u8>, mode: nat, body: Seq<u8>) -> Option<CpioAct> {
    if name.len() == 0 || name == seq![46u8] {
        None
    } else if mode_kind(mode) == 0o040000 {
        Some(CpioAct::Dir(entry_path(name)))
    } else if mode_kind(mode) == 0o100000 {
        Some(CpioAct::File(entry_path(name), body))
    } else if mode_kind(mode) == 0o120000 && utf8_valid(body) {
        Some(CpioAct::Link(entry_path(name), body))
    } else {
        None
    }
}

pub open spec fn round4(n: int) -> int {
    (n + 3) / 4 * 4
}

pub proof fn lemma_round4(n: int)
    requires n >= 0,
    ensures n <= round4(n) <= n + 3,
{
    assert(n <= (n + 3) / 4 * 4 <= n + 3) by (nonlinear_arith) requires n >= 0;
}

/// The steps of the entries from `off` on, stopping at the trailer, a bad magic number or a
/// truncated entry; `None` where an entry has an empty name field, which the reader cannot
/// take apart.
pub open spec fn cpio_acts(data: Seq<u8>, off: int) -> Option<Seq<CpioAct>>
    decreases data.len() + 4 - off,
{
    if off < 0 || off + 110 > data.len() {
        Some(Seq::empty())
    } else if data.subrange(off, off + 6) != "070701".spec_bytes() && data.subrange(off, off + 6) != "070702".spec_bytes() {
        Some(Seq::empty())
    } else {
        let namesize = field(data, off, 94, 102);
        let filesize = field(data, off, 54, 62);
        let name_start = off + 110;
        let name_end = name_start + namesize;
        if name_end > data.len() {
            Some(Seq::empty())
        } else if namesize == 0 {
            None
        } else {
            let raw = data.subrange(name_start, name_end - 1);
            let name = entry_name(raw, utf8_valid(raw));
            if name == "TRAILER!!!".spec_bytes() {
                Some(Seq::empty())
            } else {
                let data_start = round4(name_end);
                let data_end = data_start + filesize;
                if data_end > data.len() {
                    Some(Seq::empty())
                } else {
                    let body = data.subrange(data_start, data_end);
                    proof { lemma_round4(name_end); lemma_round4(data_end); }
                    match cpio_acts(data, round4(data_end)) {
                        None => None,
                        Some(rest) => match entry_act(name, field(data, off, 14, 22), body) {
                            Some(a) => Some(seq![a] + rest),
                            None => Some(rest),
                        },
                    }
                }
            }
        }
    }
}

/// In a `newc` image the body of a regular-file entry starts at the end of its name rounded
/// up to a multiple of 4 (`ds`, the first multiple of 4 at or after the name's end) and runs
/// for the entry's file size: unpacking the entry at `off` creates the file at its path with
/// exactly those bytes.
pub proof fn lemma_cpio_file_body(data: Seq<u8>, off: int, ds: int)
    requires
        0 <= off,
        off + 110 <= data.len(),
        data.subrange(off, off + 6) == "070701".spec_bytes() || data.subrange(off, off + 6) == "070702".spec_bytes(),
        field(data, off, 94, 102) > 1,
        off + 110 + field(data, off, 94, 102) <= data.len(),
        utf8_valid(data.subrange(off + 110, off + 110 + field(data, off, 94, 102) - 1)),
        data.subrange(off + 110, off + 110 + field(data, off, 94, 102) - 1) != "TRAILER!!!".spec_bytes(),
        data.subrange(off + 110, off + 110 + field(data, off, 94, 102) - 1) != seq![46u8],
        mode_kind(field(data, off, 14, 22)) == 0o100000,
        ds % 4 == 0,
        off + 110 + field(data, off, 94, 102) <= ds < off + 110 + field(data, off, 94, 102) + 4,
        ds + field(data, off, 54, 62) <= data.len(),
        cpio_acts(data, off).is_some(),
    ensures
        cpio_acts(data, off).unwrap().len() > 0,
        cpio_acts(data, off).unwrap()[0] == CpioAct::File(
            entry_path(data.subrange(off + 110, off + 110 + field(data, off, 94, 102) - 1)),
            data.subrange(ds, ds + field(data, off, 54, 62))),
{
    let name_end = off + 110 + field(data, off, 94, 102);
    assert(round4(name_end) == ds) by (nonlinear_arith)
        requires ds % 4 == 0, name_end <= ds < name_end + 4;
}

/// After a regular-file entry, the next entry starts at the end of the file data rounded up
/// to a multiple of 4 (`nx`): unpacking from `off` is that entry's file, then unpacking
/// from `nx`.
pub proof fn lemma_cpio_next_entry(data: Seq<u8>, off: int, ds: int, nx: int)
    requires
        0 <= off,
        off + 110 <= data.len(),
        data.subrange(off, off + 6) == "070701".spec_bytes() || data.subrange(off, off + 6) == "070702".spec_bytes(),
        field(data, off, 94, 102) > 1,
        off + 110 + field(data, off, 94, 102) <= data.len(),
        utf8_valid(data.subrange(off + 110, off + 110 + field(data, off, 94, 102) - 1)),
        data.subrange(off + 110, off + 110 + field(data, off, 94, 102) - 1) != "TRAILER!!!".spec_bytes(),
        data.subrange(off + 110, off + 110 + field(data, off, 94, 102) - 1) != seq![46u8],
        mode_kind(field(data, off, 14, 22)) == 0o100000,
        ds % 4 == 0,
        off + 110 + field(data, off, 94, 102) <= ds < off + 110 + field(data, off, 94, 102) + 4,
        ds + field(data, off, 54, 62) <= data.len(),
        nx % 4 == 0,
        ds + field(data, off, 54, 62) <= nx < ds + field(data, off, 54, 62) + 4,
        cpio_acts(data, off).is_some(),
    ensures
        cpio_acts(data, nx).is_some(),
        cpio_acts(data, off).unwrap() == seq![CpioAct::File(
            entry_path(data.subrange(off + 110, off + 110 + field(data, off, 94, 102) - 1)),
            data.subrange(ds, ds + field(data, off, 54, 62)))] + cpio_acts(data, nx).unwrap(),
{
    let name_end = off + 110 + field(data, off, 94, 102);
    let data_end = ds + field(data, off, 54, 62);
    assert(round4(name_end) == ds) by (nonlinear_arith)
        requires ds % 4 == 0, name_end <= ds < name_end + 4;
    assert(round4(data_end) == nx) by (nonlinear_arith)
        requires nx % 4 == 0, data_end <= nx < data_end + 4;
}

/// The nodes after one step, starting from `f` with `ino` the next inode number.
pub open spec fn apply_act(f: spec_fn(Seq<u8>) -> Option<NodeV>, ino: u64, a: CpioAct, now: u64)
    -> (spec_fn(Seq<u8>) -> Option<NodeV>, u64)
{
    match a {
        CpioAct::Dir(p) => {
            let np = normalized(p);
            if f(np).is_some() {
                (f, ino)
            } else {
                (|q: Seq<u8>| if q == np { Some(NodeV::Dir { ino, mode: 0o755 }) } else { f(q) }, next_ino_after(ino))
            }
        },
        CpioAct::File(p, d) => {
            let np = normalized(p);
            (|q: Seq<u8>| if q == np { Some(NodeV::File { ino, mode: 0o644, uid: 0, gid: 0, data: d, mtime: now as i64 }) } else { f(q) },
             next_ino_after(ino))
        },
        CpioAct::Link(p, t) => {
            let np = normalized(p);
            (|q: Seq<u8>| if q == np { Some(NodeV::Symlink(t)) } else { f(q) }, ino)
        },
    }
}

/// The nodes after the steps `acts`, in order.
pub open spec fn apply_acts(f: spec_fn(Seq<u8>) -> Option<NodeV>, ino: u64, acts: Seq<CpioAct>, now: u64)
    -> (spec_fn(Seq<u8>) -> Option<NodeV>, u64)
    decreases acts.len(),
{
    if acts.len() == 0 {
        (f, ino)
    } else {
        let (f1, i1) = apply_acts(f, ino, acts.drop_last(), now);
        apply_act(f1, i1, acts.last(), now)
    }
}

fn slice_of(data: &[u8], a: usize, b: usize) -> (r: Vec<u8>)
    requires a <= b <= data.len(),
    ensures r@ == data@.subrange(a as int, b as int),
{
    super::tmpfile::copy_range(data, a, b - a)
}

/// The absolute path of an entry named `name` (already replaced by `unknown` where it was
/// not valid UTF-8).
pub fn cpio_entry_path(name: &[u8]) -> (r: Vec<u8>)
    ensures r@ == entry_path(name@),
{
    if name.len() >= 2 && name[0] == 46u8 && name[1] == 47u8 {
        let mut r: Vec<u8> = Vec::new();
        r.push(47u8);
        let mut k: usize = 2;
        while k < name.len()
            invariant
                2 <= k <= name.len(),
                r@ == seq![47u8] + name@.subrange(2, k as int),
            decreases name.len() - k,
        {
            r.push(name[k]);
            assert(name@.subrange(2, k + 1) =~= name@.subrange(2, k as int).push(name@[k as int]));
            k = k + 1;
        }
        assert(name@.subrange(2, k as int) =~= name@.skip(2));
        r
    } else if !(name.len() > 0 && name[0] == 47u8) {
        let mut r: Vec<u8> = Vec::new();
        r.push(47u8);
        let mut k: usize = 0;
        while k < name.len()
            invariant
                k <= name.len(),
                r@ == seq![47u8] + name@.take(k as int),
            decreases name.len() - k,
        {
            r.push(name[k]);
            assert(name@.take(k + 1) =~= name@.take(k as int).push(name@[k as int]));
            k = k + 1;
        }
        assert(name@.take(k as int) =~= name@);
        r
    } else {
        copy_bytes(name)
    }
}

/// Applies the step of one entry to `fs`: the entry's name (after the UTF-8 check), its
/// mode field's value, its data, and whether the data is valid UTF-8.
pub fn cpio_apply_entry(fs: &mut TmpFs, name: &[u8], mode: usize, body: &[u8], body_utf8: bool, now_ms: u64)
    requires
        old(fs).wf(),
        body_utf8 == utf8_valid(body@),
    ensures
        final(fs).wf(),
        ({
            let (f, i) = match entry_act(name@, mode as nat, body@) {
                Some(a) => apply_act(|q: Seq<u8>| old(fs).node_at(q), old(fs).next_ino, a, now_ms),
                None => (|q: Seq<u8>| old(fs).node_at(q), old(fs).next_ino),
            };
            &&& final(fs).next_ino == i
            &&& forall|q: Seq<u8>| #[trigger] final(fs).node_at(q) == f(q)
        }),
{
    let is_dot = name.len() == 1 && name[0] == 46u8;
    proof { if is_dot { assert(name@ =~= seq![46u8]); } }
    if name.len() == 0 || is_dot {
        return;
    }
    let kind = mode / 0o10000 % 0o20 * 0o10000;
    let path = cpio_entry_path(name);
    if kind == 0o040000 {
        fs.create_dir(path.as_slice());
    } else if kind == 0o100000 {
        fs.create_file(path.as_slice(), body, now_ms);
    } else if kind == 0o120000 && body_utf8 {
        fs.create_symlink(path.as_slice(), body);
    }
}

/// Whether the four bytes at `off` are the magic number of a `newc` entry.
fn has_magic(data: &[u8], off: usize) -> (r: bool)
    requires off + 6 <= data.len(),
    ensures r == (data@.subrange(off as int, off + 6) == "070701".spec_bytes()
        || data@.subrange(off as int, off + 6) == "070702".spec_bytes()),
{
    let m = slice_of(data, off, off + 6);
    bytes_eq(m.as_slice(), "070701".as_bytes()) || bytes_eq(m.as_slice(), "070702".as_bytes())
}

/// Unpacks the image `data` into `fs`, entry by entry, until the trailer: directories,
/// regular files (stamped `now_ms`) and symbolic links are created at their paths.
pub fn extract_cpio(fs: &mut TmpFs, data: &[u8], now_ms: u64)
    requires
        old(fs).wf(),
        data@.len() + 8 <= usize::MAX,
        cpio_acts(data@, 0).is_some(),
    ensures
        final(fs).wf(),
        ({
            let (f, i) = apply_acts(|q: Seq<u8>| old(fs).node_at(q), old(fs).next_ino, cpio_acts(data@, 0).unwrap(), now_ms);
            &&& final(fs).next_ino == i
            &&& forall|q: Seq<u8>| #[trigger] final(fs).node_at(q) == f(q)
        }),
{
    let mut offset: usize = 0;
    let ghost mut done: Seq<CpioAct> = Seq::empty();
    proof {
        assert(done + cpio_acts(data@, 0).unwrap() =~= cpio_acts(data@, 0).unwrap());
    }
    loop
        invariant
            fs.wf(),
            data@.len() + 8 <= usize::MAX,
            offset <= data@.len() + 3,
            cpio_acts(data@, offset as int).is_some(),
            done + cpio_acts(data@, offset as int).unwrap() == cpio_acts(data@, 0).unwrap(),
            ({
                let (f, i) = apply_acts(|q: Seq<u8>| old(fs).node_at(q), old(fs).next_ino, done, now_ms);
                &&& fs.next_ino == i
                &&& forall|q: Seq<u8>| #[trigger] fs.node_at(q) == f(q)
            }),
        ensures
            fs.wf(),
            ({
                let (f, i) = apply_acts(|q: Seq<u8>| old(fs).node_at(q), old(fs).next_ino, done, now_ms);
                &&& fs.next_ino == i
                &&& forall|q: Seq<u8>| #[trigger] fs.node_at(q) == f(q)
            }),
            done == cpio_acts(data@, 0).unwrap(),
        decreases data@.len() + 3 - offset,
    {
        if offset > data.len() || data.len() - offset < 110 {
            proof { assert(done =~= done + Seq::<CpioAct>::empty()); }
            break;
        }
        if !has_magic(data, offset) {
            proof { assert(done =~= done + Seq::<CpioAct>::empty()); }
            break;
        }
        let namesize = parse_hex(slice_of(data, offset + 94, offset + 102).as_slice());
        let filesize = parse_hex(slice_of(data, offset + 54, offset + 62).as_slice());
        let name_start = offset + 110;
        if namesize > data.len() - name_start {
            proof { assert(done =~= done + Seq::<CpioAct>::empty()); }
            break;
        }
        let name_end = name_start + namesize;
        let raw = slice_of(data, name_start, name_end - 1);
        let valid = is_utf8(raw.as_slice());
        let name = if valid { raw } else { copy_bytes("unknown".as_bytes()) };
        if bytes_eq(name.as_slice(), "TRAILER!!!".as_bytes()) {
            proof { assert(done =~= done + Seq::<CpioAct>::empty()); }
            break;
        }
        let data_start = (name_end + 3) / 4 * 4;
        if data_start > data.len() || filesize > data.len() - data_start {
            proof { assert(done =~= done + Seq::<CpioAct>::empty()); }
            break;
        }
        let data_end = data_start + filesize;
        let mode = parse_hex(slice_of(data, offset + 14, offset + 22).as_slice());
        let body = slice_of(data, data_start, data_end);
        let body_utf8 = is_utf8(body.as_slice());
        let ghost old_fs = *fs;
        cpio_apply_entry(fs, name.as_slice(), mode, body.as_slice(), body_utf8, now_ms);
        let next = (data_end + 3) / 4 * 4;
        proof {
            let act = entry_act(name@, mode as nat, body@);
            let rest = cpio_acts(data@, next as int).unwrap();
            assert(cpio_acts(data@, offset as int).unwrap() == match act { Some(a) => seq![a] + rest, None => rest });
            let (f0, i0) = apply_acts(|q: Seq<u8>| old(fs).node_at(q), old(fs).next_ino, done, now_ms);
            assert((|q: Seq<u8>| old_fs.node_at(q)) =~= f0);
            match act {
                Some(a) => {
                    let nd = done.push(a);
                    assert(nd.drop_last() =~= done);
                    assert(nd + rest =~= done + (seq![a] + rest));
                    done = nd;
                },
                None => {},
            }
        }
        offset = next;
    }
}

/// Whether every entry of the image `data` up to where unpacking stops has a name field
/// that can be taken apart (not empty).
pub fn cpio_ok(data: &[u8]) -> (r: bool)
    requires data@.len() + 8 <= usize::MAX,
    ensures r == cpio_acts(data@, 0).is_some(),
{
    let mut offset: usize = 0;
    loop
        invariant
            data@.len() + 8 <= usize::MAX,
            offset <= data@.len() + 3,
            cpio_acts(data@, 0).is_some() == cpio_acts(data@, offset as int).is_some(),
        decreases data@.len() + 3 - offset,
    {
        if offset > data.len() || data.len() - offset < 110 {
            return true;
        }
        if !has_magic(data, offset) {
            return true;
        }
        let namesize = parse_hex(slice_of(data, offset + 94, offset + 102).as_slice());
        let filesize = parse_hex(slice_of(data, offset + 54, offset + 62).as_slice());
        let name_start = offset + 110;
        if namesize > data.len() - name_start {
            return true;
        }
        if namesize == 0 {
            return false;
        }
        let name_end = name_start + namesize;
        let raw = slice_of(data, name_start, name_end - 1);
        let valid = is_utf8(raw.as_slice());
        let name = if valid { raw } else { copy_bytes("unknown".as_bytes()) };
        if bytes_eq(name.as_slice(), "TRAILER!!!".as_bytes()) {
            return true;
        }
        let data_start = (name_end + 3) / 4 * 4;
        if data_start > data.len() || filesize > data.len() - data_start {
            return true;
        }
        let data_end = data_start + filesize;
        let next = (data_end + 3) / 4 * 4;
        proof {
            lemma_round4(name_end as int);
            lemma_round4(data_end as int);
        }
        offset = next;
    }
}

/// Unpacks the image `data` into `fs` (as `extract_cpio`) when its entries can be read;
/// otherwise leaves `fs` as it is and says so.
pub fn try_extract_cpio(fs: &mut TmpFs, data: &[u8], now_ms: u64) -> (ok: bool)
    requires
        old(fs).wf(),
        data@.len() + 8 <= usize::MAX,
    ensures
        final(fs).wf(),
        ok == cpio_acts(data@, 0).is_some(),
        !ok ==> *final(fs) == *old(fs),
        ok ==> ({
            let (f, i) = apply_acts(|q: Seq<u8>| old(fs).node_at(q), old(fs).next_ino, cpio_acts(data@, 0).unwrap(), now_ms);
            &&& final(fs).next_ino == i
            &&& forall|q: Seq<u8>| #[trigger] final(fs).node_at(q) == f(q)
        }),
{
    if !cpio_ok(data) {
        return false;
    }
    extract_cpio(fs, data, now_ms);
    true
}

} // verus!
