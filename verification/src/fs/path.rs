//! Path normalisation: `.` and empty components vanish, `..` drops the component before it.
use vstd::prelude::*;

verus! {

pub open spec fn dot() -> Seq<u8> { seq![46u8] }
pub open spec fn dotdot() -> Seq<u8> { seq![46u8, 46u8] }

/// The effect of one component on the stack of components kept so far.
pub open spec fn apply_comp(st: Seq<Seq<u8>>, c: Seq<u8>) -> Seq<Seq<u8>> {
    if c.len() == 0 || c == dot() {
        st
    } else if c == dotdot() {
        if st.len() > 0 { st.drop_last() } else { st }
    } else {
        st.push(c)
    }
}

/// Reading `p` from the left: the components kept, and the component still being read.
pub open spec fn scan(p: Seq<u8>) -> (Seq<Seq<u8>>, Seq<u8>)
    decreases p.len(),
{
    if p.len() == 0 {
        (Seq::empty(), Seq::empty())
    } else {
        let (st, cur) = scan(p.drop_last());
        if p.last() == 47u8 { (apply_comp(st, cur), Seq::empty()) } else { (st, cur.push(p.last())) }
    }
}

/// The components of `p` after `.`, `..` and empty components are resolved.
pub open spec fn norm_parts(p: Seq<u8>) -> Seq<Seq<u8>> {
    apply_comp(scan(p).0, scan(p).1)
}

/// Components joined by `/`.
pub open spec fn join_parts(ps: Seq<Seq<u8>>) -> Seq<u8>
    decreases ps.len(),
{
    if ps.len() == 0 {
        Seq::empty()
    } else if ps.len() == 1 {
        ps[0]
    } else {
        join_parts(ps.drop_last()) + seq![47u8] + ps.last()
    }
}

/// The normal form of a path: `/` followed by its components joined by `/`.
pub open spec fn normalized(p: Seq<u8>) -> Seq<u8> {
    seq![47u8] + join_parts(norm_parts(p))
}

/// Ending a path with `/` closes the component being read.
proof fn lemma_scan_slash(s: Seq<u8>)
    ensures scan(s.push(47u8)) == (apply_comp(scan(s).0, scan(s).1), Seq::<u8>::empty()),
{
    assert(s.push(47u8).drop_last() =~= s);
}

/// Bytes without `/` extend the component being read.
proof fn lemma_scan_plain(s: Seq<u8>, c: Seq<u8>)
    requires forall|i: int| 0 <= i < c.len() ==> c[i] != 47u8,
    ensures scan(s + c) == (scan(s).0, scan(s).1 + c),
    decreases c.len(),
{
    if c.len() == 0 {
        assert(s + c =~= s);
        assert(scan(s).1 + c =~= scan(s).1);
    } else {
        lemma_scan_plain(s, c.drop_last());
        assert((s + c).drop_last() =~= s + c.drop_last());
        assert((s + c).last() == c.last());
        assert((scan(s).1 + c.drop_last()).push(c.last()) =~= scan(s).1 + c);
    }
}

/// A `..` component cancels the plain component just before it: `p/c/..` names what `p`
/// names, for every path `p` and every component `c` that is not empty, `.` or `..`.
pub proof fn lemma_dotdot_cancels(p: Seq<u8>, c: Seq<u8>)
    requires
        c.len() > 0, c != dot(), c != dotdot(),
        forall|i: int| 0 <= i < c.len() ==> c[i] != 47u8,
    ensures normalized(p + seq![47u8] + c + seq![47u8] + dotdot()) == normalized(p),
{
    let p1 = p.push(47u8);
    let p2 = p1 + c;
    let p3 = p2.push(47u8);
    let p4 = p3 + dotdot();
    assert(p4 =~= p + seq![47u8] + c + seq![47u8] + dotdot());
    lemma_scan_slash(p);
    let a0 = norm_parts(p);
    assert(scan(p1) == (a0, Seq::<u8>::empty()));
    lemma_scan_plain(p1, c);
    assert(Seq::<u8>::empty() + c =~= c);
    assert(scan(p2) == (a0, c));
    lemma_scan_slash(p2);
    assert(scan(p3) == (a0.push(c), Seq::<u8>::empty()));
    lemma_scan_plain(p3, dotdot());
    assert(Seq::<u8>::empty() + dotdot() =~= dotdot());
    assert(scan(p4) == (a0.push(c), dotdot()));
    assert(a0.push(c).drop_last() =~= a0);
    assert(norm_parts(p4) == a0);
}

/// A `.` component names the directory it is in: `p/.` names what `p` names.
pub proof fn lemma_dot_vanishes(p: Seq<u8>)
    ensures normalized(p + seq![47u8] + dot()) == normalized(p),
{
    let p1 = p.push(47u8);
    let p2 = p1 + dot();
    assert(p2 =~= p + seq![47u8] + dot());
    lemma_scan_slash(p);
    lemma_scan_plain(p1, dot());
    assert(Seq::<u8>::empty() + dot() =~= dot());
    assert(scan(p2) == (norm_parts(p), dot()));
}

fn is_dot(c: &Vec<u8>) -> (r: bool)
    ensures r == (c@ == dot()),
{
    if c.len() == 1 && c[0] == 46u8 {
        assert(c@ =~= dot());
        true
    } else {
        false
    }
}

fn is_dotdot(c: &Vec<u8>) -> (r: bool)
    ensures r == (c@ == dotdot()),
{
    if c.len() == 2 && c[0] == 46u8 && c[1] == 46u8 {
        assert(c@ =~= dotdot());
        true
    } else {
        false
    }
}

fn push_comp(parts: &mut Vec<Vec<u8>>, c: Vec<u8>)
    ensures final(parts).deep_view() == apply_comp(old(parts).deep_view(), c@),
{
    if c.len() == 0 || is_dot(&c) {
    } else if is_dotdot(&c) {
        if parts.len() > 0 {
            parts.pop();
            assert(parts.deep_view() =~= old(parts).deep_view().drop_last());
        }
    } else {
        let ghost cv = c@;
        assert(c.deep_view() =~= cv);
        parts.push(c);
        assert(parts.deep_view() =~= old(parts).deep_view().push(cv));
    }
}

/// `/` followed by the components of `path` with `.`, `..` and empty ones resolved.
pub fn normalize_path(path: &[u8]) -> (r: Vec<u8>)
    ensures r@ == normalized(path@),
{
    let mut parts: Vec<Vec<u8>> = Vec::new();
    let mut cur: Vec<u8> = Vec::new();
    let mut i: usize = 0;
    assert(path@.take(0) =~= Seq::<u8>::empty());
    assert(parts@.len() == 0);
    assert(parts.deep_view().len() == 0);
    assert(parts.deep_view() =~= Seq::<Seq<u8>>::empty());
    assert(cur@ =~= Seq::<u8>::empty());
    while i < path.len()
        invariant
            i <= path.len(),
            (parts.deep_view(), cur@) == scan(path@.take(i as int)),
        decreases path.len() - i,
    {
        let c = path[i];
        assert(path@.take(i + 1).drop_last() =~= path@.take(i as int));
        if c == 47u8 {
            let done = cur;
            cur = Vec::new();
            push_comp(&mut parts, done);
            assert(cur@ =~= Seq::<u8>::empty());
        } else {
            cur.push(c);
        }
        i = i + 1;
    }
    assert(path@.take(path.len() as int) =~= path@);
    push_comp(&mut parts, cur);
    let mut result: Vec<u8> = Vec::new();
    result.push(47u8);
    let mut j: usize = 0;
    while j < parts.len()
        invariant
            j <= parts.len(),
            parts.deep_view() == norm_parts(path@),
            result@ == seq![47u8] + join_parts(parts.deep_view().take(j as int)),
        decreases parts.len() - j,
    {
        let ghost before = result@;
        if j > 0 {
            result.push(47u8);
        }
        let part = &parts[j];
        let mut k: usize = 0;
        while k < part.len()
            invariant
                k <= part.len(),
                result@ == before + (if j > 0 { seq![47u8] } else { Seq::empty() }) + part@.take(k as int),
            decreases part.len() - k,
        {
            result.push(part[k]);
            assert(part@.take(k + 1) =~= part@.take(k as int).push(part@[k as int]));
            k = k + 1;
        }
        proof {
            let ps = parts.deep_view();
            assert(ps.take(j + 1).drop_last() =~= ps.take(j as int));
            assert(part@.take(part@.len() as int) =~= part@);
            assert(ps[j as int] == part@);
            if j == 0 {
                assert(ps.take(1) =~= seq![part@]);
                assert(result@ =~= seq![47u8] + join_parts(ps.take(1)));
            } else {
                assert(ps.take(j + 1).last() == part@);
                assert(result@ =~= seq![47u8] + join_parts(ps.take(j + 1)));
            }
        }
        j = j + 1;
    }
    assert(parts.deep_view().take(parts.len() as int) =~= parts.deep_view());
    result
}

/// The index of the last `/` in `p`, if any.
pub open spec fn last_slash(p: Seq<u8>) -> Option<int>
    decreases p.len(),
{
    if p.len() == 0 {
        None
    } else if p.last() == 47u8 {
        Some(p.len() - 1)
    } else {
        last_slash(p.drop_last())
    }
}

/// The directory part of a path: what comes before the last `/`, or `/`.
pub open spec fn spec_parent_dir(p: Seq<u8>) -> Seq<u8> {
    match last_slash(p) {
        Some(pos) => if pos == 0 { seq![47u8] } else { p.take(pos) },
        None => seq![47u8],
    }
}

proof fn lemma_last_slash_bound(p: Seq<u8>)
    ensures last_slash(p) matches Some(i) ==> 0 <= i < p.len() && p[i] == 47u8,
    decreases p.len(),
{
    if p.len() > 0 && p.last() != 47u8 {
        lemma_last_slash_bound(p.drop_last());
    }
}

pub fn parent_dir(path: &[u8]) -> (r: Vec<u8>)
    ensures r@ == spec_parent_dir(path@),
{
    let mut i = path.len();
    assert(path@.take(i as int) =~= path@);
    while i > 0
        invariant
            i <= path.len(),
            last_slash(path@) == last_slash(path@.take(i as int)),
        decreases i,
    {
        assert(path@.take(i as int).drop_last() =~= path@.take(i - 1));
        if path[i - 1] == 47u8 {
            let pos = i - 1;
            if pos == 0 {
                let mut r: Vec<u8> = Vec::new();
                r.push(47u8);
                assert(r@ =~= seq![47u8]);
                return r;
            }
            let mut r: Vec<u8> = Vec::new();
            let mut k: usize = 0;
            while k < pos
                invariant
                    k <= pos,
                    pos < path.len(),
                    r@ == path@.take(k as int),
                decreases pos - k,
            {
                r.push(path[k]);
                assert(path@.take(k + 1) =~= path@.take(k as int).push(path@[k as int]));
                k = k + 1;
            }
            return r;
        }
        i = i - 1;
    }
    let mut r: Vec<u8> = Vec::new();
    r.push(47u8);
    assert(r@ =~= seq![47u8]);
    assert(path@.take(0) =~= Seq::<u8>::empty());
    r
}

} // verus!
