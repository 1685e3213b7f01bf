//! Resolution of embed paths. A path that begins with `./` or `../` is
//! taken relative to the directory of the file that names it; any other
//! path is relative to the project root. The joined path is normalized
//! segment by segment.

use vstd::prelude::*;
use vstd::slice::slice_subrange;

use crate::chars::{DOT, SOL};
use crate::scan::{at, find, lemma_at1, lemma_at2, lemma_at3, lemma_find_is, lemma_find_is_none};

verus! {

/// The directory part of a path: everything before its last `/`, or
/// nothing.
pub open spec fn parent_dir(p: Seq<u8>) -> Seq<u8>
    decreases p.len(),
{
    if p.len() == 0 {
        Seq::empty()
    } else if p[p.len() - 1] == SOL {
        p.subrange(0, p.len() - 1)
    } else {
        parent_dir(p.subrange(0, p.len() - 1))
    }
}

/// Whether a path asks to be resolved against the current file's
/// directory.
pub open spec fn is_rel(p: Seq<u8>) -> bool {
    at(p, 0, seq![DOT, SOL]) || at(p, 0, seq![DOT, DOT, SOL])
}

/// The path's segments, split on `/`.
pub open spec fn segs_of(p: Seq<u8>, i: int) -> Seq<Seq<u8>>
    decreases p.len() - i,
    when 0 <= i <= p.len()
    via segs_of_dec
{
    if i >= p.len() {
        Seq::empty()
    } else {
        let e = match find(p, seq![SOL], i) {
            Some(k) => k,
            None => p.len() as int,
        };
        let nxt = if e < p.len() {
            e + 1
        } else {
            p.len() as int
        };
        seq![p.subrange(i, e)] + segs_of(p, nxt)
    }
}

#[via_fn]
proof fn segs_of_dec(p: Seq<u8>, i: int) {
    if 0 <= i < p.len() {
        match find(p, seq![SOL], i) {
            Some(k) => {
                crate::scan::lemma_find_some(p, seq![SOL], i, k);
            },
            None => {},
        }
    }
}

/// Fold the segments: empty and `.` segments vanish, `..` removes the
/// segment before it where one is left, and everything else stays.
pub open spec fn norm_segs(xs: Seq<Seq<u8>>, i: int, acc: Seq<Seq<u8>>) -> Seq<Seq<u8>>
    decreases xs.len() - i,
    when 0 <= i <= xs.len()
{
    if i >= xs.len() {
        acc
    } else {
        let seg = xs[i];
        if seg.len() == 0 || seg == seq![DOT] {
            norm_segs(xs, i + 1, acc)
        } else if seg == seq![DOT, DOT] {
            if acc.len() > 0 && acc[acc.len() - 1] != seq![DOT, DOT] {
                norm_segs(xs, i + 1, acc.subrange(0, acc.len() - 1))
            } else {
                norm_segs(xs, i + 1, acc + seq![seg])
            }
        } else {
            norm_segs(xs, i + 1, acc + seq![seg])
        }
    }
}

/// The segments joined back with `/`.
pub open spec fn join_segs(xs: Seq<Seq<u8>>, i: int) -> Seq<u8>
    decreases xs.len() - i,
    when 0 <= i <= xs.len()
{
    if i >= xs.len() {
        Seq::empty()
    } else if i + 1 == xs.len() {
        xs[i]
    } else {
        xs[i] + seq![SOL] + join_segs(xs, i + 1)
    }
}

/// The normalized form of a path.
pub open spec fn normalized(p: Seq<u8>) -> Seq<u8> {
    join_segs(norm_segs(segs_of(p, 0), 0, Seq::empty()), 0)
}

/// The resolved form of an embed path named inside the file at `cur`.
pub open spec fn resolved(cur: Seq<u8>, p: Seq<u8>) -> Seq<u8> {
    if is_rel(p) {
        normalized(parent_dir(cur) + seq![SOL] + p)
    } else {
        normalized(p)
    }
}

/// Whether two byte strings are equal.
pub fn eq_bytes(a: &[u8], b: &[u8]) -> (r: bool)
    ensures
        r == (a@ == b@),
{
    if a.len() != b.len() {
        assert(a@ != b@) by {
            assert(a@.len() != b@.len());
        }
        return false;
    }
    let n = a.len();
    let mut i: usize = 0;
    while i < n
        invariant
            i <= n,
            n == a@.len() == b@.len(),
            forall|j: int| 0 <= j < i ==> a@[j] == b@[j],
        decreases n - i,
    {
        if a[i] != b[i] {
            return false;
        }
        i = i + 1;
    }
    proof {
        assert(a@ =~= b@);
    }
    true
}

/// First `/` at or after `from`.
fn find_sol(s: &[u8], from: usize) -> (r: Option<usize>)
    requires
        from <= s@.len(),
    ensures
        match r {
            Some(k) => find(s@, seq![SOL], from as int) == Some(k as int) && from <= k < s@.len(),
            None => find(s@, seq![SOL], from as int) is None,
        },
{
    let len = s.len();
    let mut k: usize = from;
    while k < len
        invariant
            from <= k <= len,
            len == s@.len(),
            forall|j: int| from <= j < k ==> !at(s@, j, seq![SOL]),
        decreases len - k,
    {
        proof {
            lemma_at1(s@, k as int, SOL);
        }
        if s[k] == SOL {
            proof {
                lemma_find_is(s@, seq![SOL], from as int, k as int);
            }
            return Some(k);
        }
        k = k + 1;
    }
    proof {
        assert forall|j: int| from <= j implies !at(s@, j, seq![SOL]) by {
            if j < s@.len() {
                lemma_at1(s@, j, SOL);
            }
        }
        lemma_find_is_none(s@, seq![SOL], from as int);
    }
    None
}

/// The views of a segment vector.
pub open spec fn segs_view(xs: Seq<Vec<u8>>) -> Seq<Seq<u8>> {
    xs.map_values(|v: Vec<u8>| v@)
}

/// Split a path on `/`.
fn split_path(p: &[u8]) -> (r: Vec<Vec<u8>>)
    ensures
        segs_view(r@) == segs_of(p@, 0),
{
    let len = p.len();
    let mut out: Vec<Vec<u8>> = Vec::new();
    let mut i: usize = 0;
    while i < len
        invariant
            i <= len,
            len == p@.len(),
            segs_of(p@, 0) == segs_view(out@) + segs_of(p@, i as int),
        decreases len - i,
    {
        let e = match find_sol(p, i) {
            Some(k) => k,
            None => len,
        };
        let nxt = if e < len {
            e + 1
        } else {
            len
        };
        let ghost pre = segs_view(out@);
        let seg = slice_subrange(p, i, e);
        let mut sv: Vec<u8> = Vec::new();
        crate::render::append_bytes(&mut sv, seg);
        out.push(sv);
        proof {
            assert(segs_view(out@) =~= pre + seq![p@.subrange(i as int, e as int)]);
            assert(segs_view(out@) + segs_of(p@, nxt as int) =~= pre + segs_of(p@, i as int));
        }
        i = nxt;
    }
    assert(segs_of(p@, i as int) == Seq::<Seq<u8>>::empty());
    assert(segs_view(out@) + Seq::<Seq<u8>>::empty() =~= segs_view(out@));
    out
}

/// Whether a segment is `.`.
fn is_dot(v: &Vec<u8>) -> (r: bool)
    ensures
        r == (v@ == seq![DOT]),
{
    if v.len() == 1 && v[0] == DOT {
        assert(v@ =~= seq![DOT]);
        true
    } else {
        proof {
            if v@ == seq![DOT] {
                assert(v@.len() == 1 && v@[0] == DOT);
            }
        }
        false
    }
}

/// Whether a segment is `..`.
fn is_dotdot(v: &Vec<u8>) -> (r: bool)
    ensures
        r == (v@ == seq![DOT, DOT]),
{
    if v.len() == 2 && v[0] == DOT && v[1] == DOT {
        assert(v@ =~= seq![DOT, DOT]);
        true
    } else {
        proof {
            if v@ == seq![DOT, DOT] {
                assert(v@.len() == 2 && v@[0] == DOT && v@[1] == DOT);
            }
        }
        false
    }
}

/// Resolve an embed path against the path of the file that names it.
pub fn resolve_path(cur: &[u8], p: &[u8]) -> (r: Vec<u8>)
    ensures
        r@ == resolved(cur@, p@),
{
    let len = p.len();
    let rel = (len >= 2 && p[0] == DOT && p[1] == SOL) || (len >= 3 && p[0] == DOT && p[1] == DOT
        && p[2] == SOL);
    proof {
        lemma_at2(p@, 0, DOT, SOL);
        lemma_at3(p@, 0, DOT, DOT, SOL);
        assert(rel == is_rel(p@));
    }
    let mut joined: Vec<u8> = Vec::new();
    if rel {
        let mut k: usize = cur.len();
        assert(cur@.subrange(0, cur@.len() as int) =~= cur@);
        while k > 0 && cur[k - 1] != SOL
            invariant
                k <= cur@.len(),
                parent_dir(cur@) == parent_dir(cur@.subrange(0, k as int)),
            decreases k,
        {
            proof {
                assert(cur@.subrange(0, k as int)[k - 1] == cur@[k - 1]);
                assert(cur@.subrange(0, k as int).subrange(0, k - 1) =~= cur@.subrange(0, k - 1));
            }
            k = k - 1;
        }
        if k > 0 {
            proof {
                assert(cur@.subrange(0, k as int)[k - 1] == cur@[k - 1]);
                assert(parent_dir(cur@.subrange(0, k as int)) =~= cur@.subrange(0, k - 1));
            }
            crate::render::append_bytes(&mut joined, slice_subrange(cur, 0, k - 1));
        } else {
            proof {
                assert(cur@.subrange(0, 0) =~= Seq::<u8>::empty());
                assert(parent_dir(Seq::<u8>::empty()) == Seq::<u8>::empty());
            }
        }
        joined.push(SOL);
        crate::render::append_bytes(&mut joined, p);
        assert(joined@ =~= parent_dir(cur@) + seq![SOL] + p@);
    } else {
        crate::render::append_bytes(&mut joined, p);
        assert(joined@ =~= p@);
    }

    let parts = split_path(joined.as_slice());
    let ghost xs = segs_view(parts@);
    let mut acc: Vec<Vec<u8>> = Vec::new();
    let n = parts.len();
    let mut i: usize = 0;
    assert(segs_view(acc@) =~= Seq::<Seq<u8>>::empty());
    while i < n
        invariant
            i <= n,
            n == parts@.len(),
            xs == segs_view(parts@),
            norm_segs(xs, 0, Seq::empty()) == norm_segs(xs, i as int, segs_view(acc@)),
        decreases n - i,
    {
        let seg = &parts[i];
        assert(xs[i as int] == seg@);
        if seg.len() == 0 || is_dot(seg) {
        } else if is_dotdot(seg) {
            let alen = acc.len();
            let mut drop_last: bool = false;
            if alen > 0 {
                if !is_dotdot(&acc[alen - 1]) {
                    drop_last = true;
                }
            }
            if drop_last {
                proof {
                    assert(segs_view(acc@)[alen - 1] == acc@[alen - 1]@);
                }
                let ghost pre = segs_view(acc@);
                let _ = acc.pop();
                assert(segs_view(acc@) =~= pre.subrange(0, pre.len() - 1));
            } else {
                let mut sv: Vec<u8> = Vec::new();
                sv.push(DOT);
                sv.push(DOT);
                let ghost pre = segs_view(acc@);
                assert(sv@ =~= seq![DOT, DOT]);
                acc.push(sv);
                assert(segs_view(acc@) =~= pre + seq![xs[i as int]]);
            }
        } else {
            let ghost pre = segs_view(acc@);
            let mut sv: Vec<u8> = Vec::new();
            crate::render::append_bytes(&mut sv, seg.as_slice());
            acc.push(sv);
            assert(segs_view(acc@) =~= pre + seq![xs[i as int]]);
        }
        i = i + 1;
    }
    let ghost done = norm_segs(xs, 0, Seq::empty());
    assert(done == segs_view(acc@));

    let mut out: Vec<u8> = Vec::new();
    let m = acc.len();
    let mut j: usize = 0;
    while j < m
        invariant
            j <= m,
            m == acc@.len(),
            done == segs_view(acc@),
            join_segs(done, 0) == out@ + join_segs(done, j as int),
        decreases m - j,
    {
        assert(done[j as int] == acc@[j as int]@);
        crate::render::append_bytes(&mut out, acc[j].as_slice());
        if j + 1 < m {
            out.push(SOL);
        }
        j = j + 1;
    }
    assert(join_segs(done, m as int) == Seq::<u8>::empty());
    out
}

} // verus!
