use vstd::prelude::*;

verus! {

/// The overlap matrix as mathematical values: `m[a][b]` says whether bodies
/// `a` and `b` overlap.
pub open spec fn matrix(ov: Seq<Vec<bool>>) -> Seq<Seq<bool>> {
    ov.map_values(|row: Vec<bool>| row@)
}

/// `ov` is an `n` by `n` matrix.
pub open spec fn is_square(ov: Seq<Vec<bool>>, n: nat) -> bool {
    &&& ov.len() == n
    &&& forall|i: int| 0 <= i < n ==> (#[trigger] ov[i])@.len() == n
}

/// Merges chosen so far, in order, and the set of bodies they consumed.
pub struct Pairing {
    pub pairs: Seq<(int, int)>,
    pub used: Set<int>,
}

/// Considers the ordered pair `(a, b)`: it merges when the two are distinct,
/// overlap, and neither was consumed by an earlier merge of this pass.
pub open spec fn pairing_step(st: Pairing, m: Seq<Seq<bool>>, a: int, b: int) -> Pairing {
    if a != b && m[a][b] && !st.used.contains(a) && !st.used.contains(b) {
        Pairing { pairs: st.pairs.push((a, b)), used: st.used.insert(a).insert(b) }
    } else {
        st
    }
}

/// The pass over all ordered pairs `(a, b)`, `a` major, up to but not
/// including `(a, b)`.
pub open spec fn pairing_upto(m: Seq<Seq<bool>>, a: nat, b: nat) -> Pairing
    decreases a, b,
{
    if b == 0 {
        if a == 0 {
            Pairing { pairs: Seq::empty(), used: Set::empty() }
        } else {
            pairing_upto(m, (a - 1) as nat, m.len())
        }
    } else {
        pairing_step(pairing_upto(m, a, (b - 1) as nat), m, a as int, b - 1)
    }
}

/// The merges of one collision pass over the overlap matrix `m`.
pub open spec fn pairing(m: Seq<Seq<bool>>) -> Pairing {
    pairing_upto(m, m.len(), 0)
}

/// The indices below `n` outside `used`, in increasing order: the bodies
/// that survive a pass, in the order they keep.
pub open spec fn kept_indices(used: Set<int>, n: nat) -> Seq<int>
    decreases n,
{
    if n == 0 {
        Seq::empty()
    } else {
        let r = kept_indices(used, (n - 1) as nat);
        if used.contains(n - 1) {
            r
        } else {
            r.push(n - 1)
        }
    }
}

/// Position in `pairs` of the last merge that involves body `f`; -1 when
/// none does.
pub open spec fn pair_of(pairs: Seq<(int, int)>, f: int) -> int
    decreases pairs.len(),
{
    if pairs.len() == 0 {
        -1
    } else if pairs.last().0 == f || pairs.last().1 == f {
        pairs.len() - 1
    } else {
        pair_of(pairs.drop_last(), f)
    }
}

/// Where the focus goes in a collision pass over `n` bodies: a focused body
/// that survives keeps the focus at its new index; one that was consumed
/// hands it to the merge product, which stands after the survivors.  An
/// index out of range is left as it is.
pub open spec fn focus_after_merges(focus: Option<usize>, n: nat, p: Pairing) -> Option<usize> {
    match focus {
        None => None,
        Some(f) => if f >= n {
            Some(f)
        } else if p.used.contains(f as int) {
            Some((kept_indices(p.used, n).len() + pair_of(p.pairs, f as int)) as usize)
        } else {
            Some(kept_indices(p.used, f as nat).len() as usize)
        },
    }
}


/// `m` is a square matrix.
pub open spec fn square(m: Seq<Seq<bool>>) -> bool {
    forall|i: int| 0 <= i < m.len() ==> (#[trigger] m[i]).len() == m.len()
}

/// Body `x` is one of the two bodies of merge `q`.
pub open spec fn in_pair(q: (int, int), x: int) -> bool {
    q.0 == x || q.1 == x
}

/// The merges of `st` are sound for an `n`-body matrix `m`: each joins two
/// distinct overlapping bodies in range, no body takes part in two merges,
/// and the consumed set is exactly the bodies of the merges.
pub open spec fn pairing_sound(m: Seq<Seq<bool>>, n: nat, st: Pairing) -> bool {
    &&& forall|k: int|
        0 <= k < st.pairs.len() ==> {
            let q = #[trigger] st.pairs[k];
            &&& 0 <= q.0 < n
            &&& 0 <= q.1 < n
            &&& q.0 != q.1
            &&& m[q.0][q.1]
        }
    &&& forall|k1: int, k2: int, x: int|
        0 <= k1 < k2 < st.pairs.len() && #[trigger] in_pair(st.pairs[k1], x) ==> !#[trigger] in_pair(
            st.pairs[k2],
            x,
        )
    &&& forall|x: int|
        #[trigger] st.used.contains(x) <==> exists|k: int|
            0 <= k < st.pairs.len() && #[trigger] in_pair(st.pairs[k], x)
}

proof fn lemma_pairing_upto(m: Seq<Seq<bool>>, a: nat, b: nat)
    requires
        square(m),
        a <= m.len(),
        b <= m.len(),
        a < m.len() || b == 0,
    ensures
        pairing_sound(m, m.len(), pairing_upto(m, a, b)),
        forall|x: int, y: int|
            0 <= x < m.len() && 0 <= y < m.len() && x != y && (x < a || (x == a && y < b)) && #[trigger] m[x][y]
                ==> pairing_upto(m, a, b).used.contains(x) || pairing_upto(m, a, b).used.contains(y),
    decreases a, b,
{
    let n = m.len();
    if b == 0 {
        if a == 0 {
        } else {
            lemma_pairing_upto(m, (a - 1) as nat, n);
        }
    } else {
        lemma_pairing_upto(m, a, (b - 1) as nat);
        let prev = pairing_upto(m, a, (b - 1) as nat);
        let st = pairing_upto(m, a, b);
        let x0 = a as int;
        let y0 = b - 1;
        if x0 != y0 && m[x0][y0] && !prev.used.contains(x0) && !prev.used.contains(y0) {
            let len = prev.pairs.len();
            assert(st.pairs == prev.pairs.push((x0, y0)));
            assert forall|k: int| 0 <= k < len implies #[trigger] st.pairs[k] == prev.pairs[k] by {}
            assert forall|k1: int, k2: int, x: int|
                0 <= k1 < k2 < st.pairs.len() && #[trigger] in_pair(st.pairs[k1], x) implies !#[trigger] in_pair(
                st.pairs[k2],
                x,
            ) by {
                if k2 == len {
                    assert(in_pair(prev.pairs[k1], x));
                    assert(prev.used.contains(x));
                }
            }
            assert forall|x: int| #[trigger] st.used.contains(x) <==> exists|k: int|
                0 <= k < st.pairs.len() && #[trigger] in_pair(st.pairs[k], x) by {
                if st.used.contains(x) {
                    if x == x0 || x == y0 {
                        assert(in_pair(st.pairs[len as int], x));
                    } else {
                        assert(prev.used.contains(x));
                        let k = choose|k: int| 0 <= k < prev.pairs.len() && #[trigger] in_pair(prev.pairs[k], x);
                        assert(in_pair(st.pairs[k], x));
                    }
                }
                if exists|k: int| 0 <= k < st.pairs.len() && #[trigger] in_pair(st.pairs[k], x) {
                    let k = choose|k: int| 0 <= k < st.pairs.len() && #[trigger] in_pair(st.pairs[k], x);
                    if k < len {
                        assert(in_pair(prev.pairs[k], x));
                    }
                }
            }
        }
    }
}

/// A collision pass is sound and leaves nothing to merge: every merge joins
/// two distinct overlapping bodies, no body is merged twice, the consumed
/// bodies are exactly those of the merges, and of every overlapping pair of
/// distinct bodies at least one was consumed.
pub proof fn lemma_pairing_sound(m: Seq<Seq<bool>>)
    requires
        square(m),
    ensures
        pairing_sound(m, m.len(), pairing(m)),
        forall|x: int, y: int|
            0 <= x < m.len() && 0 <= y < m.len() && x != y && #[trigger] m[x][y] ==> pairing(m).used.contains(x)
                || pairing(m).used.contains(y),
{
    lemma_pairing_upto(m, m.len(), 0);
}


/// With nothing consumed, every body survives, in its place.
pub proof fn lemma_kept_all(used: Set<int>, n: nat)
    requires
        forall|x: int| 0 <= x < n ==> !used.contains(x),
    ensures
        kept_indices(used, n).len() == n,
        forall|t: int| 0 <= t < n ==> #[trigger] kept_indices(used, n)[t] == t,
    decreases n,
{
    if n > 0 {
        lemma_kept_all(used, (n - 1) as nat);
        let r = kept_indices(used, (n - 1) as nat);
        assert(kept_indices(used, n) == r.push(n - 1));
        assert forall|t: int| 0 <= t < n implies #[trigger] kept_indices(used, n)[t] == t by {
            if t < n - 1 {
                assert(kept_indices(used, n)[t] == r[t]);
            }
        }
    }
}

} // verus!
