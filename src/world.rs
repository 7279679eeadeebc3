use vstd::prelude::*;
use crate::body::{SpaceBody, TRAIL_INTERVAL, dense, reindex_all};
use crate::collision::{
    matrix, is_square, pairing, pairing_step, pairing_upto, kept_indices, pair_of,
    focus_after_merges, lemma_pairing_sound, lemma_kept_all, square,
};
use crate::trail::{TrailBuffer, aged_survivors};
use crate::focus::{nearest_index, next_focus, prev_focus, focus_after_removal};

verus! {

/// The simulated world: an ordered collection of bodies (the order is the
/// index), the pause flag and the optionally focused body.
pub struct WorldSpace<B> {
    bodies: Vec<SpaceBody<B>>,
    stopped: bool,
    focused_idx: Option<usize>,
}

/// What a `WorldSpace` holds, as mathematical values.
pub struct WorldView<B> {
    pub bodies: Seq<SpaceBody<B>>,
    pub stopped: bool,
    pub focused_idx: Option<usize>,
}

impl<B> View for WorldSpace<B> {
    type V = WorldView<B>;

    closed spec fn view(&self) -> WorldView<B> {
        WorldView { bodies: self.bodies@, stopped: self.stopped, focused_idx: self.focused_idx }
    }
}

/// Indices below `n` of the bodies of `s` whose trail countdown runs out on
/// the next tick, in increasing order.
pub open spec fn trail_sources<B>(s: Seq<SpaceBody<B>>, n: nat) -> Seq<int>
    decreases n,
{
    if n == 0 {
        Seq::empty()
    } else {
        let r = trail_sources(s, (n - 1) as nat);
        if s[n - 1].tick_spec().1 {
            r.push(n - 1)
        } else {
            r
        }
    }
}

/// Body `b` is body `i` of `w` after the rest of one step: its
/// acceleration was computed from `w`, its position was stepped only if it
/// is movable, then its velocity was stepped; it keeps its index and
/// immovability, and its trail countdown ticked.
pub open spec fn stepped_body<B, FA, FP, FV>(
    w: WorldSpace<B>,
    i: int,
    b: SpaceBody<B>,
    accel: FA,
    move_step: FP,
    vel_step: FV,
) -> bool where FA: Fn(&WorldSpace<B>, usize) -> B, FP: Fn(&B) -> B, FV: Fn(&B) -> B {
    &&& b.index == i
    &&& b.immovable == w@.bodies[i].immovable
    &&& b.next_trail == w@.bodies[i].tick_spec().0.next_trail
    &&& exists|a: B|
        #[trigger] accel.ensures((&w, i as usize), a) && if w@.bodies[i].immovable {
            vel_step.ensures((&a,), b.data)
        } else {
            exists|p: B| #[trigger] move_step.ensures((&a,), p) && vel_step.ensures((&p,), b.data)
        }
}

/// `new` is `old` after one collision pass over the overlap matrix `m`,
/// with `merge` building the merge products (see `check_for_collisions`).
pub open spec fn collision_pass<B, F>(
    old: WorldView<B>,
    m: Seq<Seq<bool>>,
    merge: F,
    new: WorldView<B>,
) -> bool where F: Fn(&B, &B) -> B {
    let o = old.bodies;
    let p = pairing(m);
    let k = kept_indices(p.used, o.len());
    &&& dense(new.bodies)
    &&& new.stopped == old.stopped
    &&& new.bodies.len() == k.len() + p.pairs.len()
    &&& forall|t: int| 0 <= t < k.len() ==> #[trigger] new.bodies[t] == o[k[t]].reindexed(t)
    &&& forall|t: int|
        0 <= t < p.pairs.len() ==> {
            let b = #[trigger] new.bodies[k.len() + t];
            &&& merge.ensures((&o[p.pairs[t].0].data, &o[p.pairs[t].1].data), b.data)
            &&& !b.immovable
            &&& b.next_trail == TRAIL_INTERVAL
        }
    &&& new.focused_idx == focus_after_merges(old.focused_idx, o.len(), p)
}

/// The trail sources below `n` are indices below `n`.
proof fn lemma_trail_sources_range<B>(s: Seq<SpaceBody<B>>, n: nat)
    ensures
        forall|j: int|
            0 <= j < trail_sources(s, n).len() ==> 0 <= #[trigger] trail_sources(s, n)[j] < n,
    decreases n,
{
    if n > 0 {
        lemma_trail_sources_range(s, (n - 1) as nat);
        let r = trail_sources(s, (n - 1) as nat);
        assert forall|j: int| 0 <= j < trail_sources(s, n).len() implies 0 <= #[trigger] trail_sources(
            s,
            n,
        )[j] < n by {
            if j < r.len() {
                assert(trail_sources(s, n)[j] == r[j]);
            }
        }
    }
}

/// Which bodies leave a trail point depends on their countdowns alone.
proof fn lemma_trail_sources_countdowns<B>(s1: Seq<SpaceBody<B>>, s2: Seq<SpaceBody<B>>, n: nat)
    requires
        n <= s1.len(),
        n <= s2.len(),
        forall|i: int| 0 <= i < n ==> #[trigger] s1[i].next_trail == s2[i].next_trail,
    ensures
        trail_sources(s1, n) == trail_sources(s2, n),
    decreases n,
{
    if n > 0 {
        lemma_trail_sources_countdowns(s1, s2, (n - 1) as nat);
        assert(s1[n - 1].next_trail == s2[n - 1].next_trail);
    }
}

impl<B> WorldSpace<B> {
    /// Well-formed: each body's index is its position in the collection.
    pub open spec fn wf(&self) -> bool {
        dense(self@.bodies)
    }

    /// Gives every body from `start` on its position as its index.
    fn reindex_from(&mut self, start: usize)
        requires
            start <= old(self)@.bodies.len(),
            forall|i: int| 0 <= i < start ==> #[trigger] old(self)@.bodies[i].index == i,
        ensures
            final(self)@.bodies == reindex_all(old(self)@.bodies),
            final(self)@.stopped == old(self)@.stopped,
            final(self)@.focused_idx == old(self)@.focused_idx,
            final(self).wf(),
    {
        let n = self.bodies.len();
        assert forall|j: int| 0 <= j < start implies #[trigger] self.bodies@[j] == old(
            self,
        ).bodies@[j].reindexed(j) by {
            assert(old(self).bodies@[j].index == j);
        }
        let mut i: usize = start;
        while i < n
            invariant
                start <= i <= n,
                n == old(self).bodies@.len(),
                self.bodies@.len() == n,
                self.stopped == old(self).stopped,
                self.focused_idx == old(self).focused_idx,
                forall|j: int| 0 <= j < i ==> #[trigger] self.bodies@[j] == old(self).bodies@[j].reindexed(j),
                forall|j: int| i <= j < n ==> #[trigger] self.bodies@[j] == old(self).bodies@[j],
                forall|j: int| 0 <= j < start ==> #[trigger] old(self).bodies@[j].index == j,
            decreases n - i,
        {
            self.bodies[i].index = i;
            i = i + 1;
        }
        assert(self.bodies@ =~= reindex_all(old(self).bodies@));
        assert forall|j: int| 0 <= j < n implies #[trigger] self.bodies@[j].index == j by {
            assert(self.bodies@[j] == old(self).bodies@[j].reindexed(j));
        }
    }

    /// Reassigns the indices densely from 0, in collection order.
    pub fn validate(&mut self)
        ensures
            final(self)@.bodies == reindex_all(old(self)@.bodies),
            final(self)@.stopped == old(self)@.stopped,
            final(self)@.focused_idx == old(self)@.focused_idx,
            final(self).wf(),
    {
        self.reindex_from(0);
    }

    /// A running world of the given bodies, indexed by their order, with no
    /// focus.
    pub fn with_bodies(bodies: Vec<SpaceBody<B>>) -> (r: WorldSpace<B>)
        ensures
            r@.bodies == reindex_all(bodies@),
            !r@.stopped,
            r@.focused_idx.is_none(),
            r.wf(),
    {
        let mut r = WorldSpace { bodies, stopped: false, focused_idx: None };
        r.validate();
        r
    }

    /// The bodies, in index order.
    pub fn bodies(&self) -> (r: &Vec<SpaceBody<B>>)
        ensures
            r@ == self@.bodies,
    {
        &self.bodies
    }

    /// Number of bodies.
    pub fn len(&self) -> (r: usize)
        ensures
            r == self@.bodies.len(),
    {
        self.bodies.len()
    }

    /// Whether the physics is paused.
    pub fn is_stopped(&self) -> (r: bool)
        ensures
            r == self@.stopped,
    {
        self.stopped
    }

    /// The focused index, as stored; it may lie past the end of the
    /// collection (see `get_nearest_index`).
    pub fn focused_idx(&self) -> (r: Option<usize>)
        ensures
            r == self@.focused_idx,
    {
        self.focused_idx
    }

    /// Sets the focused index.
    pub fn set_focused_idx(&mut self, focus: Option<usize>)
        ensures
            final(self)@.bodies == old(self)@.bodies,
            final(self)@.stopped == old(self)@.stopped,
            final(self)@.focused_idx == focus,
    {
        self.focused_idx = focus;
    }

    /// Pauses a running world, resumes a paused one.
    pub fn switch_stopped(&mut self)
        ensures
            final(self)@.bodies == old(self)@.bodies,
            final(self)@.stopped == !old(self)@.stopped,
            final(self)@.focused_idx == old(self)@.focused_idx,
    {
        self.stopped = !self.stopped;
    }

    /// Appends a body; it gets the next free index.
    pub fn push_body(&mut self, body: SpaceBody<B>)
        requires
            old(self).wf(),
        ensures
            final(self)@.bodies == old(self)@.bodies.push(body.reindexed(old(self)@.bodies.len() as int)),
            final(self)@.stopped == old(self)@.stopped,
            final(self)@.focused_idx == old(self)@.focused_idx,
            final(self).wf(),
    {
        let mut body = body;
        body.index = self.bodies.len();
        self.bodies.push(body);
    }

    /// Removes every body and the focus.
    pub fn clear_bodies(&mut self)
        ensures
            final(self)@.bodies.len() == 0,
            final(self)@.stopped == old(self)@.stopped,
            final(self)@.focused_idx.is_none(),
            final(self).wf(),
    {
        self.bodies = Vec::new();
        self.focused_idx = None;
    }

    /// Removes the body at `idx`; the bodies after it move down by one.  The
    /// focus follows its body: it is cleared when the removed body was
    /// focused, and moves down by one when the focused body stood after it.
    pub fn remove_body(&mut self, idx: usize)
        requires
            old(self).wf(),
            idx < old(self)@.bodies.len(),
        ensures
            final(self)@.bodies == reindex_all(old(self)@.bodies.remove(idx as int)),
            final(self)@.stopped == old(self)@.stopped,
            final(self)@.focused_idx == focus_after_removal(old(self)@.focused_idx, idx as nat),
            final(self).wf(),
    {
        self.bodies.remove(idx);
        self.reindex_from(idx);
        self.focused_idx = match self.focused_idx {
            None => None,
            Some(f) => if f == idx {
                None
            } else if f > idx {
                Some(f - 1)
            } else {
                Some(f)
            },
        };
    }

    /// The valid index nearest to `index` from below (see `nearest_index`).
    pub fn get_nearest_index(&self, index: usize) -> (r: Option<usize>)
        ensures
            r == nearest_index(self@.bodies.len(), index as nat),
    {
        let n = self.bodies.len();
        if n == 0 {
            None
        } else if index < n {
            Some(index)
        } else {
            Some(n - 1)
        }
    }

    /// Resolves the focus to a valid index, stores it and returns it; the
    /// focus is cleared when no body is left.
    pub fn prepare_for_gui(&mut self) -> (r: Option<usize>)
        ensures
            final(self)@.bodies == old(self)@.bodies,
            final(self)@.stopped == old(self)@.stopped,
            r == match old(self)@.focused_idx {
                None => None,
                Some(i) => nearest_index(old(self)@.bodies.len(), i as nat),
            },
            final(self)@.focused_idx == r,
    {
        match self.focused_idx {
            None => None,
            Some(i) => {
                let r = self.get_nearest_index(i);
                self.focused_idx = r;
                r
            },
        }
    }

    /// Removes the focused body (resolved as `prepare_for_gui` does) and
    /// clears the focus; with no focus, or no body, nothing changes.
    pub fn remove_selected(&mut self)
        requires
            old(self).wf(),
        ensures
            final(self)@.stopped == old(self)@.stopped,
            final(self).wf(),
            match old(self)@.focused_idx {
                None => final(self)@ == old(self)@,
                Some(i) => match nearest_index(old(self)@.bodies.len(), i as nat) {
                    None => final(self)@ == old(self)@,
                    Some(k) => {
                        &&& final(self)@.focused_idx.is_none()
                        &&& final(self)@.bodies == reindex_all(old(self)@.bodies.remove(k as int))
                    },
                },
            },
    {
        if let Some(i) = self.focused_idx {
            if let Some(k) = self.get_nearest_index(i) {
                self.remove_body(k);
                self.focused_idx = None;
            }
        }
    }

    /// Moves the focus one body forward (see `next_focus`); a no-op on an
    /// empty world.
    pub fn advance_focused_idx(&mut self)
        ensures
            final(self)@.bodies == old(self)@.bodies,
            final(self)@.stopped == old(self)@.stopped,
            final(self)@.focused_idx == next_focus(old(self)@.bodies.len(), old(self)@.focused_idx),
            old(self)@.bodies.len() == 0 ==> final(self)@ == old(self)@,
    {
        let n = self.bodies.len();
        if n == 0 {
            return;
        }
        self.focused_idx = match self.focused_idx {
            None => Some(0),
            Some(i) => if i < n - 1 {
                Some(i + 1)
            } else {
                None
            },
        };
    }

    /// Moves the focus one body backward (see `prev_focus`); a no-op on an
    /// empty world.
    pub fn reduce_focused_index(&mut self)
        ensures
            final(self)@.bodies == old(self)@.bodies,
            final(self)@.stopped == old(self)@.stopped,
            final(self)@.focused_idx == prev_focus(old(self)@.bodies.len(), old(self)@.focused_idx),
            old(self)@.bodies.len() == 0 ==> final(self)@ == old(self)@,
    {
        let n = self.bodies.len();
        if n == 0 {
            return;
        }
        self.focused_idx = match self.focused_idx {
            None => Some(n - 1),
            Some(i) => if i >= n {
                Some(n - 1)
            } else if i > 0 {
                Some(i - 1)
            } else {
                None
            },
        };
    }

    /// One collision pass.  The ordered pairs `(a, b)` are visited with `a`
    /// major; a pair merges when `a != b`, `overlap[a][b]` holds and neither
    /// body was consumed by an earlier merge of this pass (see `pairing`).
    /// `merge` builds the merged body's data from the two consumed ones.  The
    /// survivors keep their order and come first; the merge products follow
    /// in the order they were made, always movable, and every index is
    /// reassigned densely.  The focus follows its body (see
    /// `focus_after_merges`).
    pub fn check_for_collisions<F: Fn(&B, &B) -> B>(&mut self, overlap: &Vec<Vec<bool>>, merge: F)
        requires
            old(self).wf(),
            is_square(overlap@, old(self)@.bodies.len()),
            forall|x: &B, y: &B| merge.requires((x, y)),
        ensures
            final(self).wf(),
            collision_pass(old(self)@, matrix(overlap@), merge, final(self)@),
    {
        let n = self.bodies.len();
        let ghost o = self.bodies@;
        let ghost m = matrix(overlap@);
        let focus = self.focused_idx;
        let mut consumed: Vec<bool> = Vec::new();
        let mut c: usize = 0;
        while c < n
            invariant
                c <= n,
                consumed@.len() == c,
                forall|x: int| 0 <= x < c ==> !(#[trigger] consumed@[x]),
            decreases n - c,
        {
            consumed.push(false);
            c = c + 1;
        }
        let mut to_push: Vec<SpaceBody<B>> = Vec::new();
        let mut pushed_focus: Option<usize> = None;
        let ghost mut st = pairing_upto(m, 0, 0);
        let mut a: usize = 0;
        while a < n
            invariant
                a <= n,
                n == o.len(),
                self.bodies@ == o,
                self.stopped == old(self).stopped,
                self.focused_idx == focus,
                focus == old(self).focused_idx,
                m == matrix(overlap@),
                is_square(overlap@, n as nat),
                forall|x: &B, y: &B| merge.requires((x, y)),
                st == pairing_upto(m, a as nat, 0),
                consumed@.len() == n,
                forall|x: int| 0 <= x < n ==> #[trigger] consumed@[x] == st.used.contains(x),
                to_push@.len() == st.pairs.len(),
                forall|t: int|
                    0 <= t < st.pairs.len() ==> {
                        let q = #[trigger] st.pairs[t];
                        &&& 0 <= q.0 < n
                        &&& 0 <= q.1 < n
                        &&& merge.ensures((&o[q.0].data, &o[q.1].data), to_push@[t].data)
                        &&& !to_push@[t].immovable
                        &&& to_push@[t].next_trail == TRAIL_INTERVAL
                    },
                pushed_focus == match focus {
                    Some(f) => if f < n && st.used.contains(f as int) {
                        Some(pair_of(st.pairs, f as int) as usize)
                    } else {
                        None
                    },
                    None => None,
                },
                forall|f: int| 0 <= f < n && st.used.contains(f) ==> 0 <= #[trigger] pair_of(st.pairs, f) < st.pairs.len(),
            decreases n - a,
        {
            let mut b: usize = 0;
            while b < n
                invariant
                    a < n,
                    b <= n,
                    n == o.len(),
                    self.bodies@ == o,
                    self.stopped == old(self).stopped,
                    self.focused_idx == focus,
                    focus == old(self).focused_idx,
                    m == matrix(overlap@),
                    is_square(overlap@, n as nat),
                    forall|x: &B, y: &B| merge.requires((x, y)),
                    st == pairing_upto(m, a as nat, b as nat),
                    consumed@.len() == n,
                    forall|x: int| 0 <= x < n ==> #[trigger] consumed@[x] == st.used.contains(x),
                    to_push@.len() == st.pairs.len(),
                    forall|t: int|
                        0 <= t < st.pairs.len() ==> {
                            let q = #[trigger] st.pairs[t];
                            &&& 0 <= q.0 < n
                            &&& 0 <= q.1 < n
                            &&& merge.ensures((&o[q.0].data, &o[q.1].data), to_push@[t].data)
                            &&& !to_push@[t].immovable
                            &&& to_push@[t].next_trail == TRAIL_INTERVAL
                        },
                    pushed_focus == match focus {
                        Some(f) => if f < n && st.used.contains(f as int) {
                            Some(pair_of(st.pairs, f as int) as usize)
                        } else {
                            None
                        },
                        None => None,
                    },
                    forall|f: int| 0 <= f < n && st.used.contains(f) ==> 0 <= #[trigger] pair_of(st.pairs, f) < st.pairs.len(),
                decreases n - b,
            {
                let ghost prev = st;
                proof {
                    st = pairing_step(st, m, a as int, b as int);
                }
                assert(m[a as int] == overlap@[a as int]@);
                if a != b && overlap[a][b] && !consumed[a] && !consumed[b] {
                    consumed[a] = true;
                    consumed[b] = true;
                    let data = merge(&self.bodies[a].data, &self.bodies[b].data);
                    let involved = match focus {
                        Some(f) => f == a || f == b,
                        None => false,
                    };
                    if involved {
                        pushed_focus = Some(to_push.len());
                    }
                    to_push.push(SpaceBody::new(data, false, 0));
                    proof {
                        assert(st.pairs.drop_last() =~= prev.pairs);
                        assert forall|f: int| f != a && f != b implies pair_of(st.pairs, f) == pair_of(prev.pairs, f) by {}
                        assert forall|x: int| 0 <= x < n implies #[trigger] consumed@[x] == st.used.contains(x) by {}
                        assert forall|f: int| 0 <= f < n && st.used.contains(f) implies 0 <= #[trigger] pair_of(st.pairs, f) < st.pairs.len() by {
                            if f != a && f != b {
                                assert(prev.used.contains(f));
                            }
                        }
                        assert forall|t: int| 0 <= t < st.pairs.len() implies {
                            let q = #[trigger] st.pairs[t];
                            &&& 0 <= q.0 < n
                            &&& 0 <= q.1 < n
                            &&& merge.ensures((&o[q.0].data, &o[q.1].data), to_push@[t].data)
                            &&& !to_push@[t].immovable
                            &&& to_push@[t].next_trail == TRAIL_INTERVAL
                        } by {
                            if t < prev.pairs.len() {
                                assert(st.pairs[t] == prev.pairs[t]);
                            }
                        }
                    }
                }
                b = b + 1;
            }
            proof {
                assert(pairing_upto(m, (a + 1) as nat, 0) == pairing_upto(m, a as nat, m.len()));
            }
            a = a + 1;
        }
        let ghost p = st;
        assert(p == pairing(m));
        // Take the consumed bodies out; the survivors keep their order.
        let mut kept_focus: Option<usize> = None;
        let mut i: usize = 0;
        let mut j: usize = 0;
        while i < n
            invariant
                i <= n,
                n == o.len(),
                self.stopped == old(self).stopped,
                focus == old(self).focused_idx,
                consumed@.len() == n,
                forall|x: int| 0 <= x < n ==> #[trigger] consumed@[x] == p.used.contains(x),
                j == kept_indices(p.used, i as nat).len(),
                j <= i,
                self.bodies@.len() == j + (n - i),
                forall|t: int| 0 <= t < j ==> #[trigger] self.bodies@[t] == o[kept_indices(p.used, i as nat)[t]],
                forall|t: int| i <= t < n ==> #[trigger] o[t] == self.bodies@[j + t - i],
                kept_focus == match focus {
                    Some(f) => if f < i && !p.used.contains(f as int) {
                        Some(kept_indices(p.used, f as nat).len() as usize)
                    } else {
                        None
                    },
                    None => None,
                },
            decreases n - i,
        {
            let ghost prev = self.bodies@;
            let ghost ki = kept_indices(p.used, i as nat);
            if consumed[i] {
                self.bodies.remove(j);
                assert forall|t: int| i + 1 <= t < n implies #[trigger] o[t] == self.bodies@[j + t - (i + 1)] by {
                    assert(o[t] == prev[j + t - i]);
                }
            } else {
                let here = match focus {
                    Some(f) => f == i,
                    None => false,
                };
                if here {
                    kept_focus = Some(j);
                }
                proof {
                    let ki1 = kept_indices(p.used, (i + 1) as nat);
                    assert(ki1 == ki.push(i as int));
                    assert(o[i as int] == self.bodies@[j as int]);
                    assert forall|t: int| 0 <= t < j + 1 implies #[trigger] self.bodies@[t] == o[ki1[t]] by {
                        if t < j {
                            assert(ki1[t] == ki[t]);
                        }
                    }
                }
                j = j + 1;
            }
            i = i + 1;
        }
        let ghost k = kept_indices(p.used, n as nat);
        let ghost survivors = self.bodies@;
        let ghost pushed = to_push@;
        self.bodies.append(&mut to_push);
        let total = self.bodies.len();
        self.reindex_from(0);
        self.focused_idx = match focus {
            None => None,
            Some(f) => if f >= n {
                Some(f)
            } else if consumed[f] {
                match pushed_focus {
                    Some(q) => {
                        assert(j + q < total);
                        Some(j + q)
                    },
                    None => None,
                }
            } else {
                kept_focus
            },
        };
        proof {
            assert(survivors.len() == k.len());
            assert forall|t: int| 0 <= t < k.len() implies #[trigger] self.bodies@[t] == o[k[t]].reindexed(t) by {
                assert(self.bodies@[t] == (survivors + pushed)[t].reindexed(t));
            }
            assert forall|t: int| 0 <= t < p.pairs.len() implies {
                let b = #[trigger] self.bodies@[k.len() + t];
                &&& merge.ensures((&o[p.pairs[t].0].data, &o[p.pairs[t].1].data), b.data)
                &&& !b.immovable
                &&& b.next_trail == TRAIL_INTERVAL
            } by {
                assert(self.bodies@[k.len() + t] == (survivors + pushed)[k.len() + t].reindexed(k.len() + t));
                assert((survivors + pushed)[k.len() + t] == pushed[t]);
                let q = p.pairs[t];
                assert(merge.ensures((&o[q.0].data, &o[q.1].data), pushed[t].data));
            }
        }
    }

    /// Replaces the data of the body at `i`; nothing else changes.
    fn set_data(&mut self, i: usize, data: B)
        requires
            i < old(self)@.bodies.len(),
        ensures
            final(self)@.bodies == old(self)@.bodies.update(
                i as int,
                SpaceBody { data, ..old(self)@.bodies[i as int] },
            ),
            final(self)@.stopped == old(self)@.stopped,
            final(self)@.focused_idx == old(self)@.focused_idx,
    {
        self.bodies[i].data = data;
    }

    /// Force accumulation.  `accel(world, i)` gives body `i`'s data with its
    /// new acceleration; every call reads the world as it was before the
    /// pass, and the results are committed only once all are computed.
    pub fn update_acceleration<F: Fn(&WorldSpace<B>, usize) -> B>(&mut self, accel: F)
        requires
            forall|w: &WorldSpace<B>, i: usize| accel.requires((w, i)),
        ensures
            final(self)@.bodies.len() == old(self)@.bodies.len(),
            forall|i: int|
                0 <= i < old(self)@.bodies.len() ==> {
                    let b = #[trigger] final(self)@.bodies[i];
                    &&& accel.ensures((old(self), i as usize), b.data)
                    &&& b == SpaceBody { data: b.data, ..old(self)@.bodies[i] }
                },
            final(self)@.stopped == old(self)@.stopped,
            final(self)@.focused_idx == old(self)@.focused_idx,
            old(self).wf() ==> final(self).wf(),
    {
        let n = self.bodies.len();
        let mut fresh: Vec<B> = Vec::new();
        let mut i: usize = 0;
        while i < n
            invariant
                i <= n,
                n == self.bodies@.len(),
                *self == *old(self),
                forall|w: &WorldSpace<B>, i: usize| accel.requires((w, i)),
                fresh@.len() == i,
                forall|t: int| 0 <= t < i ==> accel.ensures((old(self), t as usize), #[trigger] fresh@[t]),
            decreases n - i,
        {
            let d = accel(&*self, i);
            fresh.push(d);
            i = i + 1;
        }
        while i > 0
            invariant
                i <= n,
                n == old(self)@.bodies.len(),
                self@.bodies.len() == n,
                self.stopped == old(self).stopped,
                self.focused_idx == old(self).focused_idx,
                fresh@.len() == i,
                forall|t: int| 0 <= t < i ==> accel.ensures((old(self), t as usize), #[trigger] fresh@[t]),
                forall|t: int| 0 <= t < i ==> #[trigger] self@.bodies[t] == old(self)@.bodies[t],
                forall|t: int|
                    i <= t < n ==> {
                        let b = #[trigger] self@.bodies[t];
                        &&& accel.ensures((old(self), t as usize), b.data)
                        &&& b == SpaceBody { data: b.data, ..old(self)@.bodies[t] }
                    },
            decreases i,
        {
            i = i - 1;
            let d = fresh.pop().unwrap();
            self.set_data(i, d);
        }
        proof {
            if old(self).wf() {
                assert forall|t: int| 0 <= t < n implies #[trigger] self@.bodies[t].index == t by {
                    assert(self@.bodies[t].index == old(self)@.bodies[t].index);
                }
            }
        }
    }

    /// Velocity update: `step` gives a body's data after one step of its
    /// velocity, and is applied to every body, immovable ones included.
    pub fn update_time<F: Fn(&B) -> B>(&mut self, step: F)
        requires
            forall|d: &B| step.requires((d,)),
        ensures
            final(self)@.bodies.len() == old(self)@.bodies.len(),
            forall|i: int|
                0 <= i < old(self)@.bodies.len() ==> {
                    let b = #[trigger] final(self)@.bodies[i];
                    &&& step.ensures((&old(self)@.bodies[i].data,), b.data)
                    &&& b == SpaceBody { data: b.data, ..old(self)@.bodies[i] }
                },
            final(self)@.stopped == old(self)@.stopped,
            final(self)@.focused_idx == old(self)@.focused_idx,
            old(self).wf() ==> final(self).wf(),
    {
        let n = self.bodies.len();
        let mut i: usize = 0;
        while i < n
            invariant
                i <= n,
                n == old(self)@.bodies.len(),
                self@.bodies.len() == n,
                self.stopped == old(self).stopped,
                self.focused_idx == old(self).focused_idx,
                forall|d: &B| step.requires((d,)),
                forall|t: int| i <= t < n ==> #[trigger] self@.bodies[t] == old(self)@.bodies[t],
                forall|t: int|
                    0 <= t < i ==> {
                        let b = #[trigger] self@.bodies[t];
                        &&& step.ensures((&old(self)@.bodies[t].data,), b.data)
                        &&& b == SpaceBody { data: b.data, ..old(self)@.bodies[t] }
                    },
            decreases n - i,
        {
            let d = step(&self.bodies[i].data);
            self.set_data(i, d);
            i = i + 1;
        }
        proof {
            if old(self).wf() {
                assert forall|t: int| 0 <= t < n implies #[trigger] self@.bodies[t].index == t by {
                    assert(self@.bodies[t].index == old(self)@.bodies[t].index);
                }
            }
        }
    }

    /// Position update: `step` gives a body's data after one step of its
    /// position, and is applied to the movable bodies only; an immovable
    /// body's data is left exactly as it was.
    pub fn update_positions<F: Fn(&B) -> B>(&mut self, step: F)
        requires
            forall|d: &B| step.requires((d,)),
        ensures
            final(self)@.bodies.len() == old(self)@.bodies.len(),
            forall|i: int|
                0 <= i < old(self)@.bodies.len() ==> {
                    let b = #[trigger] final(self)@.bodies[i];
                    let o = old(self)@.bodies[i];
                    &&& o.immovable ==> b == o
                    &&& !o.immovable ==> step.ensures((&o.data,), b.data)
                    &&& b == SpaceBody { data: b.data, ..o }
                },
            final(self)@.stopped == old(self)@.stopped,
            final(self)@.focused_idx == old(self)@.focused_idx,
            old(self).wf() ==> final(self).wf(),
    {
        let n = self.bodies.len();
        let mut i: usize = 0;
        while i < n
            invariant
                i <= n,
                n == old(self)@.bodies.len(),
                self@.bodies.len() == n,
                self.stopped == old(self).stopped,
                self.focused_idx == old(self).focused_idx,
                forall|d: &B| step.requires((d,)),
                forall|t: int| i <= t < n ==> #[trigger] self@.bodies[t] == old(self)@.bodies[t],
                forall|t: int|
                    0 <= t < i ==> {
                        let b = #[trigger] self@.bodies[t];
                        let o = old(self)@.bodies[t];
                        &&& o.immovable ==> b == o
                        &&& !o.immovable ==> step.ensures((&o.data,), b.data)
                        &&& b == SpaceBody { data: b.data, ..o }
                    },
            decreases n - i,
        {
            if !self.bodies[i].immovable {
                let d = step(&self.bodies[i].data);
                self.set_data(i, d);
            }
            i = i + 1;
        }
        proof {
            if old(self).wf() {
                assert forall|t: int| 0 <= t < n implies #[trigger] self@.bodies[t].index == t by {
                    assert(self@.bodies[t].index == old(self)@.bodies[t].index);
                }
            }
        }
    }

    /// Ticks the trail countdown of the body at `i` (see `tick_trail`).
    fn tick_body(&mut self, i: usize) -> (emit: bool)
        requires
            i < old(self)@.bodies.len(),
        ensures
            final(self)@.bodies == old(self)@.bodies.update(
                i as int,
                old(self)@.bodies[i as int].tick_spec().0,
            ),
            emit == old(self)@.bodies[i as int].tick_spec().1,
            final(self)@.stopped == old(self)@.stopped,
            final(self)@.focused_idx == old(self)@.focused_idx,
    {
        self.bodies[i].tick_trail()
    }

    /// Trail bookkeeping for one step: the existing points age and the
    /// expired ones go; then every body ticks its countdown, and each body
    /// whose countdown runs out, in index order, leaves a new point at
    /// `point_of(data)`.
    pub fn update_trails<T, F: Fn(&B) -> T>(&mut self, trails: &mut TrailBuffer<T>, point_of: F)
        requires
            old(trails).wf(),
            forall|d: &B| point_of.requires((d,)),
        ensures
            final(self)@.bodies.len() == old(self)@.bodies.len(),
            forall|i: int|
                0 <= i < old(self)@.bodies.len() ==> #[trigger] final(self)@.bodies[i]
                    == old(self)@.bodies[i].tick_spec().0,
            final(self)@.stopped == old(self)@.stopped,
            final(self)@.focused_idx == old(self)@.focused_idx,
            old(self).wf() ==> final(self).wf(),
            final(trails).wf(),
            ({
                let kept = aged_survivors(old(trails)@);
                let src = trail_sources(old(self)@.bodies, old(self)@.bodies.len());
                &&& final(trails)@.len() == kept.len() + src.len()
                &&& final(trails)@.subrange(0, kept.len() as int) == kept
                &&& forall|k: int|
                    0 <= k < src.len() ==> {
                        let p = #[trigger] final(trails)@[kept.len() + k];
                        &&& p.age == 0
                        &&& point_of.ensures((&old(self)@.bodies[src[k]].data,), p.point)
                    }
            }),
    {
        trails.update();
        let ghost kept = trails@;
        let n = self.bodies.len();
        let mut i: usize = 0;
        while i < n
            invariant
                i <= n,
                n == old(self)@.bodies.len(),
                self@.bodies.len() == n,
                self.stopped == old(self).stopped,
                self.focused_idx == old(self).focused_idx,
                forall|d: &B| point_of.requires((d,)),
                kept == aged_survivors(old(trails)@),
                trails.wf(),
                forall|t: int| i <= t < n ==> #[trigger] self@.bodies[t] == old(self)@.bodies[t],
                forall|t: int|
                    0 <= t < i ==> #[trigger] self@.bodies[t] == old(self)@.bodies[t].tick_spec().0,
                trails@.len() == kept.len() + trail_sources(old(self)@.bodies, i as nat).len(),
                trails@.subrange(0, kept.len() as int) == kept,
                forall|k: int|
                    0 <= k < trail_sources(old(self)@.bodies, i as nat).len() ==> {
                        let p = #[trigger] trails@[kept.len() + k];
                        &&& p.age == 0
                        &&& point_of.ensures(
                            (&old(self)@.bodies[trail_sources(old(self)@.bodies, i as nat)[k]].data,),
                            p.point,
                        )
                    },
            decreases n - i,
        {
            let ghost before = trails@;
            let ghost src = trail_sources(old(self)@.bodies, i as nat);
            let emit = self.tick_body(i);
            if emit {
                let p = point_of(&self.bodies[i].data);
                trails.push(p);
                proof {
                    let src1 = trail_sources(old(self)@.bodies, (i + 1) as nat);
                    assert(src1 == src.push(i as int));
                    assert(trails@.subrange(0, kept.len() as int) =~= before.subrange(0, kept.len() as int));
                    assert forall|k: int| 0 <= k < src1.len() implies {
                        let p = #[trigger] trails@[kept.len() + k];
                        &&& p.age == 0
                        &&& point_of.ensures((&old(self)@.bodies[src1[k]].data,), p.point)
                    } by {
                        if k < src.len() {
                            assert(trails@[kept.len() + k] == before[kept.len() + k]);
                            assert(src1[k] == src[k]);
                        }
                    }
                }
            }
            i = i + 1;
        }
        proof {
            if old(self).wf() {
                assert forall|t: int| 0 <= t < n implies #[trigger] self@.bodies[t].index == t by {
                    assert(self@.bodies[t].index == old(self)@.bodies[t].index);
                }
            }
        }
    }

    /// Gives up the bodies, in index order.
    pub fn into_bodies(self) -> (r: Vec<SpaceBody<B>>)
        ensures
            r@ == self@.bodies,
    {
        self.bodies
    }

    /// Sets the pause flag.
    pub fn set_stopped(&mut self, stopped: bool)
        ensures
            final(self)@.bodies == old(self)@.bodies,
            final(self)@.stopped == stopped,
            final(self)@.focused_idx == old(self)@.focused_idx,
    {
        self.stopped = stopped;
    }

    /// One step of the simulation.  A paused world does not change.  A
    /// running one goes through collision resolution (`check_for_collisions`
    /// with `overlap` and `merge`), force accumulation (`accel`), the
    /// position step (`move_step`, movable bodies only), the velocity step
    /// (`vel_step`, every body) and the trail bookkeeping (`point_of`), in
    /// that order.
    pub fn advance<T, FM, FA, FP, FV, FT>(
        &mut self,
        overlap: &Vec<Vec<bool>>,
        merge: FM,
        accel: FA,
        move_step: FP,
        vel_step: FV,
        trails: &mut TrailBuffer<T>,
        point_of: FT,
    ) where
        FM: Fn(&B, &B) -> B,
        FA: Fn(&WorldSpace<B>, usize) -> B,
        FP: Fn(&B) -> B,
        FV: Fn(&B) -> B,
        FT: Fn(&B) -> T,

        requires
            old(self).wf(),
            old(trails).wf(),
            is_square(overlap@, old(self)@.bodies.len()),
            forall|x: &B, y: &B| merge.requires((x, y)),
            forall|w: &WorldSpace<B>, i: usize| accel.requires((w, i)),
            forall|d: &B| move_step.requires((d,)),
            forall|d: &B| vel_step.requires((d,)),
            forall|d: &B| point_of.requires((d,)),
        ensures
            final(self).wf(),
            final(trails).wf(),
            final(self)@.stopped == old(self)@.stopped,
            old(self)@.stopped ==> final(self)@ == old(self)@ && final(trails)@ == old(trails)@,
            !old(self)@.stopped ==> exists|w1: WorldSpace<B>|
                #[trigger] collision_pass(old(self)@, matrix(overlap@), merge, w1@) && {
                    let kept = aged_survivors(old(trails)@);
                    let src = trail_sources(w1@.bodies, w1@.bodies.len());
                    &&& pairing(matrix(overlap@)).pairs.len() == 0 ==> w1@.bodies == old(
                        self,
                    )@.bodies
                    &&& final(self)@.focused_idx == w1@.focused_idx
                    &&& final(self)@.bodies.len() == w1@.bodies.len()
                    &&& forall|i: int|
                        0 <= i < w1@.bodies.len() ==> stepped_body(
                            w1,
                            i,
                            #[trigger] final(self)@.bodies[i],
                            accel,
                            move_step,
                            vel_step,
                        )
                    &&& final(trails)@.len() == kept.len() + src.len()
                    &&& final(trails)@.subrange(0, kept.len() as int) == kept
                    &&& forall|j: int|
                        0 <= j < src.len() ==> {
                            let q = #[trigger] final(trails)@[kept.len() + j];
                            &&& q.age == 0
                            &&& point_of.ensures((&final(self)@.bodies[src[j]].data,), q.point)
                        }
                },
    {
        if self.stopped {
            return;
        }
        let ghost o = self@.bodies;
        let ghost m = matrix(overlap@);
        self.check_for_collisions(overlap, merge);
        let ghost w1: WorldSpace<B> = *self;
        self.update_acceleration(accel);
        let ghost w2 = self@.bodies;
        self.update_positions(move_step);
        let ghost w3 = self@.bodies;
        self.update_time(vel_step);
        let ghost w4 = self@.bodies;
        let ghost t0 = trails@;
        self.update_trails(trails, point_of);
        proof {
            let p = pairing(m);
            let k = kept_indices(p.used, o.len());
            let n1 = w1@.bodies.len();
            assert forall|i: int| 0 <= i < n1 implies stepped_body(
                w1,
                i,
                #[trigger] self@.bodies[i],
                accel,
                move_step,
                vel_step,
            ) by {
                let a = w2[i].data;
                assert(accel.ensures((&w1, i as usize), a));
                if !w1@.bodies[i].immovable {
                    assert(move_step.ensures((&a,), w3[i].data));
                }
            }
            assert forall|i: int| 0 <= i < n1 implies #[trigger] w4[i].next_trail
                == w1@.bodies[i].next_trail by {}
            lemma_trail_sources_countdowns(w4, w1@.bodies, n1);
            let src = trail_sources(w1@.bodies, n1);
            lemma_trail_sources_range(w1@.bodies, n1);
            assert forall|j: int| 0 <= j < src.len() implies {
                let q = #[trigger] trails@[aged_survivors(t0).len() + j];
                &&& q.age == 0
                &&& point_of.ensures((&self@.bodies[src[j]].data,), q.point)
            } by {
                assert(self@.bodies[src[j]] == w4[src[j]].tick_spec().0);
            }
            if p.pairs.len() == 0 {
                let mm = m;
                assert(square(mm)) by {
                    assert forall|i: int| 0 <= i < mm.len() implies (#[trigger] mm[i]).len()
                        == mm.len() by {
                        assert(mm[i] == overlap@[i]@);
                    }
                }
                lemma_pairing_sound(mm);
                assert forall|x: int| 0 <= x < o.len() implies !p.used.contains(x) by {}
                lemma_kept_all(p.used, o.len());
                assert(w1@.bodies =~= o) by {
                    assert forall|t: int| 0 <= t < o.len() implies #[trigger] w1@.bodies[t] == o[t] by {
                        assert(w1@.bodies[t] == o[k[t]].reindexed(t));
                        assert(o[t].index == t);
                    }
                }
            }
            assert(collision_pass(old(self)@, m, merge, w1@));
        }
    }
}

} // verus!
