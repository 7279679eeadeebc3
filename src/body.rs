use vstd::prelude::*;

verus! {

/// Number of steps between two trail points left by a body.
pub const TRAIL_INTERVAL: usize = 10;

/// A point mass of the simulation.
///
/// `data` carries the body's physical state (position, velocity,
/// acceleration, mass, radius, colour); the library never reads it and only
/// moves it around.  What the library keeps for itself is whether the body is
/// immovable, its index in the world and the countdown to its next trail
/// point.
pub struct SpaceBody<B> {
    pub data: B,
    pub immovable: bool,
    pub index: usize,
    pub next_trail: usize,
}

impl<B> SpaceBody<B> {
    /// A fresh body; its trail countdown starts at `TRAIL_INTERVAL`.
    pub fn new(data: B, immovable: bool, index: usize) -> (r: SpaceBody<B>)
        ensures
            r.data == data,
            r.immovable == immovable,
            r.index == index,
            r.next_trail == TRAIL_INTERVAL,
    {
        SpaceBody { data, immovable, index, next_trail: TRAIL_INTERVAL }
    }

    /// The same body standing at index `i`.
    pub open spec fn reindexed(self, i: int) -> SpaceBody<B> {
        SpaceBody { index: i as usize, ..self }
    }

    /// The body after one tick of its trail countdown, and whether it leaves a
    /// trail point on this tick.
    pub open spec fn tick_spec(self) -> (SpaceBody<B>, bool) {
        if self.next_trail <= 1 {
            (SpaceBody { next_trail: TRAIL_INTERVAL, ..self }, true)
        } else {
            (SpaceBody { next_trail: (self.next_trail - 1) as usize, ..self }, false)
        }
    }

    /// Counts the trail countdown down by one; when it runs out it starts
    /// again at `TRAIL_INTERVAL` and the body leaves a trail point.
    pub fn tick_trail(&mut self) -> (emit: bool)
        ensures
            (*final(self), emit) == old(self).tick_spec(),
    {
        if self.next_trail <= 1 {
            self.next_trail = TRAIL_INTERVAL;
            true
        } else {
            self.next_trail = self.next_trail - 1;
            false
        }
    }
}

/// The bodies of `s`, each given its position in `s` as its index.
pub open spec fn reindex_all<B>(s: Seq<SpaceBody<B>>) -> Seq<SpaceBody<B>> {
    s.map(|i: int, b: SpaceBody<B>| b.reindexed(i))
}

/// Every body's index is its position: the indices are exactly `0..n`.
pub open spec fn dense<B>(s: Seq<SpaceBody<B>>) -> bool {
    forall|i: int| 0 <= i < s.len() ==> #[trigger] s[i].index == i
}


/// Dense indices run exactly through `0..n` in order: no index is missing
/// and none occurs twice.
pub proof fn lemma_dense_indices<B>(s: Seq<SpaceBody<B>>)
    requires
        dense(s),
    ensures
        s.map_values(|b: SpaceBody<B>| b.index as int) == Seq::new(s.len(), |i: int| i),
        forall|i: int, j: int|
            0 <= i < s.len() && 0 <= j < s.len() && #[trigger] s[i].index == #[trigger] s[j].index ==> i == j,
{
    assert(s.map_values(|b: SpaceBody<B>| b.index as int) =~= Seq::new(s.len(), |i: int| i));
}

} // verus!
