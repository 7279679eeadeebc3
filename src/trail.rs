use vstd::prelude::*;
use std::collections::VecDeque;

verus! {

/// Age past which a trail point disappears.
pub const DEATH_AGE: usize = 100;

/// A fading mark left behind by a body; `point` is where it was left.
pub struct TrailPoint<T> {
    pub age: usize,
    pub point: T,
}

impl<T> TrailPoint<T> {
    /// The point one step older.
    pub open spec fn aged(self) -> TrailPoint<T> {
        TrailPoint { age: (self.age + 1) as usize, ..self }
    }

    /// A new point, of age 0.
    pub fn new(point: T) -> (r: TrailPoint<T>)
        ensures
            r.age == 0,
            r.point == point,
    {
        TrailPoint { age: 0, point }
    }

    /// Ages the point by one step and says whether it has now expired.
    pub fn update(&mut self) -> (expired: bool)
        requires
            old(self).age < usize::MAX,
        ensures
            *final(self) == old(self).aged(),
            expired == (final(self).age > DEATH_AGE),
    {
        self.age = self.age + 1;
        self.age > DEATH_AGE
    }
}

/// The points of `s` one step older, without those that thereby expired,
/// in their order.
pub open spec fn aged_survivors<T>(s: Seq<TrailPoint<T>>) -> Seq<TrailPoint<T>>
    decreases s.len(),
{
    if s.len() == 0 {
        Seq::empty()
    } else {
        let r = aged_survivors(s.drop_last());
        let p = s.last().aged();
        if p.age <= DEATH_AGE {
            r.push(p)
        } else {
            r
        }
    }
}

/// The trail points of a world, oldest first.
pub struct TrailBuffer<T> {
    points: VecDeque<TrailPoint<T>>,
}

impl<T> View for TrailBuffer<T> {
    type V = Seq<TrailPoint<T>>;

    closed spec fn view(&self) -> Seq<TrailPoint<T>> {
        self.points@
    }
}

impl<T> TrailBuffer<T> {
    /// No point has outlived `DEATH_AGE`.
    pub open spec fn wf(&self) -> bool {
        forall|i: int| 0 <= i < self@.len() ==> (#[trigger] self@[i]).age <= DEATH_AGE
    }

    /// An empty buffer.
    pub fn new() -> (r: TrailBuffer<T>)
        ensures
            r@.len() == 0,
            r.wf(),
    {
        TrailBuffer { points: VecDeque::new() }
    }

    /// The points, oldest first.
    pub fn points(&self) -> (r: &VecDeque<TrailPoint<T>>)
        ensures
            r@ == self@,
    {
        &self.points
    }

    /// Appends a new point, of age 0.
    pub fn push(&mut self, point: T)
        requires
            old(self).wf(),
        ensures
            final(self)@ == old(self)@.push(TrailPoint { age: 0, point }),
            final(self).wf(),
    {
        self.points.push_back(TrailPoint::new(point));
        assert forall|i: int| 0 <= i < self@.len() implies (#[trigger] self@[i]).age <= DEATH_AGE by {
            if i < old(self)@.len() {
                assert(self@[i] == old(self)@[i]);
            }
        }
    }

    /// Ages every point by one step and drops those that expired.
    pub fn update(&mut self)
        requires
            old(self).wf(),
        ensures
            final(self)@ == aged_survivors(old(self)@),
            final(self).wf(),
    {
        let n = self.points.len();
        let ghost o = self@;
        let mut i: usize = 0;
        while i < n
            invariant
                i <= n,
                n == o.len(),
                o == old(self)@,
                forall|t: int| 0 <= t < n ==> (#[trigger] o[t]).age <= DEATH_AGE,
                self.points@ == o.subrange(i as int, n as int) + aged_survivors(
                    o.subrange(0, i as int),
                ),
                forall|t: int|
                    0 <= t < aged_survivors(o.subrange(0, i as int)).len() ==> (
                    #[trigger] aged_survivors(o.subrange(0, i as int))[t]).age <= DEATH_AGE,
            decreases n - i,
        {
            let mut p = self.points.pop_front().unwrap();
            assert(p == o[i as int]);
            let expired = p.update();
            if !expired {
                self.points.push_back(p);
            }
            proof {
                assert(o.subrange(0, i + 1).drop_last() =~= o.subrange(0, i as int));
                assert(o.subrange(0, i + 1).last() == o[i as int]);
                assert(self.points@ =~= o.subrange(i + 1, n as int) + aged_survivors(
                    o.subrange(0, i + 1),
                ));
            }
            i = i + 1;
        }
        assert(o.subrange(0, n as int) =~= o);
        assert(self.points@ =~= aged_survivors(o));
    }
}

} // verus!
