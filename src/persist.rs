use vstd::prelude::*;
use crate::body::{SpaceBody, TRAIL_INTERVAL};
use crate::world::WorldSpace;

verus! {

/// What is saved of a body: its data, whether it is immovable and its
/// index.  The trail countdown is not saved.
pub struct BodySerializable<B> {
    pub data: B,
    pub immovable: bool,
    pub index: usize,
}

/// What is saved of a world: its bodies, the pause flag and the focus.
/// Trail points are not saved.
pub struct WorldSpaceSerializable<B> {
    pub bodies: Vec<BodySerializable<B>>,
    pub stopped: bool,
    pub focused_idx: Option<usize>,
}

/// The saved form of a body.
pub open spec fn saved_body<B>(b: SpaceBody<B>) -> BodySerializable<B> {
    BodySerializable { data: b.data, immovable: b.immovable, index: b.index }
}

/// The body loaded from `s` at position `i`: it takes `i` as its index and a
/// fresh trail countdown.
pub open spec fn loaded_body<B>(s: BodySerializable<B>, i: int) -> SpaceBody<B> {
    SpaceBody { data: s.data, immovable: s.immovable, index: i as usize, next_trail: TRAIL_INTERVAL }
}

/// The saved form of a sequence of bodies.
pub open spec fn saved_bodies<B>(s: Seq<SpaceBody<B>>) -> Seq<BodySerializable<B>> {
    s.map_values(|b: SpaceBody<B>| saved_body(b))
}

/// The bodies loaded from a saved sequence.
pub open spec fn loaded_bodies<B>(s: Seq<BodySerializable<B>>) -> Seq<SpaceBody<B>> {
    s.map(|i: int, b: BodySerializable<B>| loaded_body(b, i))
}

impl<B> WorldSpaceSerializable<B> {
    /// The saved form of `world`.
    pub fn from_world(world: WorldSpace<B>) -> (r: WorldSpaceSerializable<B>)
        ensures
            r.bodies@ == saved_bodies(world@.bodies),
            r.stopped == world@.stopped,
            r.focused_idx == world@.focused_idx,
    {
        let stopped = world.is_stopped();
        let focused_idx = world.focused_idx();
        let mut rest = world.into_bodies();
        let ghost o = rest@;
        let mut reversed: Vec<BodySerializable<B>> = Vec::new();
        while rest.len() > 0
            invariant
                rest@.len() + reversed@.len() == o.len(),
                rest@ == o.subrange(0, rest@.len() as int),
                forall|t: int|
                    0 <= t < reversed@.len() ==> #[trigger] reversed@[t] == saved_body(
                        o[o.len() - 1 - t],
                    ),
            decreases rest@.len(),
        {
            let b = rest.pop().unwrap();
            reversed.push(BodySerializable { data: b.data, immovable: b.immovable, index: b.index });
        }
        let mut bodies: Vec<BodySerializable<B>> = Vec::new();
        while reversed.len() > 0
            invariant
                reversed@.len() + bodies@.len() == o.len(),
                forall|t: int|
                    0 <= t < reversed@.len() ==> #[trigger] reversed@[t] == saved_body(
                        o[o.len() - 1 - t],
                    ),
                forall|t: int| 0 <= t < bodies@.len() ==> #[trigger] bodies@[t] == saved_body(o[t]),
            decreases reversed@.len(),
        {
            let b = reversed.pop().unwrap();
            bodies.push(b);
        }
        assert(bodies@ =~= saved_bodies(o));
        WorldSpaceSerializable { bodies, stopped, focused_idx }
    }
}

impl<B> WorldSpace<B> {
    /// The world saved as `saved`: the bodies in their order, indexed by it,
    /// each with a fresh trail countdown; the pause flag and the focus as
    /// saved.
    pub fn from_serializable(saved: WorldSpaceSerializable<B>) -> (r: WorldSpace<B>)
        ensures
            r@.bodies == loaded_bodies(saved.bodies@),
            r@.stopped == saved.stopped,
            r@.focused_idx == saved.focused_idx,
            r.wf(),
    {
        let WorldSpaceSerializable { bodies: mut rest, stopped, focused_idx } = saved;
        let ghost o = rest@;
        let mut reversed: Vec<BodySerializable<B>> = Vec::new();
        while rest.len() > 0
            invariant
                rest@.len() + reversed@.len() == o.len(),
                rest@ == o.subrange(0, rest@.len() as int),
                forall|t: int| 0 <= t < reversed@.len() ==> #[trigger] reversed@[t] == o[o.len() - 1 - t],
            decreases rest@.len(),
        {
            let b = rest.pop().unwrap();
            reversed.push(b);
        }
        let mut bodies: Vec<SpaceBody<B>> = Vec::new();
        while reversed.len() > 0
            invariant
                reversed@.len() + bodies@.len() == o.len(),
                forall|t: int| 0 <= t < reversed@.len() ==> #[trigger] reversed@[t] == o[o.len() - 1 - t],
                forall|t: int| 0 <= t < bodies@.len() ==> #[trigger] bodies@[t] == loaded_body(o[t], t),
            decreases reversed@.len(),
        {
            let b = reversed.pop().unwrap();
            let index = bodies.len();
            bodies.push(SpaceBody::new(b.data, b.immovable, index));
        }
        assert(bodies@ =~= loaded_bodies(o));
        let mut r = WorldSpace::with_bodies(bodies);
        r.set_stopped(stopped);
        r.set_focused_idx(focused_idx);
        proof {
            assert(r@.bodies =~= loaded_bodies(o));
        }
        r
    }
}

/// Saving a well-formed world and loading it back gives the same bodies in
/// the same order, with the same data, immovability and indices; only the
/// trail countdowns start afresh.
pub proof fn lemma_save_load_round_trip<B>(w: WorldSpace<B>)
    requires
        w.wf(),
    ensures
        loaded_bodies(saved_bodies(w@.bodies)) == w@.bodies.map_values(
            |b: SpaceBody<B>| SpaceBody { next_trail: TRAIL_INTERVAL, ..b },
        ),
{
    let l = loaded_bodies(saved_bodies(w@.bodies));
    let e = w@.bodies.map_values(|b: SpaceBody<B>| SpaceBody { next_trail: TRAIL_INTERVAL, ..b });
    assert forall|i: int| 0 <= i < w@.bodies.len() implies #[trigger] l[i] == e[i] by {
        assert(w@.bodies[i].index == i);
    }
    assert(l =~= e);
}

} // verus!
