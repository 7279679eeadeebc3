use universe_sim::body::{SpaceBody, TRAIL_INTERVAL};
use universe_sim::persist::WorldSpaceSerializable;
use universe_sim::trail::TrailBuffer;
use universe_sim::world::WorldSpace;

#[derive(Debug, Clone, Copy, PartialEq)]
struct Phys {
    x: f32,
    y: f32,
    xv: f32,
    yv: f32,
    mass: f32,
}

fn phys(x: f32, y: f32, xv: f32, yv: f32, mass: f32) -> Phys {
    Phys { x, y, xv, yv, mass }
}

fn world_of(items: Vec<(Phys, bool)>) -> WorldSpace<Phys> {
    let bodies = items
        .into_iter()
        .map(|(d, immovable)| SpaceBody::new(d, immovable, 99))
        .collect();
    WorldSpace::with_bodies(bodies)
}

fn simple_world(n: usize) -> WorldSpace<Phys> {
    world_of((0..n).map(|i| (phys(i as f32 * 100.0, 0.0, 0.0, 0.0, 1.0), false)).collect())
}

fn indices(w: &WorldSpace<Phys>) -> Vec<usize> {
    w.bodies().iter().map(|b| b.index).collect()
}

fn no_overlap(n: usize) -> Vec<Vec<bool>> {
    vec![vec![false; n]; n]
}

fn mark(m: &mut Vec<Vec<bool>>, a: usize, b: usize) {
    m[a][b] = true;
    m[b][a] = true;
}

fn merge_sum(a: &Phys, b: &Phys) -> Phys {
    let mass = a.mass + b.mass;
    Phys {
        x: a.x / 2.0 + b.x / 2.0,
        y: a.y / 2.0 + b.y / 2.0,
        xv: (a.xv * a.mass + b.xv * b.mass) / mass,
        yv: (a.yv * a.mass + b.yv * b.mass) / mass,
        mass,
    }
}

#[test]
fn with_bodies_assigns_dense_indices() {
    let w = simple_world(4);
    assert_eq!(indices(&w), vec![0, 1, 2, 3]);
    assert!(!w.is_stopped());
    assert_eq!(w.focused_idx(), None);
}

#[test]
fn push_body_takes_next_index() {
    let mut w = simple_world(2);
    w.push_body(SpaceBody::new(phys(5.0, 5.0, 0.0, 0.0, 2.0), true, 42));
    assert_eq!(indices(&w), vec![0, 1, 2]);
    assert!(w.bodies()[2].immovable);
    assert_eq!(w.bodies()[2].data, phys(5.0, 5.0, 0.0, 0.0, 2.0));
}

#[test]
fn validate_reindexes() {
    let mut w = simple_world(3);
    w.validate();
    assert_eq!(indices(&w), vec![0, 1, 2]);
}

#[test]
fn switch_stopped_toggles() {
    let mut w = simple_world(1);
    w.switch_stopped();
    assert!(w.is_stopped());
    w.switch_stopped();
    assert!(!w.is_stopped());
}

#[test]
fn clear_bodies_empties_and_unfocuses() {
    let mut w = simple_world(3);
    w.set_focused_idx(Some(1));
    w.clear_bodies();
    assert_eq!(w.len(), 0);
    assert_eq!(w.focused_idx(), None);
}

#[test]
fn remove_first_shifts_focus_down() {
    let mut w = simple_world(3);
    w.set_focused_idx(Some(1));
    w.remove_body(0);
    assert_eq!(w.focused_idx(), Some(0));
    assert_eq!(indices(&w), vec![0, 1]);
    assert_eq!(w.bodies()[0].data.x, 100.0);
    assert_eq!(w.bodies()[1].data.x, 200.0);
}

#[test]
fn remove_focused_clears_focus() {
    let mut w = simple_world(3);
    w.set_focused_idx(Some(1));
    w.remove_body(1);
    assert_eq!(w.focused_idx(), None);
    assert_eq!(indices(&w), vec![0, 1]);
    assert_eq!(w.bodies()[1].data.x, 200.0);
}

#[test]
fn remove_after_focus_keeps_focus() {
    let mut w = simple_world(3);
    w.set_focused_idx(Some(0));
    w.remove_body(2);
    assert_eq!(w.focused_idx(), Some(0));
}

#[test]
fn remove_selected_removes_focused_body() {
    let mut w = simple_world(3);
    w.set_focused_idx(Some(2));
    w.remove_selected();
    assert_eq!(w.len(), 2);
    assert_eq!(w.focused_idx(), None);
    assert_eq!(w.bodies()[1].data.x, 100.0);
}

#[test]
fn remove_selected_resolves_out_of_range_focus() {
    let mut w = simple_world(3);
    w.set_focused_idx(Some(7));
    w.remove_selected();
    assert_eq!(w.len(), 2);
    assert_eq!(w.bodies()[0].data.x, 0.0);
    assert_eq!(w.bodies()[1].data.x, 100.0);
    assert_eq!(w.focused_idx(), None);
}

#[test]
fn remove_selected_without_focus_does_nothing() {
    let mut w = simple_world(3);
    w.remove_selected();
    assert_eq!(w.len(), 3);
    assert_eq!(w.focused_idx(), None);
}

#[test]
fn focus_advance_on_empty_world_is_noop() {
    let mut w = simple_world(0);
    w.advance_focused_idx();
    assert_eq!(w.focused_idx(), None);
    w.reduce_focused_index();
    assert_eq!(w.focused_idx(), None);
}

#[test]
fn focus_advance_cycles_through_none() {
    let mut w = simple_world(3);
    let mut seen = Vec::new();
    for _ in 0..5 {
        w.advance_focused_idx();
        seen.push(w.focused_idx());
    }
    assert_eq!(seen, vec![Some(0), Some(1), Some(2), None, Some(0)]);
}

#[test]
fn focus_reduce_cycles_through_none() {
    let mut w = simple_world(3);
    let mut seen = Vec::new();
    for _ in 0..5 {
        w.reduce_focused_index();
        seen.push(w.focused_idx());
    }
    assert_eq!(seen, vec![Some(2), Some(1), Some(0), None, Some(2)]);
}

#[test]
fn nearest_index_falls_back_to_last() {
    let w = simple_world(3);
    assert_eq!(w.get_nearest_index(1), Some(1));
    assert_eq!(w.get_nearest_index(2), Some(2));
    assert_eq!(w.get_nearest_index(3), Some(2));
    assert_eq!(w.get_nearest_index(usize::MAX), Some(2));
    assert_eq!(simple_world(0).get_nearest_index(0), None);
}

#[test]
fn prepare_for_gui_resolves_focus() {
    let mut w = simple_world(3);
    assert_eq!(w.prepare_for_gui(), None);
    w.set_focused_idx(Some(10));
    assert_eq!(w.prepare_for_gui(), Some(2));
    assert_eq!(w.focused_idx(), Some(2));
    w.clear_bodies();
    w.set_focused_idx(Some(0));
    assert_eq!(w.prepare_for_gui(), None);
    assert_eq!(w.focused_idx(), None);
}

#[test]
fn collision_merges_overlapping_pair() {
    let mut w = world_of(vec![
        (phys(0.0, 0.0, 2.0, 0.0, 10.0), false),
        (phys(500.0, 0.0, 0.0, 0.0, 1.0), false),
        (phys(10.0, 0.0, 0.0, 0.0, 30.0), true),
    ]);
    let mut m = no_overlap(3);
    mark(&mut m, 0, 2);
    w.check_for_collisions(&m, merge_sum);
    assert_eq!(w.len(), 2);
    assert_eq!(indices(&w), vec![0, 1]);
    assert_eq!(w.bodies()[0].data, phys(500.0, 0.0, 0.0, 0.0, 1.0));
    let merged = &w.bodies()[1];
    assert_eq!(merged.data, phys(5.0, 0.0, 0.5, 0.0, 40.0));
    assert!(!merged.immovable);
    assert_eq!(merged.next_trail, TRAIL_INTERVAL);
}

#[test]
fn collision_without_overlap_changes_nothing() {
    let mut w = simple_world(3);
    w.set_focused_idx(Some(1));
    w.check_for_collisions(&no_overlap(3), merge_sum);
    assert_eq!(w.len(), 3);
    assert_eq!(indices(&w), vec![0, 1, 2]);
    assert_eq!(w.focused_idx(), Some(1));
    assert_eq!(w.bodies()[2].data.x, 200.0);
}

#[test]
fn collision_never_merges_a_body_twice() {
    let mut w = simple_world(3);
    let mut m = no_overlap(3);
    mark(&mut m, 0, 1);
    mark(&mut m, 1, 2);
    mark(&mut m, 0, 2);
    w.check_for_collisions(&m, merge_sum);
    assert_eq!(w.len(), 2);
    assert_eq!(w.bodies()[0].data.x, 200.0);
    assert_eq!(w.bodies()[1].data.x, 50.0);
    assert_eq!(w.bodies()[1].data.mass, 2.0);
}

#[test]
fn collision_merges_disjoint_pairs_in_order() {
    let mut w = simple_world(5);
    let mut m = no_overlap(5);
    mark(&mut m, 1, 4);
    mark(&mut m, 0, 3);
    w.check_for_collisions(&m, merge_sum);
    assert_eq!(w.len(), 3);
    assert_eq!(indices(&w), vec![0, 1, 2]);
    assert_eq!(w.bodies()[0].data.x, 200.0);
    assert_eq!(w.bodies()[1].data.x, 150.0);
    assert_eq!(w.bodies()[2].data.x, 250.0);
}

#[test]
fn collision_hands_focus_to_merge_product() {
    let mut w = simple_world(5);
    w.set_focused_idx(Some(4));
    let mut m = no_overlap(5);
    mark(&mut m, 1, 4);
    mark(&mut m, 0, 3);
    w.check_for_collisions(&m, merge_sum);
    assert_eq!(w.focused_idx(), Some(2));
    assert_eq!(w.bodies()[2].data.x, 250.0);
}

#[test]
fn collision_keeps_focus_on_surviving_body() {
    let mut w = simple_world(4);
    w.set_focused_idx(Some(3));
    let mut m = no_overlap(4);
    mark(&mut m, 0, 1);
    w.check_for_collisions(&m, merge_sum);
    assert_eq!(w.focused_idx(), Some(1));
    assert_eq!(w.bodies()[1].data.x, 300.0);
}

#[test]
fn indices_stay_dense_over_a_sequence_of_steps() {
    let mut w = simple_world(6);
    let mut m = no_overlap(6);
    mark(&mut m, 2, 5);
    w.check_for_collisions(&m, merge_sum);
    assert_eq!(indices(&w), vec![0, 1, 2, 3, 4]);
    w.remove_body(1);
    assert_eq!(indices(&w), vec![0, 1, 2, 3]);
    w.push_body(SpaceBody::new(phys(1.0, 1.0, 0.0, 0.0, 1.0), false, 0));
    assert_eq!(indices(&w), vec![0, 1, 2, 3, 4]);
    let mut m = no_overlap(5);
    mark(&mut m, 0, 4);
    mark(&mut m, 1, 2);
    w.check_for_collisions(&m, merge_sum);
    assert_eq!(indices(&w), vec![0, 1, 2]);
}

#[test]
fn positions_move_only_movable_bodies() {
    let dt = 0.1f32;
    let mut w = world_of(vec![
        (phys(1.0, 2.0, 10.0, -5.0, 1.0), false),
        (phys(3.0, 4.0, 7.0, 7.0, 1.0), true),
    ]);
    w.update_positions(|d: &Phys| Phys { x: d.x + d.xv * dt, y: d.y + d.yv * dt, ..*d });
    assert_eq!(w.bodies()[0].data.x, 1.0 + 10.0 * dt);
    assert_eq!(w.bodies()[0].data.y, 2.0 + -5.0 * dt);
    assert_eq!(w.bodies()[1].data, phys(3.0, 4.0, 7.0, 7.0, 1.0));
}

#[test]
fn velocity_update_reaches_immovable_bodies() {
    let mut w = world_of(vec![
        (phys(0.0, 0.0, 1.0, 1.0, 1.0), false),
        (phys(0.0, 0.0, 2.0, 2.0, 1.0), true),
    ]);
    w.update_time(|d: &Phys| Phys { xv: d.xv + 1.0, ..*d });
    assert_eq!(w.bodies()[0].data.xv, 2.0);
    assert_eq!(w.bodies()[1].data.xv, 3.0);
}

#[test]
fn acceleration_reads_the_state_before_the_pass() {
    let mut w = simple_world(3);
    w.update_acceleration(|world: &WorldSpace<Phys>, i: usize| {
        let total: f32 = world.bodies().iter().map(|b| b.data.x).sum();
        Phys { xv: total, ..world.bodies()[i].data }
    });
    for b in w.bodies() {
        assert_eq!(b.data.xv, 300.0);
    }
    assert_eq!(indices(&w), vec![0, 1, 2]);
}

#[test]
fn save_load_round_trip() {
    let mut w = world_of(vec![
        (phys(1.0, 2.0, 3.0, 4.0, 5.0), false),
        (phys(6.0, 7.0, 8.0, 9.0, 10.0), true),
        (phys(-1.0, -2.0, 0.5, 0.25, 3.0), false),
        (phys(100.0, 200.0, 0.0, 0.0, 1.0), true),
        (phys(0.0, 0.0, -3.0, 3.0, 7.5), false),
    ]);
    w.switch_stopped();
    w.set_focused_idx(Some(3));
    let before: Vec<(Phys, bool, usize)> =
        w.bodies().iter().map(|b| (b.data, b.immovable, b.index)).collect();
    let saved = WorldSpaceSerializable::from_world(w);
    assert_eq!(saved.bodies.len(), 5);
    let loaded = WorldSpace::from_serializable(saved);
    let after: Vec<(Phys, bool, usize)> =
        loaded.bodies().iter().map(|b| (b.data, b.immovable, b.index)).collect();
    assert_eq!(before, after);
    assert!(loaded.is_stopped());
    assert_eq!(loaded.focused_idx(), Some(3));
    assert!(loaded.bodies().iter().all(|b| b.next_trail == TRAIL_INTERVAL));
}

fn step_world(w: &mut WorldSpace<Phys>, overlap: &Vec<Vec<bool>>, trails: &mut TrailBuffer<(f32, f32)>) {
    let dt = 0.1f32;
    w.advance(
        overlap,
        merge_sum,
        |world: &WorldSpace<Phys>, i: usize| world.bodies()[i].data,
        |d: &Phys| Phys { x: d.x + d.xv * dt, y: d.y + d.yv * dt, ..*d },
        |d: &Phys| Phys { xv: d.xv + 1.0, ..*d },
        trails,
        |d: &Phys| (d.x, d.y),
    );
}

#[test]
fn paused_world_does_not_advance() {
    let mut w = world_of(vec![(phys(1.0, 2.0, 10.0, 10.0, 1.0), false), (phys(1.0, 2.0, 0.0, 0.0, 1.0), false)]);
    w.switch_stopped();
    let mut m = no_overlap(2);
    mark(&mut m, 0, 1);
    let mut trails = TrailBuffer::new();
    step_world(&mut w, &m, &mut trails);
    assert_eq!(w.len(), 2);
    assert_eq!(w.bodies()[0].data, phys(1.0, 2.0, 10.0, 10.0, 1.0));
    assert_eq!(w.bodies()[0].next_trail, TRAIL_INTERVAL);
}

#[test]
fn step_without_collisions_moves_only_movable_bodies() {
    let dt = 0.1f32;
    let mut w = world_of(vec![
        (phys(1.0, 2.0, 10.0, -5.0, 1.0), false),
        (phys(300.0, 400.0, 7.0, 7.0, 1.0), true),
    ]);
    let mut trails = TrailBuffer::new();
    step_world(&mut w, &no_overlap(2), &mut trails);
    assert_eq!(indices(&w), vec![0, 1]);
    assert_eq!(w.bodies()[0].data.x, 1.0 + 10.0 * dt);
    assert_eq!(w.bodies()[0].data.y, 2.0 + -5.0 * dt);
    assert_eq!(w.bodies()[0].data.xv, 11.0);
    assert_eq!(w.bodies()[1].data.x, 300.0);
    assert_eq!(w.bodies()[1].data.y, 400.0);
    assert_eq!(w.bodies()[1].data.xv, 8.0);
    assert_eq!(w.bodies()[0].next_trail, TRAIL_INTERVAL - 1);
}

#[test]
fn step_with_collision_merges_first() {
    let mut w = world_of(vec![
        (phys(0.0, 0.0, 2.0, 0.0, 10.0), true),
        (phys(10.0, 0.0, 0.0, 0.0, 30.0), false),
    ]);
    w.set_focused_idx(Some(0));
    let mut m = no_overlap(2);
    mark(&mut m, 0, 1);
    let mut trails = TrailBuffer::new();
    step_world(&mut w, &m, &mut trails);
    assert_eq!(w.len(), 1);
    assert!(!w.bodies()[0].immovable);
    assert_eq!(w.focused_idx(), Some(0));
    assert_eq!(w.bodies()[0].data.mass, 40.0);
    assert_eq!(w.bodies()[0].data.x, 5.0 + 0.5 * 0.1);
    assert_eq!(w.bodies()[0].data.xv, 1.5);
}

#[test]
fn remove_selected_on_empty_world_is_noop() {
    let mut w = simple_world(0);
    w.set_focused_idx(Some(2));
    w.remove_selected();
    assert_eq!(w.len(), 0);
    assert_eq!(w.focused_idx(), Some(2));
}

#[test]
fn focus_one_of_three_then_remove_first() {
    let mut w = simple_world(3);
    w.set_focused_idx(Some(1));
    w.remove_body(0);
    assert_eq!(w.focused_idx(), Some(0));
    assert_eq!(w.bodies()[0].data.x, 100.0);
    w.advance_focused_idx();
    assert_eq!(w.focused_idx(), Some(1));
    w.advance_focused_idx();
    assert_eq!(w.focused_idx(), None);
}

#[test]
fn reduce_focus_past_the_end_clamps_to_last() {
    let mut w = simple_world(1);
    w.set_focused_idx(Some(5));
    w.reduce_focused_index();
    assert_eq!(w.focused_idx(), Some(0));
    let mut w = simple_world(3);
    w.set_focused_idx(Some(3));
    w.reduce_focused_index();
    assert_eq!(w.focused_idx(), Some(2));
}

#[test]
fn step_with_collision_still_steps_every_body_and_trails() {
    let mut w = world_of(vec![
        (phys(0.0, 0.0, 0.0, 0.0, 1.0), false),
        (phys(1.0, 0.0, 0.0, 0.0, 1.0), false),
        (phys(500.0, 0.0, 0.0, 0.0, 1.0), true),
    ]);
    let mut m = no_overlap(3);
    mark(&mut m, 0, 1);
    let mut trails = TrailBuffer::new();
    for _ in 0..TRAIL_INTERVAL {
        step_world(&mut w, &m, &mut trails);
        m = no_overlap(w.len());
    }
    assert_eq!(w.len(), 2);
    assert_eq!(w.bodies()[0].data.xv, TRAIL_INTERVAL as f32);
    assert_eq!(w.bodies()[0].data.x, 500.0);
    assert_eq!(w.bodies()[1].data.xv, TRAIL_INTERVAL as f32);
    let ages: Vec<usize> = trails.points().iter().map(|p| p.age).collect();
    assert_eq!(ages, vec![0, 0]);
    assert_eq!(trails.points()[0].point, (500.0, 0.0));
}
