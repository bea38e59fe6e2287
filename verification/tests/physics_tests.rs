use particle_sim::array2d::Array2D;
use particle_sim::color::Color;
use particle_sim::physics::{Physics, Vec2, VerletObject, GRAVITY_Y};

const S: i64 = 65536;

fn red() -> Color {
    Color { r: 255, g: 0, b: 0, a: 255 }
}

fn black() -> Color {
    Color { r: 0, g: 0, b: 0, a: 255 }
}

fn at_rest(x: i64, y: i64) -> VerletObject {
    VerletObject {
        pos: Vec2 { x, y },
        vel: Vec2 { x: 0, y: 0 },
        acc: Vec2 { x: 0, y: 0 },
        color: red(),
    }
}

fn dist2(a: &VerletObject, b: &VerletObject) -> i128 {
    let dx = (a.pos.x - b.pos.x) as i128;
    let dy = (a.pos.y - b.pos.y) as i128;
    dx * dx + dy * dy
}

#[test]
fn integration_from_rest_matches_closed_form() {
    // One sub-step of 273 ticks (1/30 s split into 8) from rest: the
    // position is untouched because the stored acceleration is still
    // zero, and the velocity picks up exactly gravity * dt / 2.
    let mut o = at_rest(5 * S, 5 * S);
    o.movement(273, Vec2 { x: 0, y: GRAVITY_Y });
    assert_eq!(o.pos.x, 5 * S);
    assert_eq!(o.pos.y, 5 * S);
    assert_eq!(o.vel.x, 0);
    assert_eq!(o.vel.y, -13377); // trunc(-98*65536 * 273 / (2*65536))
    assert_eq!(o.acc.x, 0);
    assert_eq!(o.acc.y, GRAVITY_Y);
}

#[test]
fn concrete_scenario_one_particle_one_frame() {
    // A 10x10 world, one red particle at (5.0, 5.0), one 1/30 s frame,
    // rendered into a 10x10 buffer cleared to black: exactly one cell is
    // red, at the floored, gravity-adjusted position.
    let mut sim = Physics::new(10, 10);
    let idx = sim.add_object(5 * S, 5 * S, red());
    assert_eq!(idx, 0);
    sim.update(2184); // trunc(65536 / 30) ticks of a second
    let o = sim.object(0);
    assert_eq!(o.pos.x, 327680);
    assert_eq!(o.pos.y, 324568);
    assert_eq!(o.vel.x, 0);
    assert_eq!(o.vel.y, -200655);
    let mut buffer: Array2D<Color> = Array2D::new(10, 10, black());
    sim.render(&mut buffer);
    let expected_cell = ((o.pos.x / S) as usize, (o.pos.y / S) as usize);
    assert_eq!(expected_cell, (5, 4));
    let mut red_cells = 0;
    for y in 0..10 {
        for x in 0..10 {
            if buffer.get(x, y) == red() {
                red_cells += 1;
                assert_eq!((x, y), expected_cell);
            } else {
                assert_eq!(buffer.get(x, y), black());
            }
        }
    }
    assert_eq!(red_cells, 1);
}

#[test]
fn boundary_containment_left_wall() {
    // A hard kick toward the left wall: the particle is clamped to the
    // wall and its wall-normal velocity is set to exactly zero.
    let mut sim = Physics::new(10, 10);
    let idx = sim.add_object(5 * S, 5 * S, red());
    let mut o = sim.object(idx);
    o.vel.x = -1000 * S;
    sim.set_object(idx, o);
    sim.update(2184);
    let o = sim.object(idx);
    assert_eq!(o.pos.x, 0);
    assert_eq!(o.vel.x, 0);
    assert!(o.pos.y >= 0 && o.pos.y <= 10 * S);
}

#[test]
fn boundary_containment_floor_under_gravity() {
    // Gravity alone drives the particle to the floor; after every update
    // it stays inside the world, and once it rests on the floor its
    // vertical velocity is exactly zero.
    let mut sim = Physics::new(10, 10);
    let idx = sim.add_object(5 * S, 5 * S, red());
    for _ in 0..100 {
        sim.update(2184);
        let o = sim.object(idx);
        assert!(o.pos.x >= 0 && o.pos.x <= 10 * S);
        assert!(o.pos.y >= 0 && o.pos.y <= 10 * S);
    }
    let o = sim.object(idx);
    assert_eq!(o.pos.y, 0);
    assert_eq!(o.vel.y, 0);
}

#[test]
fn collision_separates_half_overlapping_pair() {
    // Two particles half a diameter apart: one resolution pushes them to
    // exactly one diameter, and a further call changes nothing.
    let mut a = at_rest(327680 + S / 2, 327680); // the later particle
    let mut b = at_rest(327680, 327680);
    let d2_before = dist2(&a, &b);
    assert_eq!(d2_before, (S as i128 / 2) * (S as i128 / 2));
    a.check_collision(&mut b);
    assert_eq!(a.pos.x, 376832);
    assert_eq!(b.pos.x, 311296);
    assert_eq!(a.vel.x, 1638400);
    assert_eq!(b.vel.x, -1638400);
    let d2_after = dist2(&a, &b);
    assert!(d2_after > d2_before);
    assert_eq!(d2_after, (S as i128) * (S as i128));
    let (a1, b1) = (a, b);
    a.check_collision(&mut b);
    assert_eq!(a, a1);
    assert_eq!(b, b1);
}

#[test]
fn collision_separation_is_monotonic_while_overlapping() {
    // Three ticks apart: the first resolution leaves the pair still just
    // overlapping; repeated calls never pull them back together.
    let mut a = at_rest(327683, 327680);
    let mut b = at_rest(327680, 327680);
    let mut last = dist2(&a, &b);
    for _ in 0..4 {
        a.check_collision(&mut b);
        let now = dist2(&a, &b);
        assert!(now >= last);
        last = now;
    }
    assert_eq!(a.pos.x, 360449);
    assert_eq!(b.pos.x, 294914);
}

#[test]
fn coincident_centers_are_skipped() {
    // Degenerate geometry: two particles at the same point are left
    // untouched rather than divided by zero.
    let mut a = at_rest(5 * S, 5 * S);
    let mut b = at_rest(5 * S, 5 * S);
    a.check_collision(&mut b);
    assert_eq!(a, at_rest(5 * S, 5 * S));
    assert_eq!(b, at_rest(5 * S, 5 * S));
}

#[test]
fn no_particle_loss_across_updates() {
    let mut sim = Physics::new(10, 10);
    let c0 = Color { r: 10, g: 20, b: 30, a: 255 };
    let c1 = Color { r: 40, g: 50, b: 60, a: 255 };
    let c2 = Color { r: 70, g: 80, b: 90, a: 255 };
    assert_eq!(sim.add_object(1 * S, 1 * S, c0), 0);
    assert_eq!(sim.add_object(3 * S, 7 * S, c1), 1);
    assert_eq!(sim.add_object(8 * S, 2 * S, c2), 2);
    assert_eq!(sim.object_count(), 3);
    for _ in 0..5 {
        sim.update(2184);
    }
    assert_eq!(sim.object_count(), 3);
    // handles stay valid and colors are never touched by updates
    assert_eq!(sim.object(0).color, c0);
    assert_eq!(sim.object(1).color, c1);
    assert_eq!(sim.object(2).color, c2);
}

#[test]
fn render_twice_is_bit_identical() {
    let mut sim = Physics::new(10, 10);
    sim.add_object(2 * S, 3 * S, red());
    sim.add_object(7 * S + 123, 1 * S + 456, Color { r: 0, g: 255, b: 0, a: 255 });
    let mut first: Array2D<Color> = Array2D::new(10, 10, black());
    sim.render(&mut first);
    let snapshot: Vec<Color> = first.as_vec().clone();
    sim.render(&mut first);
    assert_eq!(first.as_vec(), &snapshot);
    // and a fresh buffer gets the same image
    let mut second: Array2D<Color> = Array2D::new(10, 10, black());
    sim.render(&mut second);
    assert_eq!(second.as_vec(), &snapshot);
}

#[test]
fn render_last_write_wins_in_shared_cell() {
    let mut sim = Physics::new(10, 10);
    let green = Color { r: 0, g: 255, b: 0, a: 255 };
    sim.add_object(4 * S + 100, 4 * S + 100, red());
    sim.add_object(4 * S + 900, 4 * S + 900, green); // same cell, added later
    let mut buffer: Array2D<Color> = Array2D::new(10, 10, black());
    sim.render(&mut buffer);
    assert_eq!(buffer.get(4, 4), green);
}

#[test]
fn far_edge_particle_renders_into_last_cell() {
    let mut sim = Physics::new(10, 10);
    sim.add_object(10 * S - 1, 10 * S - 1, red());
    let mut buffer: Array2D<Color> = Array2D::new(10, 10, black());
    sim.render(&mut buffer);
    assert_eq!(buffer.get(9, 9), red());
}

#[test]
fn engine_frame_separates_overlapping_pair() {
    // Two particles spawned half a diameter apart fly apart within one
    // frame of collision resolution and integration, and stay inside the
    // world.
    let green = Color { r: 0, g: 255, b: 0, a: 255 };
    let mut sim = Physics::new(10, 10);
    let i0 = sim.add_object(5 * S, 5 * S, red());
    let i1 = sim.add_object(5 * S + S / 2, 5 * S, green);
    sim.update(2184);
    let a = sim.object(i0);
    let b = sim.object(i1);
    assert_eq!((a.pos.x, a.pos.y), (256696, 324568));
    assert_eq!((b.pos.x, b.pos.y), (431432, 324568));
    assert_eq!(a.vel.x, -1638400);
    assert_eq!(b.vel.x, 1638400);
    assert!(dist2(&a, &b) >= (S as i128) * (S as i128));
}

#[test]
fn new_engine_is_empty() {
    let sim = Physics::new(12, 34);
    assert_eq!(sim.width(), 12);
    assert_eq!(sim.height(), 34);
    assert_eq!(sim.object_count(), 0);
}
