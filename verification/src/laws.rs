use crate::color::Color;
use crate::fixed::{tdiv, SCALE};
use crate::physics::{
    collide_pair, dist2_of, gravity, in_world, integrate_spec, move_one, rendered, VerletObject,
    GRAVITY_Y, MAX_DIM,
};
use vstd::prelude::*;

verus! {

broadcast use crate::fixed::lemma_to64;

/// Integration from rest: a particle with zero velocity and zero stored
/// acceleration does not move on its first sub-step, since gravity only
/// enters the velocity at the midpoint term; its vertical velocity becomes
/// exactly half a sub-step of gravity, `gravity * dt / 2`.
pub proof fn lemma_first_substep_from_rest(o: VerletObject, st: i64)
    requires
        o.vel.x == 0,
        o.vel.y == 0,
        o.acc.x == 0,
        o.acc.y == 0,
        0 <= st,
        (st as int) <= SCALE as int,
    ensures
        integrate_spec(o, st as int, gravity()).pos == o.pos,
        integrate_spec(o, st as int, gravity()).vel.x == 0,
        (integrate_spec(o, st as int, gravity()).vel.y as int) == tdiv(
            (GRAVITY_Y as int) * (st as int),
            2 * (SCALE as int),
        ),
{
    let g = GRAVITY_Y as int;
    let s = st as int;
    assert((o.vel.x as int) * s == 0) by (nonlinear_arith)
        requires
            (o.vel.x as int) == 0,
    ;
    assert((o.vel.y as int) * s == 0) by (nonlinear_arith)
        requires
            (o.vel.y as int) == 0,
    ;
    assert((o.acc.x as int) * s == 0) by (nonlinear_arith)
        requires
            (o.acc.x as int) == 0,
    ;
    assert((o.acc.y as int) * s == 0) by (nonlinear_arith)
        requires
            (o.acc.y as int) == 0,
    ;
    assert(-(98 * 65536 * 65536) <= g * s <= 0) by (nonlinear_arith)
        requires
            0 <= s <= 65536,
            g == -98 * 65536,
    ;
    crate::fixed::lemma_tdiv_in_bounds(g * s, 2 * (SCALE as int));
}

/// Boundary containment: a movement pass leaves every particle inside the
/// world box, and an axis whose position had to be clamped to a wall has
/// its velocity component set to exactly zero (inelastic wall contact).
pub proof fn lemma_wall_contact(o: VerletObject, st: int, w: int, h: int)
    requires
        1 <= w <= MAX_DIM as int,
        1 <= h <= MAX_DIM as int,
    ensures
        in_world(move_one(o, st, w, h), w, h),
        0 <= (move_one(o, st, w, h).pos.x as int) <= w * (SCALE as int),
        0 <= (move_one(o, st, w, h).pos.y as int) <= h * (SCALE as int),
        (integrate_spec(o, st, gravity()).pos.x as int) < 0 ==> move_one(o, st, w, h).pos.x == 0
            && move_one(o, st, w, h).vel.x == 0,
        (integrate_spec(o, st, gravity()).pos.x as int) > w * (SCALE as int) - 1 ==> (move_one(
            o,
            st,
            w,
            h,
        ).pos.x as int) == w * (SCALE as int) - 1 && move_one(o, st, w, h).vel.x == 0,
        (integrate_spec(o, st, gravity()).pos.y as int) < 0 ==> move_one(o, st, w, h).pos.y == 0
            && move_one(o, st, w, h).vel.y == 0,
        (integrate_spec(o, st, gravity()).pos.y as int) > h * (SCALE as int) - 1 ==> (move_one(
            o,
            st,
            w,
            h,
        ).pos.y as int) == h * (SCALE as int) - 1 && move_one(o, st, w, h).vel.y == 0,
{
}

/// Render idempotence modulo particle motion: rasterizing the same pool a
/// second time, with no update in between, writes the same colors to the
/// same cells and leaves every other cell alone, so the buffer is
/// bit-identical to the first pass.
pub proof fn lemma_render_idempotent(cells: Seq<Color>, objs: Seq<VerletObject>, w: int)
    ensures
        rendered(rendered(cells, objs, objs.len() as int, w), objs, objs.len() as int, w)
            == rendered(cells, objs, objs.len() as int, w),
{
    let once = rendered(cells, objs, objs.len() as int, w);
    let twice = rendered(once, objs, objs.len() as int, w);
    assert forall|ci: int| 0 <= ci < once.len() implies twice[ci] == once[ci] by {
    }
    assert(twice =~= once);
}

/// No particle loss: however many sub-steps the engine runs, the particle
/// pool keeps exactly the same length, so every handle `add_object`
/// returned stays resolvable and `update` never drops or duplicates a
/// particle.
pub proof fn lemma_no_particle_loss(
    cells: Seq<crate::physics::Cell>,
    objs: Seq<VerletObject>,
    st: int,
    w: int,
    h: int,
    k: nat,
)
    ensures
        crate::physics::evolve(cells, objs, st, w, h, k).1.len() == objs.len(),
    decreases k,
{
    if k > 0 {
        lemma_no_particle_loss(cells, objs, st, w, h, (k - 1) as nat);
        let prev = crate::physics::evolve(cells, objs, st, w, h, (k - 1) as nat);
        crate::physics::lemma_sweep_from_preserves(prev.1, 0, 1);
    }
}

/// Positions of this magnitude keep every collision computation exact (no
/// saturation): the bound comfortably covers any position inside a
/// maximal world, plus any displacement a sweep can add.
pub open spec fn moderate(o: VerletObject) -> bool {
    &&& -0x100_0000_0000 <= (o.pos.x as int) <= 0x100_0000_0000
    &&& -0x100_0000_0000 <= (o.pos.y as int) <= 0x100_0000_0000
}

/// One axis of a pair resolution: pushing the components apart along the
/// axis never shrinks the component's magnitude, and grows it by at least
/// two ticks once the push numerator clears the divisor.
proof fn lemma_axis_separation(ax: int, delta: int, dist: int)
    requires
        1 <= dist,
        0 <= delta <= 32768,
        -65536 < ax < 65536,
    ensures
        -0x8000_0000 <= tdiv(ax * delta, dist) <= 0x8000_0000,
        ax >= 0 ==> tdiv(ax * delta, dist) >= 0,
        ax < 0 ==> tdiv(ax * delta, dist) <= 0,
        (ax + 2 * tdiv(ax * delta, dist)) * (ax + 2 * tdiv(ax * delta, dist)) >= ax * ax,
        (2 * ax >= dist && delta >= 2) ==> (ax + 2 * tdiv(ax * delta, dist)) * (ax + 2 * tdiv(
            ax * delta,
            dist,
        )) >= ax * ax + 4,
        (-2 * ax >= dist && delta >= 2) ==> (ax + 2 * tdiv(ax * delta, dist)) * (ax + 2 * tdiv(
            ax * delta,
            dist,
        )) >= ax * ax + 4,
{
    let u = ax * delta;
    assert(-0x8000_0000 <= u <= 0x8000_0000) by (nonlinear_arith)
        requires
            -65536 < ax < 65536,
            0 <= delta <= 32768,
            u == ax * delta,
    ;
    crate::fixed::lemma_tdiv_in_bounds(u, dist);
    let p = tdiv(u, dist);
    if ax >= 0 {
        assert(u >= 0) by (nonlinear_arith)
            requires
                ax >= 0,
                delta >= 0,
                u == ax * delta,
        ;
        assert(p >= 0);
        assert((ax + 2 * p) * (ax + 2 * p) >= ax * ax) by (nonlinear_arith)
            requires
                ax >= 0,
                p >= 0,
        ;
        if 2 * ax >= dist && delta >= 2 {
            assert(u >= 2 * ax) by (nonlinear_arith)
                requires
                    ax >= 0,
                    delta >= 2,
                    u == ax * delta,
            ;
            vstd::arithmetic::div_mod::lemma_div_non_zero(u, dist);
            assert(p >= 1);
            assert((ax + 2 * p) * (ax + 2 * p) >= ax * ax + 4) by (nonlinear_arith)
                requires
                    ax >= 0,
                    p >= 1,
            ;
        }
        assert(-2 * ax >= dist && delta >= 2 ==> false);
    } else {
        assert(u <= 0) by (nonlinear_arith)
            requires
                ax < 0,
                delta >= 0,
                u == ax * delta,
        ;
        assert(p <= 0);
        assert((ax + 2 * p) * (ax + 2 * p) >= ax * ax) by (nonlinear_arith)
            requires
                ax < 0,
                p <= 0,
        ;
        if -2 * ax >= dist && delta >= 2 {
            assert(-u >= -2 * ax) by (nonlinear_arith)
                requires
                    ax < 0,
                    delta >= 2,
                    u == ax * delta,
            ;
            vstd::arithmetic::div_mod::lemma_div_non_zero(-u, dist);
            assert(p <= -1);
            assert((ax + 2 * p) * (ax + 2 * p) >= ax * ax + 4) by (nonlinear_arith)
                requires
                    ax < 0,
                    p <= -1,
            ;
        }
    }
}

/// Collision separation: resolving an overlapping pair never moves the
/// two centers closer together, and while the overlap is more than a few
/// ticks away from a full diameter it moves them strictly apart. (At a
/// center distance within four ticks of one diameter the rounded push can
/// be zero, and coincident centers are skipped; neither case shrinks the
/// distance.)
pub proof fn lemma_collision_separation(a: VerletObject, b: VerletObject)
    requires
        moderate(a),
        moderate(b),
    ensures
        dist2_of(collide_pair(a, b).0, collide_pair(a, b).1) >= dist2_of(a, b),
        (0 < dist2_of(a, b) && dist2_of(a, b) <= ((SCALE as int) - 4) * ((SCALE as int) - 4)) ==> dist2_of(
            collide_pair(a, b).0,
            collide_pair(a, b).1,
        ) > dist2_of(a, b),
{
    let axe = (a.pos.x as int) - (b.pos.x as int);
    let aye = (a.pos.y as int) - (b.pos.y as int);
    let d2 = dist2_of(a, b);
    assert(d2 == axe * axe + aye * aye);
    assert(axe * axe >= 0) by (nonlinear_arith);
    assert(aye * aye >= 0) by (nonlinear_arith);
    let s = SCALE as int;
    if d2 == 0 || d2 >= s * s {
        assert(collide_pair(a, b).0 == a);
        assert(collide_pair(a, b).1 == b);
        assert((65536 - 4) * (65536 - 4) < s * s);
    } else {
        crate::fixed::lemma_sqrt_of_bounds(d2);
        let dist = crate::fixed::sqrt_of(d2);
        if dist == 0 {
            assert(d2 < (0 + 1) * (0 + 1));
            assert(false);
        }
        if dist >= s {
            assert(dist * dist >= s * s) by (nonlinear_arith)
                requires
                    dist >= s >= 0,
            ;
            assert(false);
        }
        assert(-s < axe < s) by (nonlinear_arith)
            requires
                axe * axe <= d2,
                d2 < s * s,
                s > 0,
        ;
        assert(-s < aye < s) by (nonlinear_arith)
            requires
                aye * aye <= d2,
                d2 < s * s,
                s > 0,
        ;
        let delta = (s - dist) / 2;
        assert(0 <= delta <= 32768);
        let px = tdiv(axe * delta, dist);
        let py = tdiv(aye * delta, dist);
        lemma_axis_separation(axe, delta, dist);
        lemma_axis_separation(aye, delta, dist);
        // no saturation anywhere: the axis, the pushes and the new
        // positions all stay well inside the `i64` range
        let a0 = collide_pair(a, b).0;
        let b0 = collide_pair(a, b).1;
        assert((a0.pos.x as int) == (a.pos.x as int) + px);
        assert((a0.pos.y as int) == (a.pos.y as int) + py);
        assert((b0.pos.x as int) == (b.pos.x as int) - px);
        assert((b0.pos.y as int) == (b.pos.y as int) - py);
        let nax = axe + 2 * px;
        let nay = aye + 2 * py;
        assert(dist2_of(a0, b0) == nax * nax + nay * nay);
        assert(nax * nax >= axe * axe);
        assert(nay * nay >= aye * aye);
        if d2 <= (65536 - 4) * (65536 - 4) {
            // the centers are at least four ticks short of one diameter,
            // so the push is at least one tick along the dominant axis
            assert(dist <= s - 4) by (nonlinear_arith)
                requires
                    dist * dist <= d2,
                    d2 <= (65536 - 4) * (65536 - 4),
                    s == 65536,
                    dist >= 0,
            ;
            assert(delta >= 2);
            // some component dominates: twice its magnitude reaches `dist`
            if 2 * axe < dist && -2 * axe < dist && 2 * aye < dist && -2 * aye < dist {
                assert(false) by (nonlinear_arith)
                    requires
                        2 * axe < dist,
                        -2 * axe < dist,
                        2 * aye < dist,
                        -2 * aye < dist,
                        dist * dist <= axe * axe + aye * aye,
                        dist >= 1,
                ;
            }
            assert(nax * nax + nay * nay > axe * axe + aye * aye);
        }
    }
}

} // verus!
