use crate::array2d::Array2D;
use crate::color::Color;
use crate::fixed::{clip, mul_div, sat_add, sat_sub, isqrt, sqrt_of, tdiv, to64, SCALE};
use vstd::prelude::*;

verus! {

broadcast use crate::fixed::lemma_to64;

/// A two-component fixed-point vector: each component counts ticks of
/// `1 / SCALE` world units.
#[derive(Clone, Copy, PartialEq, Eq, Structural, Debug)]
pub struct Vec2 {
    pub x: i64,
    pub y: i64,
}

/// A single simulated point mass: position, velocity and acceleration in
/// fixed-point world coordinates, plus a display color. Every particle has
/// an implicit radius of half a world unit, so two particles touch at a
/// center distance of one world unit (`SCALE` ticks).
#[derive(Clone, Copy, PartialEq, Eq, Structural, Debug)]
pub struct VerletObject {
    pub pos: Vec2,
    pub vel: Vec2,
    pub acc: Vec2,
    pub color: Color,
}

/// Downward gravity, in ticks per second per second.
pub const GRAVITY_Y: i64 = -98 * SCALE;

/// The constant external acceleration applied on every sub-step.
pub open spec fn gravity() -> Vec2 {
    Vec2 { x: 0, y: GRAVITY_Y }
}

/// One velocity-Verlet integration step of length `dt` ticks of a second,
/// under new external acceleration `ext`:
///
/// ```text
/// new_pos = pos + vel*dt + acc*dt^2/2
/// new_vel = vel + (acc + ext)*dt/2
/// new_acc = ext
/// ```
///
/// Every product is scaled back by `SCALE` with truncation toward zero and
/// every sum saturates into the `i64` range, in exactly the order the
/// executable step performs them.
pub open spec fn integrate_spec(o: VerletObject, dt: int, ext: Vec2) -> VerletObject {
    let t1x = clip(tdiv((o.vel.x as int) * dt, SCALE as int));
    let tax = clip(tdiv((o.acc.x as int) * dt, SCALE as int));
    let t2x = clip(tdiv(tax * dt, 2 * (SCALE as int)));
    let t1y = clip(tdiv((o.vel.y as int) * dt, SCALE as int));
    let tay = clip(tdiv((o.acc.y as int) * dt, SCALE as int));
    let t2y = clip(tdiv(tay * dt, 2 * (SCALE as int)));
    let sx = clip((o.acc.x as int) + (ext.x as int));
    let sy = clip((o.acc.y as int) + (ext.y as int));
    VerletObject {
        pos: Vec2 {
            x: to64(clip((o.pos.x as int) + t1x) + t2x),
            y: to64(clip((o.pos.y as int) + t1y) + t2y),
        },
        vel: Vec2 {
            x: to64((o.vel.x as int) + clip(tdiv(sx * dt, 2 * (SCALE as int)))),
            y: to64((o.vel.y as int) + clip(tdiv(sy * dt, 2 * (SCALE as int)))),
        },
        acc: ext,
        color: o.color,
    }
}

/// Clamp a particle into the world box `[0, w) x [0, h)` (in world units):
/// each position component is pinned to `[0, w*SCALE - 1]`, and a component
/// that had to be pinned has its velocity component zeroed (inelastic wall
/// contact). The upper bound is the greatest representable position
/// strictly inside the world, so a clamped particle always floors to an
/// in-range grid cell.
pub open spec fn clamp_spec(o: VerletObject, w: int, h: int) -> VerletObject {
    let lx = w * (SCALE as int) - 1;
    let ly = h * (SCALE as int) - 1;
    VerletObject {
        pos: Vec2 {
            x: if (o.pos.x as int) < 0 {
                0i64
            } else if (o.pos.x as int) > lx {
                to64(lx)
            } else {
                o.pos.x
            },
            y: if (o.pos.y as int) < 0 {
                0i64
            } else if (o.pos.y as int) > ly {
                to64(ly)
            } else {
                o.pos.y
            },
        },
        vel: Vec2 {
            x: if (o.pos.x as int) < 0 || (o.pos.x as int) > lx {
                0i64
            } else {
                o.vel.x
            },
            y: if (o.pos.y as int) < 0 || (o.pos.y as int) > ly {
                0i64
            } else {
                o.vel.y
            },
        },
        acc: o.acc,
        color: o.color,
    }
}

/// One whole movement pass on one particle: integrate under gravity, then
/// clamp to the world box.
pub open spec fn move_one(o: VerletObject, dt: int, w: int, h: int) -> VerletObject {
    clamp_spec(integrate_spec(o, dt, gravity()), w, h)
}

/// The particle sits inside the world box, strictly below the far edge.
pub open spec fn in_world(o: VerletObject, w: int, h: int) -> bool {
    &&& 0 <= (o.pos.x as int) < w * (SCALE as int)
    &&& 0 <= (o.pos.y as int) < h * (SCALE as int)
}

/// The squared center distance of two particles, in ticks squared.
pub open spec fn dist2_of(a: VerletObject, b: VerletObject) -> int {
    let dx = (a.pos.x as int) - (b.pos.x as int);
    let dy = (a.pos.y as int) - (b.pos.y as int);
    dx * dx + dy * dy
}

/// Pairwise soft-body collision response. With `axis = a.pos - b.pos` and
/// `d2 = |axis|^2` (both saturated into `i64` range), nothing happens
/// unless `0 < d2 < SCALE^2` (overlap with distinct centers; coincident
/// centers are skipped so that no division by zero can arise). On overlap,
/// `delta = (SCALE - dist)/2` is half the remaining gap to one diameter:
/// both particles are pushed apart along the axis by `delta`, and a
/// velocity correction of `axis/dist * delta * 100` is added to `a` and
/// subtracted from `b` — an empirically tuned positional-correction
/// impulse, not a physical restitution law.
pub open spec fn collide_pair(a: VerletObject, b: VerletObject) -> (VerletObject, VerletObject) {
    let ax = clip((a.pos.x as int) - (b.pos.x as int));
    let ay = clip((a.pos.y as int) - (b.pos.y as int));
    let d2 = ax * ax + ay * ay;
    if d2 == 0 || d2 >= (SCALE as int) * (SCALE as int) {
        (a, b)
    } else {
        let dist = sqrt_of(d2);
        let delta = ((SCALE as int) - dist) / 2;
        let px = clip(tdiv(ax * delta, dist));
        let py = clip(tdiv(ay * delta, dist));
        let vx = clip(tdiv(ax * (delta * 100), dist));
        let vy = clip(tdiv(ay * (delta * 100), dist));
        (
            VerletObject {
                pos: Vec2 { x: to64((a.pos.x as int) + px), y: to64((a.pos.y as int) + py) },
                vel: Vec2 { x: to64((a.vel.x as int) + vx), y: to64((a.vel.y as int) + vy) },
                acc: a.acc,
                color: a.color,
            },
            VerletObject {
                pos: Vec2 { x: to64((b.pos.x as int) - px), y: to64((b.pos.y as int) - py) },
                vel: Vec2 { x: to64((b.vel.x as int) - vx), y: to64((b.vel.y as int) - vy) },
                acc: b.acc,
                color: b.color,
            },
        )
    }
}

/// A spatial bucket: one cell of the broad-phase grid, holding up to seven
/// particle indices and an occupancy count.
#[derive(Clone, Copy)]
pub struct Cell {
    pub count: u8,
    pub indices: [u8; 7],
}

/// The grid column a particle falls in: its position in world units,
/// rounded toward zero. Positions are kept non-negative by clamping, so
/// this is the floored cell coordinate.
pub open spec fn cell_x(o: VerletObject) -> int {
    tdiv(o.pos.x as int, SCALE as int)
}

/// The grid row a particle falls in.
pub open spec fn cell_y(o: VerletObject) -> int {
    tdiv(o.pos.y as int, SCALE as int)
}

/// The row-major linear index of the cell a particle falls in.
pub open spec fn cell_index(o: VerletObject, w: int) -> int {
    cell_x(o) + cell_y(o) * w
}

/// The index of the last particle among the first `k` whose cell is `ci`,
/// or `-1` if none falls there.
pub open spec fn last_at(objs: Seq<VerletObject>, k: int, ci: int, w: int) -> int
    decreases k,
{
    if k <= 0 {
        -1
    } else if cell_index(objs[k - 1], w) == ci {
        k - 1
    } else {
        last_at(objs, k - 1, ci, w)
    }
}

/// A bucket after the population pass records particle index `idx`
/// (reduced to the 8-bit index type) in its `count` slot. The pass never
/// advances `count`, so with counts at zero every write lands in the first
/// slot and later writes to the same cell overwrite earlier ones; the
/// collision sweep below checks all pairs and does not consume the
/// buckets.
pub open spec fn bucket_after(c: Cell, idx: int) -> Cell {
    Cell {
        count: c.count,
        indices: vstd::array::spec_array_update(c.indices, c.count as int, (idx % 256) as u8),
    }
}

/// The bucket grid after the first `k` particles have been recorded: each
/// cell either holds the last particle index that mapped to it, or is
/// untouched.
pub open spec fn populate_upto(cells: Seq<Cell>, objs: Seq<VerletObject>, k: int, w: int) -> Seq<
    Cell,
> {
    Seq::new(
        cells.len(),
        |ci: int|
            {
                let lw = last_at(objs, k, ci, w);
                if lw >= 0 {
                    bucket_after(cells[ci], lw)
                } else {
                    cells[ci]
                }
            },
    )
}

/// The pixel buffer after the first `k` particles have been rasterized:
/// each cell holds the color of the last particle that floors to it
/// (last write wins), or its previous contents if none does.
pub open spec fn rendered(cells: Seq<Color>, objs: Seq<VerletObject>, k: int, w: int) -> Seq<
    Color,
> {
    Seq::new(
        cells.len(),
        |ci: int|
            {
                let lw = last_at(objs, k, ci, w);
                if lw >= 0 {
                    objs[lw].color
                } else {
                    cells[ci]
                }
            },
    )
}

impl VerletObject {
    /// One velocity-Verlet integration step; see `integrate_spec`.
    pub fn movement(&mut self, dt: i64, acc: Vec2)
        ensures
            *final(self) == integrate_spec(*old(self), dt as int, acc),
    {
        let t1x = mul_div(self.vel.x, dt, SCALE);
        let tax = mul_div(self.acc.x, dt, SCALE);
        let t2x = mul_div(tax, dt, 2 * SCALE);
        let t1y = mul_div(self.vel.y, dt, SCALE);
        let tay = mul_div(self.acc.y, dt, SCALE);
        let t2y = mul_div(tay, dt, 2 * SCALE);
        let sx = sat_add(self.acc.x, acc.x);
        let sy = sat_add(self.acc.y, acc.y);
        let dvx = mul_div(sx, dt, 2 * SCALE);
        let dvy = mul_div(sy, dt, 2 * SCALE);
        self.pos.x = sat_add(sat_add(self.pos.x, t1x), t2x);
        self.pos.y = sat_add(sat_add(self.pos.y, t1y), t2y);
        self.vel.x = sat_add(self.vel.x, dvx);
        self.vel.y = sat_add(self.vel.y, dvy);
        self.acc = acc;
    }

    /// Pairwise collision response; see `collide_pair`. `self` is pushed
    /// along the positive contact axis, `other` along the negative one.
    pub fn check_collision(&mut self, other: &mut VerletObject)
        ensures
            *final(self) == collide_pair(*old(self), *old(other)).0,
            *final(other) == collide_pair(*old(self), *old(other)).1,
    {
        let ax = sat_sub(self.pos.x, other.pos.x);
        let ay = sat_sub(self.pos.y, other.pos.y);
        if ax >= SCALE || ax <= -SCALE || ay >= SCALE || ay <= -SCALE {
            // The centers are at least one diameter apart on some axis.
            proof {
                assert((ax as int) * (ax as int) + (ay as int) * (ay as int) >= (SCALE as int) * (
                SCALE as int)) by (nonlinear_arith)
                    requires
                        (ax as int) >= SCALE as int || (ax as int) <= -(SCALE as int) || (
                        ay as int) >= SCALE as int || (ay as int) <= -(SCALE as int),
                ;
            }
            return ;
        }
        proof {
            assert(0 <= (ax as int) * (ax as int) < (SCALE as int) * (SCALE as int))
                by (nonlinear_arith)
                requires
                    -(SCALE as int) < (ax as int) < SCALE as int,
            ;
            assert(0 <= (ay as int) * (ay as int) < (SCALE as int) * (SCALE as int))
                by (nonlinear_arith)
                requires
                    -(SCALE as int) < (ay as int) < SCALE as int,
            ;
        }
        let d2: i64 = ax * ax + ay * ay;
        if d2 == 0 || d2 >= SCALE * SCALE {
            return ;
        }
        let dist: u64 = isqrt(d2 as u64);
        proof {
            crate::fixed::lemma_sqrt_of_bounds(d2 as int);
            // `d2 >= 1` forces `dist >= 1`, and `d2 < SCALE^2` forces
            // `dist < SCALE`.
            if dist == 0 {
                assert((d2 as int) < (0 + 1) * (0 + 1));
                assert(false);
            }
            if (dist as int) * (dist as int) >= (SCALE as int) * (SCALE as int) {
                assert(false);
            }
            assert((dist as int) < SCALE as int) by (nonlinear_arith)
                requires
                    (dist as int) * (dist as int) < (SCALE as int) * (SCALE as int),
                    (dist as int) >= 0,
            ;
        }
        let delta: i64 = (((SCALE as u64) - dist) / 2) as i64;
        let px = mul_div(ax, delta, dist as i64);
        let py = mul_div(ay, delta, dist as i64);
        let vx = mul_div(ax, delta * 100, dist as i64);
        let vy = mul_div(ay, delta * 100, dist as i64);
        self.pos.x = sat_add(self.pos.x, px);
        self.pos.y = sat_add(self.pos.y, py);
        self.vel.x = sat_add(self.vel.x, vx);
        self.vel.y = sat_add(self.vel.y, vy);
        other.pos.x = sat_sub(other.pos.x, px);
        other.pos.y = sat_sub(other.pos.y, py);
        other.vel.x = sat_sub(other.vel.x, vx);
        other.vel.y = sat_sub(other.vel.y, vy);
    }
}

/// The engine state after `k` sub-steps of length `st` ticks of a second:
/// each sub-step repopulates the buckets from current positions, runs the
/// all-pairs collision sweep, then integrates every particle one sub-step
/// under gravity and clamps it into the world box.
pub open spec fn evolve(
    cells: Seq<Cell>,
    objs: Seq<VerletObject>,
    st: int,
    w: int,
    h: int,
    k: nat,
) -> (Seq<Cell>, Seq<VerletObject>)
    decreases k,
{
    if k == 0 {
        (cells, objs)
    } else {
        let prev = evolve(cells, objs, st, w, h, (k - 1) as nat);
        (
            populate_upto(prev.0, prev.1, prev.1.len() as int, w),
            sweep(prev.1).map_values(|o: VerletObject| move_one(o, st, w, h)),
        )
    }
}

/// The largest accepted world dimension, in cells: it keeps every
/// fixed-point position well inside the `i64` range.
pub const MAX_DIM: usize = 1048576;

/// The simulation engine: a growable particle pool and a spatial bucket
/// grid sized to the world. Positions live in `[0, w) x [0, h)` world
/// units; one grid cell spans one world unit.
pub struct Physics {
    w: usize,
    h: usize,
    objects: Vec<VerletObject>,
    grid: Array2D<Cell>,
}

/// Every bucket's occupancy count sits at zero.
pub open spec fn counts_zero(cells: Seq<Cell>) -> bool {
    forall|k: int| 0 <= k < cells.len() ==> cells[k].count == 0
}

/// The all-zero bucket fill a fresh engine starts from: no occupancy and
/// all seven index slots zero.
pub open spec fn zero_cell(c: Cell) -> bool {
    &&& c.count == 0
    &&& c.indices@.len() == 7
    &&& forall|j: int| 0 <= j < 7 ==> c.indices@[j] == 0
}

/// One pair resolution inside the all-pairs sweep: the later particle
/// `s[i2]` collides against the earlier `s[i1]`.
pub open spec fn step_pair(s: Seq<VerletObject>, i1: int, i2: int) -> Seq<VerletObject> {
    let pr = collide_pair(s[i2], s[i1]);
    s.update(i2, pr.0).update(i1, pr.1)
}

/// The rest of the all-pairs collision sweep, starting at pair
/// `(i1, i2)`: pairs are visited in order `(0,1), (0,2), ..., (0,n-1),
/// (1,2), ...`, each resolution feeding the next.
pub open spec fn sweep_from(s: Seq<VerletObject>, i1: int, i2: int) -> Seq<VerletObject>
    decreases s.len() - i1, s.len() - i2 + 1,
{
    let n = s.len() as int;
    if 0 <= i1 && i1 < n && i1 < i2 {
        if i2 < n {
            sweep_from(step_pair(s, i1, i2), i1, i2 + 1)
        } else {
            sweep_from(s, i1 + 1, i1 + 2)
        }
    } else {
        s
    }
}

/// The whole all-pairs collision sweep.
pub open spec fn sweep(s: Seq<VerletObject>) -> Seq<VerletObject> {
    sweep_from(s, 0, 1)
}

/// The sweep moves particles around but neither adds, removes nor
/// recolors them.
pub proof fn lemma_sweep_from_preserves(s: Seq<VerletObject>, i1: int, i2: int)
    ensures
        sweep_from(s, i1, i2).len() == s.len(),
        forall|j: int|
            0 <= j < s.len() ==> (#[trigger] sweep_from(s, i1, i2)[j]).color == s[j].color,
    decreases s.len() - i1, s.len() - i2 + 1,
{
    let n = s.len() as int;
    if 0 <= i1 && i1 < n && i1 < i2 {
        if i2 < n {
            lemma_sweep_from_preserves(step_pair(s, i1, i2), i1, i2 + 1);
            assert(forall|j: int|
                0 <= j < n ==> (#[trigger] step_pair(s, i1, i2)[j]).color == s[j].color);
        } else {
            lemma_sweep_from_preserves(s, i1 + 1, i1 + 2);
        }
    }
}

/// An in-world particle floors to an in-range grid cell.
pub proof fn lemma_cell_in_range(o: VerletObject, w: int, h: int)
    requires
        in_world(o, w, h),
        1 <= w,
        1 <= h,
    ensures
        0 <= cell_x(o) < w,
        0 <= cell_y(o) < h,
{
    let px = o.pos.x as int;
    let py = o.pos.y as int;
    assert(px == 65536 * (px / 65536) + px % 65536);
    assert(py == 65536 * (py / 65536) + py % 65536);
}

/// A clamped particle ends up inside the world box.
pub proof fn lemma_move_one_in_world(o: VerletObject, dt: int, w: int, h: int)
    requires
        1 <= w <= MAX_DIM as int,
        1 <= h <= MAX_DIM as int,
    ensures
        in_world(move_one(o, dt, w, h), w, h),
{
}

impl Physics {
    /// The world width, in cells.
    pub closed spec fn spec_width(self) -> int {
        self.w as int
    }

    /// The world height, in cells.
    pub closed spec fn spec_height(self) -> int {
        self.h as int
    }

    /// The particle pool, in insertion order.
    pub closed spec fn particles(self) -> Seq<VerletObject> {
        self.objects@
    }

    /// The bucket grid, as its row-major cell sequence.
    pub closed spec fn buckets(self) -> Seq<Cell> {
        self.grid.cells()
    }

    /// The private structural part of well-formedness: the grid's own
    /// invariant holds and its dimensions are the world's.
    pub closed spec fn grid_wf(self) -> bool {
        &&& self.grid.wf()
        &&& self.grid.spec_width() == self.spec_width()
        &&& self.grid.spec_height() == self.spec_height()
    }

    /// Well-formedness: the world has at least one cell per axis and
    /// bounded dimensions, the bucket grid holds one cell per world cell,
    /// and every bucket's occupancy count sits at zero — the population
    /// pass never advances it, so every bucket write lands in the first
    /// index slot.
    pub open spec fn wf(self) -> bool {
        &&& 1 <= self.spec_width() <= MAX_DIM as int
        &&& 1 <= self.spec_height() <= MAX_DIM as int
        &&& self.grid_wf()
        &&& self.buckets().len() == self.spec_width() * self.spec_height()
        &&& counts_zero(self.buckets())
    }

    /// Every particle lies inside the world box.
    pub open spec fn all_in_world(self) -> bool {
        forall|i: int|
            0 <= i < self.particles().len() ==> in_world(
                self.particles()[i],
                self.spec_width(),
                self.spec_height(),
            )
    }

    /// An engine for a `w` by `h` world with an empty particle pool and a
    /// bucket grid of `w * h` cells, every one the all-zero fill.
    pub fn new(w: usize, h: usize) -> (r: Physics)
        requires
            1 <= w <= MAX_DIM,
            1 <= h <= MAX_DIM,
            (w as int) * (h as int) <= usize::MAX as int,
        ensures
            r.wf(),
            r.spec_width() == w as int,
            r.spec_height() == h as int,
            r.particles().len() == 0,
            r.all_in_world(),
            r.buckets().len() == (w as int) * (h as int),
            forall|k: int| 0 <= k < r.buckets().len() ==> zero_cell(#[trigger] r.buckets()[k]),
    {
        let fill = Cell { count: 0, indices: [0u8;7] };
        let r = Physics { w, h, objects: Vec::with_capacity(w * h), grid: Array2D::new(w, h, fill) };
        proof {
            assert forall|k: int| 0 <= k < r.buckets().len() implies zero_cell(
                #[trigger] r.buckets()[k],
            ) by {
                assert(r.buckets()[k] == fill);
            }
        }
        r
    }

    pub fn width(&self) -> (r: usize)
        ensures
            r as int == self.spec_width(),
    {
        self.w
    }

    pub fn height(&self) -> (r: usize)
        ensures
            r as int == self.spec_height(),
    {
        self.h
    }

    /// How many particles the pool holds. Particles are never removed, so
    /// indices returned by `add_object` stay valid for the engine's
    /// lifetime.
    pub fn object_count(&self) -> (r: usize)
        ensures
            r as int == self.particles().len(),
    {
        self.objects.len()
    }

    /// Read a particle by its handle; the handle must be one that
    /// `add_object` returned.
    pub fn object(&self, index: usize) -> (r: VerletObject)
        requires
            (index as int) < self.particles().len(),
        ensures
            r == self.particles()[index as int],
    {
        self.objects[index]
    }

    /// Overwrite a particle by its handle, e.g. to give a newly spawned
    /// particle a velocity kick. The new value must keep its position
    /// inside the world.
    pub fn set_object(&mut self, index: usize, o: VerletObject)
        requires
            old(self).wf(),
            (index as int) < old(self).particles().len(),
            in_world(o, old(self).spec_width(), old(self).spec_height()),
        ensures
            final(self).wf(),
            final(self).spec_width() == old(self).spec_width(),
            final(self).spec_height() == old(self).spec_height(),
            final(self).buckets() == old(self).buckets(),
            final(self).particles() == old(self).particles().update(index as int, o),
            old(self).all_in_world() ==> final(self).all_in_world(),
    {
        self.objects[index] = o;
    }

    /// Append a particle at `(x, y)` with zero velocity and acceleration
    /// and the given color, and return its stable index. The position must
    /// lie inside the world box.
    pub fn add_object(&mut self, x: i64, y: i64, color: Color) -> (index: usize)
        requires
            old(self).wf(),
            0 <= x as int,
            (x as int) < old(self).spec_width() * (SCALE as int),
            0 <= y as int,
            (y as int) < old(self).spec_height() * (SCALE as int),
        ensures
            final(self).wf(),
            final(self).spec_width() == old(self).spec_width(),
            final(self).spec_height() == old(self).spec_height(),
            final(self).buckets() == old(self).buckets(),
            index as int == old(self).particles().len(),
            final(self).particles() == old(self).particles().push(
                VerletObject {
                    pos: Vec2 { x, y },
                    vel: Vec2 { x: 0, y: 0 },
                    acc: Vec2 { x: 0, y: 0 },
                    color,
                },
            ),
            old(self).all_in_world() ==> final(self).all_in_world(),
    {
        let index = self.objects.len();
        self.objects.push(
            VerletObject {
                pos: Vec2 { x, y },
                vel: Vec2 { x: 0, y: 0 },
                acc: Vec2 { x: 0, y: 0 },
                color,
            },
        );
        index
    }

    /// Record every particle's index in the bucket of the grid cell its
    /// position floors to. See `bucket_after`: the pass never advances a
    /// bucket's occupancy count.
    fn populate_buckets(&mut self)
        requires
            old(self).wf(),
            old(self).all_in_world(),
        ensures
            final(self).wf(),
            final(self).spec_width() == old(self).spec_width(),
            final(self).spec_height() == old(self).spec_height(),
            final(self).particles() == old(self).particles(),
            final(self).all_in_world(),
            final(self).buckets() == populate_upto(
                old(self).buckets(),
                old(self).particles(),
                old(self).particles().len() as int,
                old(self).spec_width(),
            ),
    {
        let ghost orig = self.grid.cells();
        let ghost objs = self.objects@;
        let ghost w = self.spec_width();
        let n = self.objects.len();
        let mut i: usize = 0;
        proof {
            assert(self.grid.cells() =~= populate_upto(orig, objs, 0, w));
        }
        while i < n
            invariant
                self.wf(),
                self.w == old(self).w,
                self.h == old(self).h,
                self.objects@ == old(self).objects@,
                self.all_in_world(),
                w == self.spec_width(),
                objs == self.objects@,
                n as int == objs.len(),
                i <= n,
                orig.len() == self.grid.cells().len(),
                self.grid.cells() == populate_upto(orig, objs, i as int, w),
            decreases n - i,
        {
            let o = self.objects[i];
            proof {
                assert(o == self.particles()[i as int]);
                assert(in_world(o, self.spec_width(), self.spec_height()));
                lemma_cell_in_range(o, self.spec_width(), self.spec_height());
            }
            let cx = ((o.pos.x as u64) / (SCALE as u64)) as usize;
            let cy = ((o.pos.y as u64) / (SCALE as u64)) as usize;
            proof {
                assert(cx as int == cell_x(o));
                assert(cy as int == cell_y(o));
            }
            let mut c = self.grid.get(cx, cy);
            proof {
                crate::array2d::lemma_row_major_in_range(
                    cx as int,
                    cy as int,
                    self.spec_width(),
                    self.spec_height(),
                );
                assert(c == self.buckets()[cx as int + cy as int * self.spec_width()]);
                assert(c.count == 0);
            }
            let slot = c.count as usize;
            let idx8: u8 = (i % 256) as u8;
            c.indices[slot] = idx8;
            self.grid.set(cx, cy, c);
            proof {
                let k = cell_index(o, w);
                lemma_cell_in_range(o, self.spec_width(), self.spec_height());
                crate::array2d::lemma_row_major_in_range(
                    cell_x(o),
                    cell_y(o),
                    self.spec_width(),
                    self.spec_height(),
                );
                let prev = populate_upto(orig, objs, i as int, w);
                let next = populate_upto(orig, objs, i as int + 1, w);
                assert(idx8 as int == (i as int) % 256);
                assert forall|ci: int| 0 <= ci < prev.len() implies self.grid.cells()[ci]
                    == next[ci] by {
                    if ci == k {
                        assert(last_at(objs, i as int + 1, ci, w) == i as int);
                        assert(c.indices@ == prev[k].indices@.update(
                            prev[k].count as int,
                            idx8,
                        ));
                        if last_at(objs, i as int, ci, w) >= 0 {
                            // an earlier write to this cell is overwritten in place
                            assert(prev[k].count == orig[k].count);
                            assert(prev[k].indices@ == orig[k].indices@.update(
                                orig[k].count as int,
                                ((last_at(objs, i as int, ci, w)) % 256) as u8,
                            ));
                            assert(c.indices@ =~= orig[k].indices@.update(
                                orig[k].count as int,
                                ((i as int) % 256) as u8,
                            ));
                        } else {
                            assert(prev[k] == orig[k]);
                        }
                        assert(c.indices =~= bucket_after(orig[k], i as int).indices);
                        assert(self.grid.cells()[ci] == next[ci]);
                    } else {
                        assert(last_at(objs, i as int + 1, ci, w) == last_at(
                            objs,
                            i as int,
                            ci,
                            w,
                        ));
                    }
                }
                assert(self.grid.cells() =~= next);
            }
            i += 1;
        }
    }

    /// The all-pairs collision sweep: resolve every pair `(i1, i2)` with
    /// `i1 < i2`, in order, the later particle pushed along the positive
    /// contact axis.
    fn collide_sweep(&mut self)
        requires
            old(self).wf(),
        ensures
            final(self).wf(),
            final(self).spec_width() == old(self).spec_width(),
            final(self).spec_height() == old(self).spec_height(),
            final(self).buckets() == old(self).buckets(),
            final(self).particles() == sweep(old(self).particles()),
    {
        let ghost orig = self.objects@;
        let n = self.objects.len();
        let mut i1: usize = 0;
        while i1 < n
            invariant
                self.wf(),
                self.w == old(self).w,
                self.h == old(self).h,
                self.grid == old(self).grid,
                n as int == orig.len(),
                self.objects@.len() == n as int,
                i1 <= n,
                sweep_from(self.objects@, i1 as int, i1 as int + 1) == sweep(orig),
            decreases n - i1,
        {
            let mut i2: usize = i1 + 1;
            while i2 < n
                invariant
                    self.wf(),
                    self.w == old(self).w,
                    self.h == old(self).h,
                    self.grid == old(self).grid,
                    n as int == orig.len(),
                    self.objects@.len() == n as int,
                    i1 < i2 <= n,
                    i1 < n,
                    sweep_from(self.objects@, i1 as int, i2 as int) == sweep(orig),
                decreases n - i2,
            {
                let ghost prev = self.objects@;
                let mut a = self.objects[i2];
                let mut b = self.objects[i1];
                a.check_collision(&mut b);
                self.objects[i2] = a;
                self.objects[i1] = b;
                proof {
                    assert(self.objects@ == step_pair(prev, i1 as int, i2 as int));
                    assert(sweep_from(prev, i1 as int, i2 as int) == sweep_from(
                        step_pair(prev, i1 as int, i2 as int),
                        i1 as int,
                        i2 as int + 1,
                    ));
                }
                i2 += 1;
            }
            proof {
                assert(sweep_from(self.objects@, i1 as int, n as int) == sweep_from(
                    self.objects@,
                    i1 as int + 1,
                    i1 as int + 2,
                ));
            }
            i1 += 1;
        }
        proof {
            assert(sweep_from(self.objects@, n as int, n as int + 1) == self.objects@);
        }
    }

    /// One collision pass: repopulate the bucket grid from current
    /// positions, then run the all-pairs sweep. The sweep may push
    /// particles out of the world box; the following movement pass clamps
    /// them back in.
    pub fn apply_collisions(&mut self)
        requires
            old(self).wf(),
            old(self).all_in_world(),
        ensures
            final(self).wf(),
            final(self).spec_width() == old(self).spec_width(),
            final(self).spec_height() == old(self).spec_height(),
            final(self).buckets() == populate_upto(
                old(self).buckets(),
                old(self).particles(),
                old(self).particles().len() as int,
                old(self).spec_width(),
            ),
            final(self).particles() == sweep(old(self).particles()),
    {
        self.populate_buckets();
        self.collide_sweep();
    }

    /// One movement pass: integrate every particle one sub-step under
    /// gravity, then clamp it into the world box, zeroing the velocity
    /// component of any clamped axis.
    pub fn movement(&mut self, dt: i64)
        requires
            old(self).wf(),
        ensures
            final(self).wf(),
            final(self).spec_width() == old(self).spec_width(),
            final(self).spec_height() == old(self).spec_height(),
            final(self).buckets() == old(self).buckets(),
            final(self).particles() == old(self).particles().map_values(
                |o: VerletObject|
                    move_one(o, dt as int, old(self).spec_width(), old(self).spec_height()),
            ),
            final(self).all_in_world(),
    {
        let limit_x: i64 = (self.w as i64) * SCALE - 1;
        let limit_y: i64 = (self.h as i64) * SCALE - 1;
        let n = self.objects.len();
        let mut i: usize = 0;
        while i < n
            invariant
                self.wf(),
                self.w == old(self).w,
                self.h == old(self).h,
                self.grid == old(self).grid,
                limit_x as int == self.spec_width() * (SCALE as int) - 1,
                limit_y as int == self.spec_height() * (SCALE as int) - 1,
                n as int == old(self).particles().len(),
                self.objects@.len() == n as int,
                i <= n,
                forall|j: int|
                    0 <= j < i as int ==> self.objects@[j] == move_one(
                        old(self).particles()[j],
                        dt as int,
                        self.spec_width(),
                        self.spec_height(),
                    ),
                forall|j: int| i as int <= j < n as int ==> self.objects@[j] == old(
                    self,
                ).particles()[j],
            decreases n - i,
        {
            let mut o = self.objects[i];
            o.movement(dt, Vec2 { x: 0, y: GRAVITY_Y });
            if o.pos.x < 0 {
                o.pos.x = 0;
                o.vel.x = 0;
            } else if o.pos.x > limit_x {
                o.pos.x = limit_x;
                o.vel.x = 0;
            }
            if o.pos.y < 0 {
                o.pos.y = 0;
                o.vel.y = 0;
            } else if o.pos.y > limit_y {
                o.pos.y = limit_y;
                o.vel.y = 0;
            }
            proof {
                assert(o == move_one(
                    old(self).particles()[i as int],
                    dt as int,
                    self.spec_width(),
                    self.spec_height(),
                ));
            }
            self.objects[i] = o;
            i += 1;
        }
        proof {
            assert(self.objects@ =~= old(self).particles().map_values(
                |o: VerletObject|
                    move_one(o, dt as int, old(self).spec_width(), old(self).spec_height()),
            ));
            assert forall|j: int| 0 <= j < self.particles().len() implies in_world(
                self.particles()[j],
                self.spec_width(),
                self.spec_height(),
            ) by {
                lemma_move_one_in_world(
                    old(self).particles()[j],
                    dt as int,
                    self.spec_width(),
                    self.spec_height(),
                );
            }
        }
    }

    /// Advance simulation time by `dt` ticks of a second, split into eight
    /// fixed sub-steps of `dt/8`: per sub-step, repopulate the buckets,
    /// resolve all particle pairs, integrate under gravity, and clamp to
    /// the world box. No particle is ever added, dropped or recolored by
    /// an update.
    pub fn update(&mut self, dt: i64)
        requires
            old(self).wf(),
            old(self).all_in_world(),
        ensures
            final(self).wf(),
            final(self).spec_width() == old(self).spec_width(),
            final(self).spec_height() == old(self).spec_height(),
            final(self).buckets() == evolve(
                old(self).buckets(),
                old(self).particles(),
                tdiv(dt as int, 8),
                old(self).spec_width(),
                old(self).spec_height(),
                8,
            ).0,
            final(self).particles() == evolve(
                old(self).buckets(),
                old(self).particles(),
                tdiv(dt as int, 8),
                old(self).spec_width(),
                old(self).spec_height(),
                8,
            ).1,
            final(self).particles().len() == old(self).particles().len(),
            forall|i: int|
                0 <= i < old(self).particles().len()
                    ==> (#[trigger] final(self).particles()[i]).color
                    == old(self).particles()[i].color,
            final(self).all_in_world(),
    {
        let step_dt = crate::fixed::div_trunc(dt, 8);
        let ghost oc = self.buckets();
        let ghost oo = self.particles();
        let ghost w = self.spec_width();
        let ghost h = self.spec_height();
        let ghost st = step_dt as int;
        let mut k: usize = 0;
        while k < 8
            invariant
                self.wf(),
                self.all_in_world(),
                self.spec_width() == w,
                self.spec_height() == h,
                oc == old(self).buckets(),
                oo == old(self).particles(),
                w == old(self).spec_width(),
                h == old(self).spec_height(),
                st == step_dt as int,
                st == tdiv(dt as int, 8),
                k <= 8,
                self.buckets() == evolve(oc, oo, st, w, h, k as nat).0,
                self.particles() == evolve(oc, oo, st, w, h, k as nat).1,
                self.particles().len() == oo.len(),
                forall|i: int|
                    0 <= i < oo.len() ==> (#[trigger] self.particles()[i]).color == oo[i].color,
            decreases 8 - k,
        {
            let ghost pc = self.buckets();
            let ghost po = self.particles();
            self.apply_collisions();
            self.movement(step_dt);
            proof {
                lemma_sweep_from_preserves(po, 0, 1);
                let mid = sweep(po);
                let nxt = evolve(oc, oo, st, w, h, (k + 1) as nat);
                assert(nxt.0 == populate_upto(pc, po, po.len() as int, w));
                assert(nxt.1 == mid.map_values(|o: VerletObject| move_one(o, st, w, h)));
                assert(self.particles() =~= nxt.1);
                assert forall|i: int| 0 <= i < oo.len() implies (#[trigger] self.particles()[i])
                    .color == oo[i].color by {
                    assert(self.particles()[i] == move_one(mid[i], st, w, h));
                    assert(mid[i].color == po[i].color);
                }
            }
            k += 1;
        }
    }

    /// Rasterize the particle pool: write each particle's color into the
    /// buffer cell its position floors to, in pool order, overwriting any
    /// previous occupant (last write wins; no blending). The buffer must
    /// match the engine's world dimensions; its other cells are left
    /// untouched, so the caller clears it between frames if no trail is
    /// wanted.
    pub fn render(&self, buffer: &mut Array2D<Color>)
        requires
            self.wf(),
            self.all_in_world(),
            old(buffer).wf(),
            old(buffer).spec_width() == self.spec_width(),
            old(buffer).spec_height() == self.spec_height(),
        ensures
            final(buffer).wf(),
            final(buffer).spec_width() == old(buffer).spec_width(),
            final(buffer).spec_height() == old(buffer).spec_height(),
            final(buffer).cells() == rendered(
                old(buffer).cells(),
                self.particles(),
                self.particles().len() as int,
                self.spec_width(),
            ),
    {
        let ghost orig = buffer.cells();
        let n = self.objects.len();
        let mut i: usize = 0;
        proof {
            assert(buffer.cells() =~= rendered(orig, self.particles(), 0, self.spec_width()));
        }
        while i < n
            invariant
                self.wf(),
                self.all_in_world(),
                buffer.wf(),
                buffer.spec_width() == self.spec_width(),
                buffer.spec_height() == self.spec_height(),
                orig.len() == buffer.cells().len(),
                n as int == self.particles().len(),
                i <= n,
                buffer.cells() == rendered(orig, self.particles(), i as int, self.spec_width()),
            decreases n - i,
        {
            let o = self.objects[i];
            proof {
                assert(o == self.particles()[i as int]);
                assert(in_world(o, self.spec_width(), self.spec_height()));
                lemma_cell_in_range(o, self.spec_width(), self.spec_height());
            }
            let cx = ((o.pos.x as u64) / (SCALE as u64)) as usize;
            let cy = ((o.pos.y as u64) / (SCALE as u64)) as usize;
            proof {
                assert(cx as int == cell_x(o));
                assert(cy as int == cell_y(o));
                crate::array2d::lemma_row_major_in_range(
                    cx as int,
                    cy as int,
                    self.spec_width(),
                    self.spec_height(),
                );
            }
            buffer.set(cx, cy, o.color);
            proof {
                let w = self.spec_width();
                let k = cell_index(o, w);
                let prev = rendered(orig, self.particles(), i as int, w);
                let next = rendered(orig, self.particles(), i as int + 1, w);
                assert forall|ci: int| 0 <= ci < prev.len() implies buffer.cells()[ci]
                    == next[ci] by {
                    if ci == k {
                        assert(last_at(self.particles(), i as int + 1, ci, w) == i as int);
                    } else {
                        assert(last_at(self.particles(), i as int + 1, ci, w) == last_at(
                            self.particles(),
                            i as int,
                            ci,
                            w,
                        ));
                    }
                }
                assert(buffer.cells() =~= next);
            }
            i += 1;
        }
    }
}

} // verus!
