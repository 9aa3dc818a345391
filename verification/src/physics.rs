//! The force-directed layout engine.
//!
//! Coordinates and tuning parameters are fixed-point numbers in thousandths
//! (milli-units): a damping of `550` means 0.55, an ideal edge length of
//! `180_000` means 180 length units. Every tick computes, over the visible
//! node set and edge list, a spring force per edge (Hooke's law, rest length
//! `ideal_edge_length`), an inverse-square repulsion per unordered node
//! pair, and then integrates velocity and position per node with damping
//! and friction decay. The whole tick is pinned down by [`spec_tick`]; the
//! engine itself never fails: distances and squared distances are clamped
//! below before any division, and positions, velocities and forces are
//! clamped into fixed ranges so no arithmetic can overflow.

#![verifier::loop_isolation(false)]

use vstd::prelude::*;
use crate::fixed::{
    clamp_i128, isqrt_u128, lemma_isqrt_bounds, lemma_tdiv_quot_bound, lemma_tdiv_shrinks,
    spec_clamp, spec_isqrt, spec_tdiv, tdiv_i128,
};

verus! {

/// One thousandth, the fixed-point scale.
pub const SCALE: i64 = 1000;

/// Positions are kept within this many milli-units of the origin.
pub const POS_LIMIT: i64 = 1_000_000_000_000;

/// Velocities are kept within this bound (milli-units per time unit).
pub const VEL_LIMIT: i64 = 1_000_000_000_000;

/// Force components are accumulated saturating at this bound.
pub const FORCE_LIMIT: i64 = 1_000_000_000_000_000;

/// `damping` and `friction` live in `[0, SCALE]`, meaning 0.0 to 1.0.
pub const UNIT_MAX: i64 = 1000;

/// Upper bound for `spring_constant` (a million in whole units).
pub const SPRING_MAX: i64 = 1_000_000_000;

/// Upper bound for `repulsion_constant`.
pub const REPULSION_MAX: i64 = 1_000_000_000_000_000;

/// Upper bound for `ideal_edge_length`.
pub const EDGE_LEN_MAX: i64 = 1_000_000_000_000;

/// Upper bound for `time_step` (ten time units).
pub const TIME_STEP_MAX: i64 = 10_000;

/// Distances are clamped to at least 0.1 units before dividing by them.
pub const MIN_DIST: i64 = 100;

/// Squared distances are clamped to at least 10.0 square units before use
/// as a denominator (in milli-units squared).
pub const MIN_DIST_SQ: i64 = 10_000_000;

/// A two-dimensional vector in milli-units.
#[derive(Clone, Copy, Debug, PartialEq, Eq, Structural)]
pub struct Vec2 {
    pub x: i64,
    pub y: i64,
}

/// Per-node simulation state: a position and a velocity.
#[derive(Clone, Copy, Debug, PartialEq, Eq, Structural)]
pub struct PhysicsNode {
    pub pos: Vec2,
    pub vel: Vec2,
}

impl PhysicsNode {
    /// A node resting at `pos`.
    pub fn new(pos: Vec2) -> (r: Self)
        ensures
            r.pos == pos,
            r.vel == (Vec2 { x: 0, y: 0 }),
    {
        PhysicsNode { pos, vel: Vec2 { x: 0, y: 0 } }
    }
}

/// `v` lies within `limit` of the origin on both axes.
pub open spec fn vec2_within(v: Vec2, limit: int) -> bool {
    -limit <= v.x <= limit && -limit <= v.y <= limit
}

/// `x` clamped into `[-limit, limit]`.
pub open spec fn clampi(x: int, limit: int) -> int {
    spec_clamp(x, -limit, limit)
}

pub open spec fn spec_max(a: int, b: int) -> int {
    if a >= b {
        a
    } else {
        b
    }
}

/// The clamped distance between two positions: the integer square root of
/// the squared distance, but at least [`MIN_DIST`].
pub open spec fn spec_dist(dx: int, dy: int) -> int {
    spec_max(spec_isqrt(dx * dx + dy * dy), MIN_DIST as int)
}

/// The spring force one edge exerts on its source node (the target gets
/// the opposite): along the edge direction, proportional to how far the
/// distance is from the rest length, components saturated at the force
/// bound.
pub open spec fn spec_spring_force(pa: Vec2, pb: Vec2, k: int, len0: int) -> (int, int) {
    let dx = pb.x - pa.x;
    let dy = pb.y - pa.y;
    let dist = spec_dist(dx, dy);
    let disp = dist - len0;
    let mag = spec_tdiv(k * disp, SCALE as int);
    (
        clampi(spec_tdiv(mag * dx, dist), FORCE_LIMIT as int),
        clampi(spec_tdiv(mag * dy, dist), FORCE_LIMIT as int),
    )
}

/// The repulsion force a pair exerts, as felt by the second node (the
/// first gets the opposite): along the direction between them, inverse in
/// the clamped squared distance, components saturated at the force bound.
pub open spec fn spec_rep_force(pa: Vec2, pb: Vec2, rep: int) -> (int, int) {
    let dx = pb.x - pa.x;
    let dy = pb.y - pa.y;
    let dsq = dx * dx + dy * dy;
    let dist = spec_dist(dx, dy);
    let mag = spec_tdiv(rep * 1_000_000, spec_max(dsq, MIN_DIST_SQ as int));
    (
        clampi(spec_tdiv(mag * dx, dist), FORCE_LIMIT as int),
        clampi(spec_tdiv(mag * dy, dist), FORCE_LIMIT as int),
    )
}

/// Force accumulation, saturating at the force bound.
pub open spec fn spec_add_force(f: (int, int), d: (int, int)) -> (int, int) {
    (clampi(f.0 + d.0, FORCE_LIMIT as int), clampi(f.1 + d.1, FORCE_LIMIT as int))
}

/// The force array after one edge's spring contribution: added to the
/// source, subtracted from the target; an edge whose endpoints are not
/// both tracked contributes nothing.
pub open spec fn spec_spring_step(
    pos: Seq<Option<Vec2>>,
    k: int,
    len0: int,
    a: int,
    b: int,
    f: Seq<(int, int)>,
) -> Seq<(int, int)> {
    if 0 <= a < pos.len() && 0 <= b < pos.len() && pos[a] is Some && pos[b] is Some {
        let sf = spec_spring_force(pos[a]->Some_0, pos[b]->Some_0, k, len0);
        let f1 = f.update(a, spec_add_force(f[a], sf));
        f1.update(b, spec_add_force(f1[b], (-sf.0, -sf.1)))
    } else {
        f
    }
}

/// The force array after the first `j` edges' spring contributions.
pub open spec fn spec_spring_pass(
    pos: Seq<Option<Vec2>>,
    edges: Seq<(usize, usize)>,
    k: int,
    len0: int,
    j: int,
    f0: Seq<(int, int)>,
) -> Seq<(int, int)>
    decreases j,
{
    if j <= 0 {
        f0
    } else {
        let f = spec_spring_pass(pos, edges, k, len0, j - 1, f0);
        spec_spring_step(pos, k, len0, edges[j - 1].0 as int, edges[j - 1].1 as int, f)
    }
}

/// The force array after the repulsion of the pair `(i, j)`: pushed away
/// from each other; a pair not fully tracked contributes nothing.
pub open spec fn spec_rep_step(
    pos: Seq<Option<Vec2>>,
    rep: int,
    i: int,
    j: int,
    f: Seq<(int, int)>,
) -> Seq<(int, int)> {
    if 0 <= i < pos.len() && 0 <= j < pos.len() && pos[i] is Some && pos[j] is Some {
        let rf = spec_rep_force(pos[i]->Some_0, pos[j]->Some_0, rep);
        let f1 = f.update(i, spec_add_force(f[i], (-rf.0, -rf.1)));
        f1.update(j, spec_add_force(f1[j], rf))
    } else {
        f
    }
}

/// The force array after the pairs `(i, i+1) .. (i, j-1)`.
pub open spec fn spec_rep_row(
    pos: Seq<Option<Vec2>>,
    rep: int,
    i: int,
    j: int,
    f: Seq<(int, int)>,
) -> Seq<(int, int)>
    decreases j - i,
{
    if j <= i + 1 {
        f
    } else {
        spec_rep_step(pos, rep, i, j - 1, spec_rep_row(pos, rep, i, j - 1, f))
    }
}

/// The force array after all unordered pairs drawn from the first `i`
/// rows.
pub open spec fn spec_rep_pass(
    pos: Seq<Option<Vec2>>,
    rep: int,
    i: int,
    f0: Seq<(int, int)>,
) -> Seq<(int, int)>
    decreases i,
{
    if i <= 0 {
        f0
    } else {
        spec_rep_row(pos, rep, i - 1, pos.len() as int, spec_rep_pass(pos, rep, i - 1, f0))
    }
}

/// One component integrated: velocity picks up the impulse, decays by
/// damping and friction and is clamped; the position advances by the
/// clamped velocity and is itself clamped.
pub open spec fn spec_step_component(
    p: int,
    v: int,
    f: int,
    dt: int,
    damping: int,
    friction: int,
) -> (int, int) {
    let v1 = v + spec_tdiv(f * dt, SCALE as int);
    let v2 = spec_tdiv(v1 * damping, SCALE as int);
    let v3 = spec_tdiv(v2 * (SCALE as int - friction), SCALE as int);
    let v4 = clampi(v3, VEL_LIMIT as int);
    let p2 = clampi(p + spec_tdiv(v4 * dt, SCALE as int), POS_LIMIT as int);
    (p2, v4)
}

/// The positions and velocities after integrating the first `m` nodes;
/// a node without both a position and a velocity is left untouched.
pub open spec fn spec_integrate(
    pos: Seq<Option<Vec2>>,
    vel: Seq<Option<Vec2>>,
    f: Seq<(int, int)>,
    dt: int,
    damping: int,
    friction: int,
    m: int,
) -> (Seq<Option<Vec2>>, Seq<Option<Vec2>>)
    decreases m,
{
    if m <= 0 {
        (pos, vel)
    } else {
        let (p0, v0) = spec_integrate(pos, vel, f, dt, damping, friction, m - 1);
        if 0 <= m - 1 < pos.len() && m - 1 < vel.len() && p0[m - 1] is Some && v0[m - 1] is Some {
            let p = p0[m - 1]->Some_0;
            let v = v0[m - 1]->Some_0;
            let (px, vx) = spec_step_component(p.x as int, v.x as int, f[m - 1].0, dt, damping, friction);
            let (py, vy) = spec_step_component(p.y as int, v.y as int, f[m - 1].1, dt, damping, friction);
            (
                p0.update(m - 1, Some(Vec2 { x: px as i64, y: py as i64 })),
                v0.update(m - 1, Some(Vec2 { x: vx as i64, y: vy as i64 })),
            )
        } else {
            (p0, v0)
        }
    }
}

/// The zero force array for `n` nodes.
pub open spec fn spec_zero_forces(n: nat) -> Seq<(int, int)> {
    Seq::new(n, |i: int| (0int, 0int))
}

/// The whole tick: spring pass over the edges, repulsion pass over all
/// pairs, then integration, exactly as [`PhysicsSimulator::update`] does it.
pub open spec fn spec_tick(s: PhysicsSimulator, edges: Seq<(usize, usize)>) -> (
    Seq<Option<Vec2>>,
    Seq<Option<Vec2>>,
) {
    let pos = s.node_positions@;
    let f1 = spec_spring_pass(
        pos,
        edges,
        s.spring_constant as int,
        s.ideal_edge_length as int,
        edges.len() as int,
        spec_zero_forces(pos.len()),
    );
    let f2 = spec_rep_pass(pos, s.repulsion_constant as int, pos.len() as int, f1);
    spec_integrate(
        pos,
        s.node_velocities@,
        f2,
        s.time_step as int,
        s.damping as int,
        s.friction as int,
        pos.len() as int,
    )
}

/// The clamped distance and its bound: at most three trillion milli-units
/// for in-range positions.
fn dist_of(dx: i128, dy: i128) -> (d: i128)
    requires
        -3_000_000_000_000 <= dx <= 3_000_000_000_000,
        -3_000_000_000_000 <= dy <= 3_000_000_000_000,
    ensures
        d == spec_dist(dx as int, dy as int),
        MIN_DIST <= d <= 5_000_000_000_000,
{
    proof {
        assert(dx * dx + dy * dy <= 18_000_000_000_000_000_000_000_000) by (nonlinear_arith)
            requires
                -3_000_000_000_000 <= dx <= 3_000_000_000_000,
                -3_000_000_000_000 <= dy <= 3_000_000_000_000,
        ;
        assert(dx * dx >= 0 && dy * dy >= 0) by (nonlinear_arith);
    }
    let dsq: i128 = dx * dx + dy * dy;
    let r = isqrt_u128(dsq as u128);
    proof {
        lemma_isqrt_bounds(dsq as int);
        assert(spec_isqrt(dsq as int) <= 5_000_000_000_000) by {
            let s = spec_isqrt(dsq as int);
            if s > 5_000_000_000_000 {
                assert(s * s > 18_000_000_000_000_000_000_000_000) by (nonlinear_arith)
                    requires
                        s > 5_000_000_000_000,
                ;
            }
        }
    }
    let ri = r as i128;
    if ri < MIN_DIST as i128 {
        MIN_DIST as i128
    } else {
        ri
    }
}

/// The spring force for one edge, as [`spec_spring_force`] states it.
fn spring_force(pa: Vec2, pb: Vec2, k: i64, len0: i64) -> (r: (i64, i64))
    requires
        vec2_within(pa, POS_LIMIT as int),
        vec2_within(pb, POS_LIMIT as int),
        0 <= k <= SPRING_MAX,
        0 <= len0 <= EDGE_LEN_MAX,
    ensures
        r.0 == spec_spring_force(pa, pb, k as int, len0 as int).0,
        r.1 == spec_spring_force(pa, pb, k as int, len0 as int).1,
        -FORCE_LIMIT <= r.0 <= FORCE_LIMIT,
        -FORCE_LIMIT <= r.1 <= FORCE_LIMIT,
{
    let dx: i128 = pb.x as i128 - pa.x as i128;
    let dy: i128 = pb.y as i128 - pa.y as i128;
    let dist = dist_of(dx, dy);
    let disp: i128 = dist - len0 as i128;
    proof {
        assert(-2_000_000_000_000 <= disp <= 6_000_000_000_000);
        assert((k as i128) * disp <= 6_000_000_000_000_000_000_000_000
            && (k as i128) * disp >= -6_000_000_000_000_000_000_000_000) by (nonlinear_arith)
            requires
                0 <= (k as i128) <= 1_000_000_000,
                -2_000_000_000_000 <= disp <= 6_000_000_000_000,
        ;
    }
    let mag = tdiv_i128(k as i128 * disp, SCALE as i128);
    proof {
        lemma_tdiv_quot_bound(
            (k as i128 * disp) as int,
            1000,
            6_000_000_000_000_000_000_000,
        );
        assert(mag * dx < 170_141_183_460_469_231_731_687_303_715_884_105_727
            && mag * dx > -170_141_183_460_469_231_731_687_303_715_884_105_727
            && mag * dy < 170_141_183_460_469_231_731_687_303_715_884_105_727
            && mag * dy > -170_141_183_460_469_231_731_687_303_715_884_105_727)
            by (nonlinear_arith)
            requires
                -6_000_000_000_000_000_000_000 <= mag <= 6_000_000_000_000_000_000_000,
                -3_000_000_000_000 <= dx <= 3_000_000_000_000,
                -3_000_000_000_000 <= dy <= 3_000_000_000_000,
        ;
    }
    let fx = clamp_i128(tdiv_i128(mag * dx, dist), -(FORCE_LIMIT as i128), FORCE_LIMIT as i128);
    let fy = clamp_i128(tdiv_i128(mag * dy, dist), -(FORCE_LIMIT as i128), FORCE_LIMIT as i128);
    (fx as i64, fy as i64)
}

/// The repulsion force for one pair, as [`spec_rep_force`] states it.
fn rep_force(pa: Vec2, pb: Vec2, rep: i64) -> (r: (i64, i64))
    requires
        vec2_within(pa, POS_LIMIT as int),
        vec2_within(pb, POS_LIMIT as int),
        0 <= rep <= REPULSION_MAX,
    ensures
        r.0 == spec_rep_force(pa, pb, rep as int).0,
        r.1 == spec_rep_force(pa, pb, rep as int).1,
        -FORCE_LIMIT <= r.0 <= FORCE_LIMIT,
        -FORCE_LIMIT <= r.1 <= FORCE_LIMIT,
{
    let dx: i128 = pb.x as i128 - pa.x as i128;
    let dy: i128 = pb.y as i128 - pa.y as i128;
    proof {
        assert(dx * dx + dy * dy <= 18_000_000_000_000_000_000_000_000 && dx * dx >= 0 && dy * dy
            >= 0) by (nonlinear_arith)
            requires
                -3_000_000_000_000 <= dx <= 3_000_000_000_000,
                -3_000_000_000_000 <= dy <= 3_000_000_000_000,
        ;
    }
    let dsq: i128 = dx * dx + dy * dy;
    let dist = dist_of(dx, dy);
    let denom: i128 = if dsq < MIN_DIST_SQ as i128 {
        MIN_DIST_SQ as i128
    } else {
        dsq
    };
    let mag = tdiv_i128(rep as i128 * 1_000_000, denom);
    proof {
        assert(0 <= (rep as i128) * 1_000_000 <= 1_000_000_000_000_000_000_000)
            by (nonlinear_arith)
            requires
                0 <= (rep as i128) <= 1_000_000_000_000_000,
        ;
        let a = (rep as i128) * 1_000_000;
        lemma_tdiv_shrinks(a as int, denom as int, 1_000_000_000_000_000_000_000);
        assert(mag * dx < 170_141_183_460_469_231_731_687_303_715_884_105_727
            && mag * dx > -170_141_183_460_469_231_731_687_303_715_884_105_727
            && mag * dy < 170_141_183_460_469_231_731_687_303_715_884_105_727
            && mag * dy > -170_141_183_460_469_231_731_687_303_715_884_105_727)
            by (nonlinear_arith)
            requires
                0 <= mag <= 1_000_000_000_000_000_000_000,
                -3_000_000_000_000 <= dx <= 3_000_000_000_000,
                -3_000_000_000_000 <= dy <= 3_000_000_000_000,
        ;
    }
    let fx = clamp_i128(tdiv_i128(mag * dx, dist), -(FORCE_LIMIT as i128), FORCE_LIMIT as i128);
    let fy = clamp_i128(tdiv_i128(mag * dy, dist), -(FORCE_LIMIT as i128), FORCE_LIMIT as i128);
    (fx as i64, fy as i64)
}

/// Saturating force accumulation, as [`spec_add_force`] states it.
fn add_force(f: (i64, i64), d: (i64, i64)) -> (r: (i64, i64))
    requires
        -FORCE_LIMIT <= f.0 <= FORCE_LIMIT,
        -FORCE_LIMIT <= f.1 <= FORCE_LIMIT,
        -FORCE_LIMIT <= d.0 <= FORCE_LIMIT,
        -FORCE_LIMIT <= d.1 <= FORCE_LIMIT,
    ensures
        r.0 == spec_add_force((f.0 as int, f.1 as int), (d.0 as int, d.1 as int)).0,
        r.1 == spec_add_force((f.0 as int, f.1 as int), (d.0 as int, d.1 as int)).1,
        -FORCE_LIMIT <= r.0 <= FORCE_LIMIT,
        -FORCE_LIMIT <= r.1 <= FORCE_LIMIT,
{
    let x = clamp_i128(
        f.0 as i128 + d.0 as i128,
        -(FORCE_LIMIT as i128),
        FORCE_LIMIT as i128,
    );
    let y = clamp_i128(
        f.1 as i128 + d.1 as i128,
        -(FORCE_LIMIT as i128),
        FORCE_LIMIT as i128,
    );
    (x as i64, y as i64)
}

/// One component integrated, as [`spec_step_component`] states it.
fn step_component(p: i64, v: i64, f: i64, dt: i64, damping: i64, friction: i64) -> (r: (i64, i64))
    requires
        -POS_LIMIT <= p <= POS_LIMIT,
        -VEL_LIMIT <= v <= VEL_LIMIT,
        -FORCE_LIMIT <= f <= FORCE_LIMIT,
        0 <= dt <= TIME_STEP_MAX,
        0 <= damping <= UNIT_MAX,
        0 <= friction <= UNIT_MAX,
    ensures
        r.0 == spec_step_component(
            p as int,
            v as int,
            f as int,
            dt as int,
            damping as int,
            friction as int,
        ).0,
        r.1 == spec_step_component(
            p as int,
            v as int,
            f as int,
            dt as int,
            damping as int,
            friction as int,
        ).1,
        -POS_LIMIT <= r.0 <= POS_LIMIT,
        -VEL_LIMIT <= r.1 <= VEL_LIMIT,
{
    proof {
        assert((f as i128) * (dt as i128) <= 10_000_000_000_000_000_000 && (f as i128) * (
        dt as i128) >= -10_000_000_000_000_000_000) by (nonlinear_arith)
            requires
                -1_000_000_000_000_000 <= (f as i128) <= 1_000_000_000_000_000,
                0 <= (dt as i128) <= 10_000,
        ;
    }
    let impulse = tdiv_i128(f as i128 * dt as i128, SCALE as i128);
    proof {
        lemma_tdiv_shrinks((f as i128 * dt as i128) as int, SCALE as int, 10_000_000_000_000_000_000);
    }
    let v1: i128 = v as i128 + impulse;
    proof {
        assert(v1 * (damping as i128) <= 20_000_000_000_000_000_000_000 && v1 * (damping as i128)
            >= -20_000_000_000_000_000_000_000) by (nonlinear_arith)
            requires
                -11_000_000_000_000_000 <= v1 <= 11_000_000_000_000_000,
                0 <= (damping as i128) <= 1_000,
        ;
    }
    let v2 = tdiv_i128(v1 * damping as i128, SCALE as i128);
    proof {
        lemma_tdiv_shrinks((v1 * damping as i128) as int, SCALE as int, 20_000_000_000_000_000_000_000);
    }
    proof {
        assert(v2 * ((SCALE - friction) as i128) <= 20_000_000_000_000_000_000_000_000 && v2 * ((
        SCALE - friction) as i128) >= -20_000_000_000_000_000_000_000_000) by (nonlinear_arith)
            requires
                -20_000_000_000_000_000_000_000 <= v2 <= 20_000_000_000_000_000_000_000,
                0 <= ((SCALE - friction) as i128) <= 1_000,
        ;
    }
    let v3 = tdiv_i128(v2 * (SCALE - friction) as i128, SCALE as i128);
    let v4 = clamp_i128(v3, -(VEL_LIMIT as i128), VEL_LIMIT as i128);
    proof {
        assert(v4 * (dt as i128) <= 10_000_000_000_000_000 && v4 * (dt as i128)
            >= -10_000_000_000_000_000) by (nonlinear_arith)
            requires
                -1_000_000_000_000 <= v4 <= 1_000_000_000_000,
                0 <= (dt as i128) <= 10_000,
        ;
    }
    let shift = tdiv_i128(v4 * dt as i128, SCALE as i128);
    proof {
        lemma_tdiv_shrinks((v4 * dt as i128) as int, SCALE as int, 10_000_000_000_000_000);
    }
    let p2 = clamp_i128(p as i128 + shift, -(POS_LIMIT as i128), POS_LIMIT as i128);
    (p2 as i64, v4 as i64)
}

/// The simulator: per-node positions and velocities indexed by node slot,
/// and the simulation parameters, all in milli-units.
pub struct PhysicsSimulator {
    pub node_positions: Vec<Option<Vec2>>,
    pub node_velocities: Vec<Option<Vec2>>,
    pub damping: i64,
    pub spring_constant: i64,
    pub repulsion_constant: i64,
    pub ideal_edge_length: i64,
    pub time_step: i64,
    pub friction: i64,
    pub frozen: bool,
}

impl PhysicsSimulator {
    /// Parameters in their documented ranges, matching slot arrays, and
    /// every tracked position and velocity within its bound.
    pub open spec fn wf(&self) -> bool {
        &&& 0 <= self.damping <= UNIT_MAX
        &&& 0 <= self.friction <= UNIT_MAX
        &&& 0 <= self.spring_constant <= SPRING_MAX
        &&& 0 <= self.repulsion_constant <= REPULSION_MAX
        &&& 0 <= self.ideal_edge_length <= EDGE_LEN_MAX
        &&& 0 <= self.time_step <= TIME_STEP_MAX
        &&& self.node_positions@.len() == self.node_velocities@.len()
        &&& forall|i: int|
            0 <= i < self.node_positions@.len() && self.node_positions@[i] is Some ==> vec2_within(
                (#[trigger] self.node_positions@[i])->Some_0,
                POS_LIMIT as int,
            )
        &&& forall|i: int|
            0 <= i < self.node_velocities@.len() && self.node_velocities@[i] is Some
                ==> vec2_within((#[trigger] self.node_velocities@[i])->Some_0, VEL_LIMIT as int)
    }

    /// A fresh simulator with the default parameters, tracking no nodes.
    pub fn new() -> (s: Self)
        ensures
            s.wf(),
            s.node_positions@.len() == 0,
            s.node_velocities@.len() == 0,
            s.damping == 550,
            s.spring_constant == 300,
            s.repulsion_constant == 18_000_000,
            s.ideal_edge_length == 180_000,
            s.time_step == 300,
            s.friction == 400,
            !s.frozen,
    {
        PhysicsSimulator {
            node_positions: Vec::new(),
            node_velocities: Vec::new(),
            damping: 550,
            spring_constant: 300,
            repulsion_constant: 18_000_000,
            ideal_edge_length: 180_000,
            time_step: 300,
            friction: 400,
            frozen: false,
        }
    }

    /// Advance the simulation by one tick over `edges`, exactly as
    /// [`spec_tick`] states it; a frozen simulation does not move.
    pub fn update(&mut self, edges: &Vec<(usize, usize)>)
        requires
            old(self).wf(),
        ensures
            final(self).wf(),
            final(self).damping == old(self).damping,
            final(self).spring_constant == old(self).spring_constant,
            final(self).repulsion_constant == old(self).repulsion_constant,
            final(self).ideal_edge_length == old(self).ideal_edge_length,
            final(self).time_step == old(self).time_step,
            final(self).friction == old(self).friction,
            final(self).frozen == old(self).frozen,
            old(self).frozen ==> final(self).node_positions@ == old(self).node_positions@
                && final(self).node_velocities@ == old(self).node_velocities@,
            !old(self).frozen ==> final(self).node_positions@ == spec_tick(*old(self), edges@).0
                && final(self).node_velocities@ == spec_tick(*old(self), edges@).1,
    {
        if self.frozen {
            return ;
        }
        let ghost pos0 = self.node_positions@;
        let ghost vel0 = self.node_velocities@;
        let ghost k = self.spring_constant as int;
        let ghost len0 = self.ideal_edge_length as int;
        let ghost rep = self.repulsion_constant as int;
        let n = self.node_positions.len();

        let mut forces: Vec<(i64, i64)> = Vec::new();
        let mut z: usize = 0;
        proof {
            assert(forces_view(forces@) =~= spec_zero_forces(0));
        }
        while z < n
            invariant
                z <= n,
                forces@.len() == z,
                forces_view(forces@) == spec_zero_forces(z as nat),
                forall|m: int|
                    0 <= m < z ==> -FORCE_LIMIT <= (#[trigger] forces@[m]).0 <= FORCE_LIMIT
                        && -FORCE_LIMIT <= forces@[m].1 <= FORCE_LIMIT,
            decreases n - z,
        {
            let ghost fprev = forces@;
            forces.push((0, 0));
            proof {
                assert(forces_view(fprev.push((0i64, 0i64))) =~= forces_view(fprev).push(
                    (0int, 0int),
                ));
                assert(forces_view(fprev).push((0int, 0int)) =~= spec_zero_forces((z + 1) as nat));
            }
            z = z + 1;
        }

        let edge_count = edges.len();
        let mut e: usize = 0;
        while e < edge_count
            invariant
                e <= edge_count,
                edge_count == edges@.len(),
                n == pos0.len(),
                forces@.len() == n,
                forces_view(forces@) == spec_spring_pass(
                    pos0,
                    edges@,
                    k,
                    len0,
                    e as int,
                    spec_zero_forces(n as nat),
                ),
                forall|m: int|
                    0 <= m < n ==> -FORCE_LIMIT <= (#[trigger] forces@[m]).0 <= FORCE_LIMIT
                        && -FORCE_LIMIT <= forces@[m].1 <= FORCE_LIMIT,
            decreases edge_count - e,
        {
            let a = edges[e].0;
            let b = edges[e].1;
            let ghost fprev = forces@;
            if a < n && b < n {
                let pa_opt = self.node_positions[a];
                let pb_opt = self.node_positions[b];
                match (pa_opt, pb_opt) {
                    (Some(pa), Some(pb)) => {
                        let sf = spring_force(pa, pb, self.spring_constant, self.ideal_edge_length);
                        let fa = forces[a];
                        let newa = add_force(fa, sf);
                        forces[a] = newa;
                        let fb = forces[b];
                        let newb = add_force(fb, (-sf.0, -sf.1));
                        forces[b] = newb;
                        proof {
                            assert(forces_view(fprev.update(a as int, newa)) =~= forces_view(
                                fprev,
                            ).update(a as int, (newa.0 as int, newa.1 as int)));
                            assert(forces_view(fprev.update(a as int, newa).update(b as int, newb))
                                =~= forces_view(fprev.update(a as int, newa)).update(
                                b as int,
                                (newb.0 as int, newb.1 as int),
                            ));
                            assert(forces_view(forces@) == spec_spring_step(
                                pos0,
                                k,
                                len0,
                                a as int,
                                b as int,
                                forces_view(fprev),
                            ));
                        }
                    },
                    _ => {
                        proof {
                            assert(spec_spring_step(pos0, k, len0, a as int, b as int, forces_view(fprev))
                                == forces_view(fprev));
                        }
                    },
                }
            } else {
                proof {
                    assert(spec_spring_step(pos0, k, len0, a as int, b as int, forces_view(fprev))
                        == forces_view(fprev));
                }
            }
            e = e + 1;
        }
        let ghost fspring = spec_spring_pass(
            pos0,
            edges@,
            k,
            len0,
            edges@.len() as int,
            spec_zero_forces(n as nat),
        );

        let mut i: usize = 0;
        while i < n
            invariant
                i <= n,
                n == pos0.len(),
                forces@.len() == n,
                forces_view(forces@) == spec_rep_pass(pos0, rep, i as int, fspring),
                forall|m: int|
                    0 <= m < n ==> -FORCE_LIMIT <= (#[trigger] forces@[m]).0 <= FORCE_LIMIT
                        && -FORCE_LIMIT <= forces@[m].1 <= FORCE_LIMIT,
            decreases n - i,
        {
            let mut j: usize = i + 1;
            while j < n
                invariant
                    i < n,
                    i + 1 <= j <= n,
                    n == pos0.len(),
                    forces@.len() == n,
                    forces_view(forces@) == spec_rep_row(
                        pos0,
                        rep,
                        i as int,
                        j as int,
                        spec_rep_pass(pos0, rep, i as int, fspring),
                    ),
                    forall|m: int|
                        0 <= m < n ==> -FORCE_LIMIT <= (#[trigger] forces@[m]).0 <= FORCE_LIMIT
                            && -FORCE_LIMIT <= forces@[m].1 <= FORCE_LIMIT,
                decreases n - j,
            {
                let ghost fprev = forces@;
                let pa_opt = self.node_positions[i];
                let pb_opt = self.node_positions[j];
                match (pa_opt, pb_opt) {
                    (Some(pa), Some(pb)) => {
                        let rf = rep_force(pa, pb, self.repulsion_constant);
                        let fi = forces[i];
                        let newi = add_force(fi, (-rf.0, -rf.1));
                        forces[i] = newi;
                        let fj = forces[j];
                        let newj = add_force(fj, rf);
                        forces[j] = newj;
                        proof {
                            assert(forces_view(fprev.update(i as int, newi)) =~= forces_view(
                                fprev,
                            ).update(i as int, (newi.0 as int, newi.1 as int)));
                            assert(forces_view(fprev.update(i as int, newi).update(j as int, newj))
                                =~= forces_view(fprev.update(i as int, newi)).update(
                                j as int,
                                (newj.0 as int, newj.1 as int),
                            ));
                            assert(forces_view(forces@) == spec_rep_step(
                                pos0,
                                rep,
                                i as int,
                                j as int,
                                forces_view(fprev),
                            ));
                        }
                    },
                    _ => {
                        proof {
                            assert(spec_rep_step(pos0, rep, i as int, j as int, forces_view(fprev))
                                == forces_view(fprev));
                        }
                    },
                }
                j = j + 1;
            }
            proof {
                assert(forces_view(forces@) == spec_rep_pass(pos0, rep, i + 1, fspring));
            }
            i = i + 1;
        }
        let ghost f2 = spec_rep_pass(pos0, rep, pos0.len() as int, fspring);
        proof {
            assert(forces_view(forces@) == f2);
        }

        let ghost dt = self.time_step as int;
        let ghost damp = self.damping as int;
        let ghost fric = self.friction as int;
        let mut m: usize = 0;
        while m < n
            invariant
                m <= n,
                n == pos0.len(),
                n == vel0.len(),
                forces@.len() == n,
                forces_view(forces@) == f2,
                self.node_positions@.len() == n,
                self.node_velocities@.len() == n,
                self.damping == old(self).damping,
                self.spring_constant == old(self).spring_constant,
                self.repulsion_constant == old(self).repulsion_constant,
                self.ideal_edge_length == old(self).ideal_edge_length,
                self.time_step == old(self).time_step,
                self.friction == old(self).friction,
                self.frozen == old(self).frozen,
                dt == self.time_step as int,
                damp == self.damping as int,
                fric == self.friction as int,
                self.node_positions@ == spec_integrate(pos0, vel0, f2, dt, damp, fric, m as int).0,
                self.node_velocities@ == spec_integrate(pos0, vel0, f2, dt, damp, fric, m as int).1,
                forall|q: int|
                    0 <= q < n && self.node_positions@[q] is Some ==> vec2_within(
                        (#[trigger] self.node_positions@[q])->Some_0,
                        POS_LIMIT as int,
                    ),
                forall|q: int|
                    0 <= q < n && self.node_velocities@[q] is Some ==> vec2_within(
                        (#[trigger] self.node_velocities@[q])->Some_0,
                        VEL_LIMIT as int,
                    ),
                forall|q: int|
                    0 <= q < n ==> -FORCE_LIMIT <= (#[trigger] forces@[q]).0 <= FORCE_LIMIT
                        && -FORCE_LIMIT <= forces@[q].1 <= FORCE_LIMIT,
            decreases n - m,
        {
            let ghost pprev = self.node_positions@;
            let ghost vprev = self.node_velocities@;
            let fo = forces[m];
            let p_opt = self.node_positions[m];
            let v_opt = self.node_velocities[m];
            match (p_opt, v_opt) {
                (Some(p), Some(v)) => {
                    let (px, vx) = step_component(
                        p.x,
                        v.x,
                        fo.0,
                        self.time_step,
                        self.damping,
                        self.friction,
                    );
                    let (py, vy) = step_component(
                        p.y,
                        v.y,
                        fo.1,
                        self.time_step,
                        self.damping,
                        self.friction,
                    );
                    self.node_positions[m] = Some(Vec2 { x: px, y: py });
                    self.node_velocities[m] = Some(Vec2 { x: vx, y: vy });
                    proof {
                        assert(self.node_positions@ == spec_integrate(
                            pos0,
                            vel0,
                            f2,
                            dt,
                            damp,
                            fric,
                            m + 1,
                        ).0);
                        assert(self.node_velocities@ == spec_integrate(
                            pos0,
                            vel0,
                            f2,
                            dt,
                            damp,
                            fric,
                            m + 1,
                        ).1);
                    }
                },
                _ => {
                    proof {
                        assert(self.node_positions@ == spec_integrate(
                            pos0,
                            vel0,
                            f2,
                            dt,
                            damp,
                            fric,
                            m + 1,
                        ).0);
                        assert(self.node_velocities@ == spec_integrate(
                            pos0,
                            vel0,
                            f2,
                            dt,
                            damp,
                            fric,
                            m + 1,
                        ).1);
                    }
                },
            }
            m = m + 1;
        }
    }
}

impl PhysicsSimulator {
    /// Zero the velocity of every node that has a position; velocities of
    /// untracked slots are left alone.
    pub fn initialize_velocities(&mut self)
        requires
            old(self).wf(),
        ensures
            final(self).wf(),
            final(self).node_positions@ == old(self).node_positions@,
            final(self).node_velocities@.len() == old(self).node_velocities@.len(),
            forall|i: int|
                0 <= i < old(self).node_positions@.len() ==> #[trigger] final(self).node_velocities@[i] == (if old(self).node_positions@[i] is Some {
                    Some(Vec2 { x: 0, y: 0 })
                } else {
                    old(self).node_velocities@[i]
                }),
            final(self).damping == old(self).damping,
            final(self).spring_constant == old(self).spring_constant,
            final(self).repulsion_constant == old(self).repulsion_constant,
            final(self).ideal_edge_length == old(self).ideal_edge_length,
            final(self).time_step == old(self).time_step,
            final(self).friction == old(self).friction,
            final(self).frozen == old(self).frozen,
    {
        let n = self.node_positions.len();
        let mut i: usize = 0;
        while i < n
            invariant
                i <= n,
                n == old(self).node_positions@.len(),
                self.node_positions@ == old(self).node_positions@,
                self.node_velocities@.len() == old(self).node_velocities@.len(),
                n <= self.node_velocities@.len(),
                forall|q: int|
                    0 <= q < i ==> #[trigger] self.node_velocities@[q] == (if old(self).node_positions@[q] is Some {
                        Some(Vec2 { x: 0, y: 0 })
                    } else {
                        old(self).node_velocities@[q]
                    }),
                forall|q: int|
                    i <= q < self.node_velocities@.len() ==> #[trigger] self.node_velocities@[q]
                        == old(self).node_velocities@[q],
                self.damping == old(self).damping,
                self.spring_constant == old(self).spring_constant,
                self.repulsion_constant == old(self).repulsion_constant,
                self.ideal_edge_length == old(self).ideal_edge_length,
                self.time_step == old(self).time_step,
                self.friction == old(self).friction,
                self.frozen == old(self).frozen,
            decreases n - i,
        {
            if self.node_positions[i].is_some() {
                self.node_velocities[i] = Some(Vec2 { x: 0, y: 0 });
            }
            i = i + 1;
        }
    }

    /// The position of node `index`, if tracked.
    pub fn get_node_position(&self, index: usize) -> (r: Option<Vec2>)
        ensures
            r == (if index < self.node_positions@.len() {
                self.node_positions@[index as int]
            } else {
                Option::<Vec2>::None
            }),
    {
        if index < self.node_positions.len() {
            self.node_positions[index]
        } else {
            None
        }
    }

    /// Override the position of a tracked node (clamped into range) and
    /// zero its velocity, as interactive dragging does; an untracked index
    /// changes nothing.
    pub fn set_node_position(&mut self, index: usize, new_pos: Vec2)
        requires
            old(self).wf(),
        ensures
            final(self).wf(),
            final(self).damping == old(self).damping,
            final(self).spring_constant == old(self).spring_constant,
            final(self).repulsion_constant == old(self).repulsion_constant,
            final(self).ideal_edge_length == old(self).ideal_edge_length,
            final(self).time_step == old(self).time_step,
            final(self).friction == old(self).friction,
            final(self).frozen == old(self).frozen,
            index < old(self).node_positions@.len() && old(self).node_positions@[index as int]
                is Some ==> final(self).node_positions@ == old(self).node_positions@.update(
                index as int,
                Some(
                    Vec2 {
                        x: clampi(new_pos.x as int, POS_LIMIT as int) as i64,
                        y: clampi(new_pos.y as int, POS_LIMIT as int) as i64,
                    },
                ),
            ) && final(self).node_velocities@ == old(self).node_velocities@.update(
                index as int,
                Some(Vec2 { x: 0, y: 0 }),
            ),
            !(index < old(self).node_positions@.len() && old(self).node_positions@[index as int]
                is Some) ==> final(self).node_positions@ == old(self).node_positions@ && final(self).node_velocities@ == old(self).node_velocities@,
    {
        if index < self.node_positions.len() {
            if self.node_positions[index].is_some() {
                let x = clamp_i128(
                    new_pos.x as i128,
                    -(POS_LIMIT as i128),
                    POS_LIMIT as i128,
                ) as i64;
                let y = clamp_i128(
                    new_pos.y as i128,
                    -(POS_LIMIT as i128),
                    POS_LIMIT as i128,
                ) as i64;
                self.node_positions[index] = Some(Vec2 { x, y });
                self.node_velocities[index] = Some(Vec2 { x: 0, y: 0 });
            }
        }
    }

    /// Set the velocity of node `index` (clamped into range), growing the
    /// slot arrays if the index is new.
    pub fn set_node_velocity(&mut self, index: usize, new_vel: Vec2)
        requires
            old(self).wf(),
            index < usize::MAX,
        ensures
            final(self).wf(),
            final(self).damping == old(self).damping,
            final(self).spring_constant == old(self).spring_constant,
            final(self).repulsion_constant == old(self).repulsion_constant,
            final(self).ideal_edge_length == old(self).ideal_edge_length,
            final(self).time_step == old(self).time_step,
            final(self).friction == old(self).friction,
            final(self).frozen == old(self).frozen,
            final(self).node_positions@.len() == final(self).node_velocities@.len(),
            index < final(self).node_velocities@.len(),
            final(self).node_velocities@[index as int] == Some(
                Vec2 {
                    x: clampi(new_vel.x as int, VEL_LIMIT as int) as i64,
                    y: clampi(new_vel.y as int, VEL_LIMIT as int) as i64,
                },
            ),
            forall|q: int|
                0 <= q < old(self).node_positions@.len() ==> #[trigger] final(self).node_positions@[q] == old(self).node_positions@[q],
            forall|q: int|
                0 <= q < old(self).node_velocities@.len() && q != index ==> #[trigger] final(self).node_velocities@[q] == old(self).node_velocities@[q],
            forall|q: int|
                old(self).node_positions@.len() <= q < final(self).node_positions@.len()
                    ==> #[trigger] final(self).node_positions@[q] is None,
    {
        if index >= self.node_positions.len() {
            while self.node_positions.len() <= index
                invariant
                    self.wf(),
                    self.node_positions@.len() == self.node_velocities@.len(),
                    self.damping == old(self).damping,
                    self.spring_constant == old(self).spring_constant,
                    self.repulsion_constant == old(self).repulsion_constant,
                    self.ideal_edge_length == old(self).ideal_edge_length,
                    self.time_step == old(self).time_step,
                    self.friction == old(self).friction,
                    self.frozen == old(self).frozen,
                    old(self).node_positions@.len() <= self.node_positions@.len(),
                    forall|q: int|
                        0 <= q < old(self).node_positions@.len() ==> #[trigger] self.node_positions@[q]
                            == old(self).node_positions@[q],
                    forall|q: int|
                        0 <= q < old(self).node_velocities@.len()
                            ==> #[trigger] self.node_velocities@[q] == old(self).node_velocities@[q],
                    forall|q: int|
                        old(self).node_positions@.len() <= q < self.node_positions@.len()
                            ==> #[trigger] self.node_positions@[q] is None,
                    self.node_positions@.len() <= index + 1,
                decreases index + 1 - self.node_positions@.len(),
            {
                self.node_positions.push(None);
                self.node_velocities.push(None);
            }
        }
        let x = clamp_i128(new_vel.x as i128, -(VEL_LIMIT as i128), VEL_LIMIT as i128) as i64;
        let y = clamp_i128(new_vel.y as i128, -(VEL_LIMIT as i128), VEL_LIMIT as i128) as i64;
        self.node_velocities[index] = Some(Vec2 { x, y });
    }

    /// Replace all positions with the supplied snapshot (clamped into
    /// range) and re-zero every velocity: a tracked node rests, an
    /// untracked slot stays empty.
    pub fn reset_positions(&mut self, initial_layout: &Vec<Option<Vec2>>)
        ensures
            final(self).wf() <== old(self).wf(),
            final(self).damping == old(self).damping,
            final(self).spring_constant == old(self).spring_constant,
            final(self).repulsion_constant == old(self).repulsion_constant,
            final(self).ideal_edge_length == old(self).ideal_edge_length,
            final(self).time_step == old(self).time_step,
            final(self).friction == old(self).friction,
            final(self).frozen == old(self).frozen,
            final(self).node_positions@.len() == initial_layout@.len(),
            final(self).node_velocities@.len() == initial_layout@.len(),
            forall|q: int|
                0 <= q < initial_layout@.len() ==> #[trigger] final(self).node_positions@[q] == (
                match initial_layout@[q] {
                    Some(p) => Some(
                        Vec2 {
                            x: clampi(p.x as int, POS_LIMIT as int) as i64,
                            y: clampi(p.y as int, POS_LIMIT as int) as i64,
                        },
                    ),
                    None => None,
                }),
            forall|q: int|
                0 <= q < initial_layout@.len() ==> #[trigger] final(self).node_velocities@[q] == (
                if initial_layout@[q] is Some {
                    Some(Vec2 { x: 0, y: 0 })
                } else {
                    Option::<Vec2>::None
                }),
    {
        let n = initial_layout.len();
        let mut pos: Vec<Option<Vec2>> = Vec::new();
        let mut vel: Vec<Option<Vec2>> = Vec::new();
        let mut i: usize = 0;
        while i < n
            invariant
                i <= n,
                n == initial_layout@.len(),
                pos@.len() == i,
                vel@.len() == i,
                forall|q: int|
                    0 <= q < i ==> #[trigger] pos@[q] == (match initial_layout@[q] {
                        Some(p) => Some(
                            Vec2 {
                                x: clampi(p.x as int, POS_LIMIT as int) as i64,
                                y: clampi(p.y as int, POS_LIMIT as int) as i64,
                            },
                        ),
                        None => None,
                    }),
                forall|q: int|
                    0 <= q < i ==> #[trigger] vel@[q] == (if initial_layout@[q] is Some {
                        Some(Vec2 { x: 0, y: 0 })
                    } else {
                        Option::<Vec2>::None
                    }),
                forall|q: int|
                    0 <= q < i && pos@[q] is Some ==> vec2_within(
                        (#[trigger] pos@[q])->Some_0,
                        POS_LIMIT as int,
                    ),
                forall|q: int|
                    0 <= q < i && vel@[q] is Some ==> vec2_within(
                        (#[trigger] vel@[q])->Some_0,
                        VEL_LIMIT as int,
                    ),
            decreases n - i,
        {
            match initial_layout[i] {
                Some(p) => {
                    let x = clamp_i128(p.x as i128, -(POS_LIMIT as i128), POS_LIMIT as i128) as i64;
                    let y = clamp_i128(p.y as i128, -(POS_LIMIT as i128), POS_LIMIT as i128) as i64;
                    pos.push(Some(Vec2 { x, y }));
                    vel.push(Some(Vec2 { x: 0, y: 0 }));
                },
                None => {
                    pos.push(None);
                    vel.push(None);
                },
            }
            i = i + 1;
        }
        self.node_positions = pos;
        self.node_velocities = vel;
    }

    /// Make sure node `index` is tracked: an untracked node is seeded with
    /// a random position within `radius` of `center` on each axis (clamped
    /// into range) and zero velocity; a tracked node is left untouched.
    pub fn ensure_node(&mut self, index: usize, center: Vec2, radius: i64)
        requires
            old(self).wf(),
            0 <= radius,
            index < usize::MAX,
        ensures
            final(self).wf(),
            final(self).damping == old(self).damping,
            final(self).spring_constant == old(self).spring_constant,
            final(self).repulsion_constant == old(self).repulsion_constant,
            final(self).ideal_edge_length == old(self).ideal_edge_length,
            final(self).time_step == old(self).time_step,
            final(self).friction == old(self).friction,
            final(self).frozen == old(self).frozen,
            index < final(self).node_positions@.len(),
            final(self).node_positions@[index as int] is Some,
            index < old(self).node_positions@.len() && old(self).node_positions@[index as int]
                is Some ==> final(self).node_positions@ == old(self).node_positions@ && final(self).node_velocities@ == old(self).node_velocities@,
            !(index < old(self).node_positions@.len() && old(self).node_positions@[index as int]
                is Some) ==> {
                let seeded = final(self).node_positions@[index as int]->Some_0;
                &&& clampi(center.x - radius, POS_LIMIT as int) <= seeded.x <= clampi(
                    center.x + radius,
                    POS_LIMIT as int,
                )
                &&& clampi(center.y - radius, POS_LIMIT as int) <= seeded.y <= clampi(
                    center.y + radius,
                    POS_LIMIT as int,
                )
                &&& final(self).node_velocities@[index as int] == Some(Vec2 { x: 0, y: 0 })
            },
            forall|q: int|
                0 <= q < old(self).node_positions@.len() && q != index ==> #[trigger] final(self).node_positions@[q] == old(self).node_positions@[q],
            forall|q: int|
                0 <= q < old(self).node_velocities@.len() && q != index ==> #[trigger] final(self).node_velocities@[q] == old(self).node_velocities@[q],
    {
        if index >= self.node_positions.len() {
            while self.node_positions.len() <= index
                invariant
                    self.wf(),
                    self.node_positions@.len() == self.node_velocities@.len(),
                    self.damping == old(self).damping,
                    self.spring_constant == old(self).spring_constant,
                    self.repulsion_constant == old(self).repulsion_constant,
                    self.ideal_edge_length == old(self).ideal_edge_length,
                    self.time_step == old(self).time_step,
                    self.friction == old(self).friction,
                    self.frozen == old(self).frozen,
                    old(self).node_positions@.len() <= self.node_positions@.len(),
                    forall|q: int|
                        0 <= q < old(self).node_positions@.len() ==> #[trigger] self.node_positions@[q]
                            == old(self).node_positions@[q],
                    forall|q: int|
                        0 <= q < old(self).node_velocities@.len()
                            ==> #[trigger] self.node_velocities@[q] == old(self).node_velocities@[q],
                    forall|q: int|
                        old(self).node_positions@.len() <= q < self.node_positions@.len()
                            ==> #[trigger] self.node_positions@[q] is None,
                    self.node_positions@.len() <= index + 1,
                decreases index + 1 - self.node_positions@.len(),
            {
                self.node_positions.push(None);
                self.node_velocities.push(None);
            }
        }
        if self.node_positions[index].is_none() {
            let lo_x = saturating_sub_i64(center.x, radius);
            let hi_x = saturating_add_i64(center.x, radius);
            let lo_y = saturating_sub_i64(center.y, radius);
            let hi_y = saturating_add_i64(center.y, radius);
            let rx = random_in_range(lo_x, hi_x);
            let ry = random_in_range(lo_y, hi_y);
            let x = clamp_i128(rx as i128, -(POS_LIMIT as i128), POS_LIMIT as i128) as i64;
            let y = clamp_i128(ry as i128, -(POS_LIMIT as i128), POS_LIMIT as i128) as i64;
            self.node_positions[index] = Some(Vec2 { x, y });
            self.node_velocities[index] = Some(Vec2 { x: 0, y: 0 });
        }
    }

    /// Advance one tick at a reduced effective time step (0.4 of normal),
    /// as used while a node is being dragged so the rest of the graph does
    /// not jitter; the stored time step is restored afterwards.
    pub fn update_during_drag(&mut self, edges: &Vec<(usize, usize)>)
        requires
            old(self).wf(),
        ensures
            final(self).wf(),
            final(self).damping == old(self).damping,
            final(self).spring_constant == old(self).spring_constant,
            final(self).repulsion_constant == old(self).repulsion_constant,
            final(self).ideal_edge_length == old(self).ideal_edge_length,
            final(self).time_step == old(self).time_step,
            final(self).friction == old(self).friction,
            final(self).frozen == old(self).frozen,
            old(self).frozen ==> final(self).node_positions@ == old(self).node_positions@
                && final(self).node_velocities@ == old(self).node_velocities@,
            !old(self).frozen ==> final(self).node_positions@ == spec_tick(
                spec_drag_reduced(*old(self)),
                edges@,
            ).0 && final(self).node_velocities@ == spec_tick(
                spec_drag_reduced(*old(self)),
                edges@,
            ).1,
    {
        let original = self.time_step;
        let reduced = ((original as u64) * 400 / 1000) as i64;
        self.time_step = reduced;
        proof {
            assert(*self == spec_drag_reduced(*old(self)));
        }
        self.update(edges);
        self.time_step = original;
    }

    /// Store `damping`, clamped into `[0, 1]` (as milli-units, `[0, 1000]`).
    pub fn set_damping(&mut self, damping: i64)
        ensures
            final(self).damping == spec_clamp(damping as int, 0, UNIT_MAX as int),
            unchanged_but_damping(*old(self), *final(self)),
            old(self).wf() ==> final(self).wf(),
    {
        self.damping = clamp_param(damping, UNIT_MAX);
    }

    /// Store `friction`, clamped into `[0, 1]` (as milli-units, `[0, 1000]`).
    pub fn set_friction(&mut self, friction: i64)
        ensures
            final(self).friction == spec_clamp(friction as int, 0, UNIT_MAX as int),
            unchanged_but_friction(*old(self), *final(self)),
            old(self).wf() ==> final(self).wf(),
    {
        self.friction = clamp_param(friction, UNIT_MAX);
    }

    /// Store `spring_constant`, clamped to be non-negative and within the
    /// engine's bound.
    pub fn set_spring_constant(&mut self, spring_constant: i64)
        ensures
            final(self).spring_constant == spec_clamp(spring_constant as int, 0, SPRING_MAX as int),
            unchanged_but_spring(*old(self), *final(self)),
            old(self).wf() ==> final(self).wf(),
    {
        self.spring_constant = clamp_param(spring_constant, SPRING_MAX);
    }

    /// Store `repulsion_constant`, clamped to be non-negative and within
    /// the engine's bound.
    pub fn set_repulsion_constant(&mut self, repulsion_constant: i64)
        ensures
            final(self).repulsion_constant == spec_clamp(
                repulsion_constant as int,
                0,
                REPULSION_MAX as int,
            ),
            unchanged_but_repulsion(*old(self), *final(self)),
            old(self).wf() ==> final(self).wf(),
    {
        self.repulsion_constant = clamp_param(repulsion_constant, REPULSION_MAX);
    }

    /// Store `ideal_edge_length`, clamped to be non-negative and within
    /// the engine's bound.
    pub fn set_ideal_edge_length(&mut self, length: i64)
        ensures
            final(self).ideal_edge_length == spec_clamp(length as int, 0, EDGE_LEN_MAX as int),
            unchanged_but_edge_len(*old(self), *final(self)),
            old(self).wf() ==> final(self).wf(),
    {
        self.ideal_edge_length = clamp_param(length, EDGE_LEN_MAX);
    }

    /// Store `time_step`, clamped to be non-negative and within the
    /// engine's bound.
    pub fn set_time_step(&mut self, time_step: i64)
        ensures
            final(self).time_step == spec_clamp(time_step as int, 0, TIME_STEP_MAX as int),
            unchanged_but_time_step(*old(self), *final(self)),
            old(self).wf() ==> final(self).wf(),
    {
        self.time_step = clamp_param(time_step, TIME_STEP_MAX);
    }
}

/// The simulator as the drag tick sees it: the time step scaled to 0.4 of
/// its stored value, everything else unchanged.
pub open spec fn spec_drag_reduced(s: PhysicsSimulator) -> PhysicsSimulator {
    PhysicsSimulator { time_step: ((s.time_step * 400) / 1000) as i64, ..s }
}

pub open spec fn unchanged_but_damping(a: PhysicsSimulator, b: PhysicsSimulator) -> bool {
    b == (PhysicsSimulator { damping: b.damping, ..a })
}

pub open spec fn unchanged_but_friction(a: PhysicsSimulator, b: PhysicsSimulator) -> bool {
    b == (PhysicsSimulator { friction: b.friction, ..a })
}

pub open spec fn unchanged_but_spring(a: PhysicsSimulator, b: PhysicsSimulator) -> bool {
    b == (PhysicsSimulator { spring_constant: b.spring_constant, ..a })
}

pub open spec fn unchanged_but_repulsion(a: PhysicsSimulator, b: PhysicsSimulator) -> bool {
    b == (PhysicsSimulator { repulsion_constant: b.repulsion_constant, ..a })
}

pub open spec fn unchanged_but_edge_len(a: PhysicsSimulator, b: PhysicsSimulator) -> bool {
    b == (PhysicsSimulator { ideal_edge_length: b.ideal_edge_length, ..a })
}

pub open spec fn unchanged_but_time_step(a: PhysicsSimulator, b: PhysicsSimulator) -> bool {
    b == (PhysicsSimulator { time_step: b.time_step, ..a })
}

/// A parameter clamped into `[0, hi]`.
fn clamp_param(v: i64, hi: i64) -> (r: i64)
    requires
        hi >= 0,
    ensures
        r == spec_clamp(v as int, 0, hi as int),
{
    if v < 0 {
        0
    } else if v > hi {
        hi
    } else {
        v
    }
}

/// `a - b` saturating at the `i64` range ends.
fn saturating_sub_i64(a: i64, b: i64) -> (r: i64)
    ensures
        r as int == spec_clamp(a - b, i64::MIN as int, i64::MAX as int),
{
    let wide: i128 = a as i128 - b as i128;
    clamp_i128(wide, i64::MIN as i128, i64::MAX as i128) as i64
}

/// `a + b` saturating at the `i64` range ends.
fn saturating_add_i64(a: i64, b: i64) -> (r: i64)
    ensures
        r as int == spec_clamp(a + b, i64::MIN as int, i64::MAX as int),
{
    let wide: i128 = a as i128 + b as i128;
    clamp_i128(wide, i64::MIN as i128, i64::MAX as i128) as i64
}

/// Relies on rand::random_range: a uniform sample in the closed range,
/// which panics only when the range is empty. Nothing more is assumed of
/// the value than its bounds.
#[verifier::external_body]
fn random_in_range(lo: i64, hi: i64) -> (r: i64)
    requires
        lo <= hi,
    ensures
        lo <= r <= hi,
{
    rand::random_range(lo..=hi)
}

/// The views of an executable force array.
pub open spec fn forces_view(v: Seq<(i64, i64)>) -> Seq<(int, int)> {
    v.map_values(|p: (i64, i64)| (p.0 as int, p.1 as int))
}

/// Two nodes at the very same position repel with exactly zero force: the
/// minimum-distance clamp makes the computation well-defined there (no
/// division by zero, no infinities), and the direction is degenerate.
pub proof fn lemma_repulsion_at_identical_positions(p: Vec2, rep: int)
    ensures
        spec_rep_force(p, p, rep) == (0int, 0int),
{
    assert(spec_isqrt(0) == 0);
    assert(spec_dist(0, 0) == MIN_DIST as int);
    assert(spec_tdiv(0, MIN_DIST as int) == 0) by {
        vstd::arithmetic::div_mod::lemma_div_of0(MIN_DIST as int);
    }
    assert(clampi(0, FORCE_LIMIT as int) == 0);
}

/// Repulsion forces are always finite: for any pair of positions the
/// components lie within the force bound.
pub proof fn lemma_repulsion_bounded(pa: Vec2, pb: Vec2, rep: int)
    ensures
        -FORCE_LIMIT <= spec_rep_force(pa, pb, rep).0 <= FORCE_LIMIT,
        -FORCE_LIMIT <= spec_rep_force(pa, pb, rep).1 <= FORCE_LIMIT,
{
}

} // verus!
