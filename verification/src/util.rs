//! Rays, cast results, and movement helpers.
//!
//! World geometry is integer-valued: positions are plain `i64` world units and
//! a ray's direction is a fixed-point vector scaled by [`crate::fixed::ONE`]
//! (a heading angle would be carried as the vector `(cos, sin)` scaled by
//! `ONE`). Distances are Euclidean, rounded down to whole world units.

use vstd::prelude::*;

verus! {

use crate::fixed::{ONE, tdiv, abs_i, isqrt, is_isqrt, isqrt_i64, div_t};

/// World positions (and fixed-point direction vectors) as integer pairs.
#[derive(Clone, Copy, PartialEq, Eq, Structural, Debug)]
pub struct Vec2i {
    pub x: i64,
    pub y: i64,
}

/// Which side of a grid cell a ray entered through.
#[derive(Clone, Copy, PartialEq, Eq, Structural, Debug)]
pub enum Direction {
    North,
    East,
    South,
    West,
}

/// What a cast hit: a wall face of a grid cell, or a billboard entity.
#[derive(Clone, Copy, PartialEq, Eq, Structural, Debug)]
pub enum IntersectionType {
    Wall { gpos: Vec2i, face: Direction },
    /// `col` is the horizontal texture coordinate across the billboard,
    /// fixed-point in `[0, ONE]`.
    Entity { index: usize, col: i64 },
}

/// The result of a cast: what was hit and how far away.
#[derive(Clone, Copy, PartialEq, Eq, Structural, Debug)]
pub struct Intersection {
    pub itype: IntersectionType,
    pub distance: i64,
    /// Distance adjusted for the fisheye effect; set by the renderer,
    /// defaults to `distance`.
    pub fisheye_distance: i64,
}

/// A parametric line: origin, fixed-point direction vector, and pitch.
///
/// `pitch` is the camera's vertical look offset as a fixed-point fraction in
/// `[-ONE, ONE]` (the tangent-like quantity a caller derives from its pitch
/// angle); it only matters for rendering, never for casting.
#[derive(Clone, Copy, PartialEq, Eq, Structural, Debug)]
pub struct Ray {
    pub orig: Vec2i,
    pub dir: Vec2i,
    pub pitch: i64,
}

/// Positions this library does arithmetic on stay within this bound.
pub const COORD_MAX: i64 = 536870912;

/// Largest movement step accepted by the movement helpers.
pub const SPEED_MAX: i64 = 1048576;

/// A direction vector is fixed-point with components in `[-ONE, ONE]`,
/// not both zero.
pub open spec fn dir_valid(d: Vec2i) -> bool {
    &&& -ONE <= d.x <= ONE
    &&& -ONE <= d.y <= ONE
    &&& !(d.x == 0 && d.y == 0)
}

/// A position the library can safely do arithmetic on.
pub open spec fn pos_valid(p: Vec2i) -> bool {
    &&& -COORD_MAX <= p.x <= COORD_MAX
    &&& -COORD_MAX <= p.y <= COORD_MAX
}

/// A position at most one movement step beyond the valid range; movement
/// resolution still accepts it.
pub open spec fn pos_near(p: Vec2i) -> bool {
    &&& -COORD_MAX - SPEED_MAX <= p.x <= COORD_MAX + SPEED_MAX
    &&& -COORD_MAX - SPEED_MAX <= p.y <= COORD_MAX + SPEED_MAX
}

/// A ray the casting and rendering code accepts.
pub open spec fn ray_valid(r: Ray) -> bool {
    &&& pos_valid(r.orig)
    &&& dir_valid(r.dir)
    &&& -ONE <= r.pitch <= ONE
}

/// The point `origin + direction * t / ONE`, componentwise, rounded
/// toward zero.
pub open spec fn along_spec(r: Ray, t: int) -> Vec2i {
    Vec2i {
        x: (r.orig.x + tdiv(r.dir.x * t, ONE as int)) as i64,
        y: (r.orig.y + tdiv(r.dir.y * t, ONE as int)) as i64,
    }
}

/// Squared Euclidean distance between two points.
pub open spec fn dist2(a: Vec2i, b: Vec2i) -> int {
    (b.x - a.x) * (b.x - a.x) + (b.y - a.y) * (b.y - a.y)
}

impl Intersection {
    pub fn new(itype: IntersectionType, distance: i64) -> (r: Self)
        ensures
            r.itype == itype,
            r.distance == distance,
            r.fisheye_distance == distance,
    {
        Self { itype, distance, fisheye_distance: distance }
    }

    /// The grid cell of a wall hit.
    pub fn wall_gpos(&self) -> (r: Vec2i)
        requires
            self.itype is Wall,
        ensures
            r == self.itype->gpos,
    {
        match self.itype {
            IntersectionType::Wall { gpos, .. } => gpos,
            _ => {
                proof {
                    assert(false);
                }
                Vec2i { x: 0, y: 0 }
            },
        }
    }

    /// The horizontal texture fraction of an entity hit.
    pub fn entity_col(&self) -> (r: i64)
        requires
            self.itype is Entity,
        ensures
            r == self.itype->col,
    {
        match self.itype {
            IntersectionType::Entity { col, .. } => col,
            _ => {
                proof {
                    assert(false);
                }
                0
            },
        }
    }

    /// The entity list index of an entity hit.
    pub fn entity_index(&self) -> (r: usize)
        requires
            self.itype is Entity,
        ensures
            r == self.itype->index,
    {
        match self.itype {
            IntersectionType::Entity { index, .. } => index,
            _ => {
                proof {
                    assert(false);
                }
                0
            },
        }
    }
}

impl Ray {
    pub fn new(orig: Vec2i, dir: Vec2i) -> (r: Self)
        ensures
            r.orig == orig,
            r.dir == dir,
            r.pitch == 0,
    {
        Self { orig, dir, pitch: 0 }
    }

    /// The point reached after travelling `t` world units along the ray
    /// (exactly: `origin + direction * t / ONE`, rounded toward zero, so the
    /// result is linear in `t` up to fixed-point truncation).
    pub fn along(&self, t: i64) -> (r: Vec2i)
        requires
            ray_valid(*self),
            -4294967296 <= t <= 4294967296,
        ensures
            r == along_spec(*self, t as int),
            r.x == self.orig.x + tdiv(self.dir.x * t, ONE as int),
            r.y == self.orig.y + tdiv(self.dir.y * t, ONE as int),
            self.orig.x - abs_i(t as int) <= r.x <= self.orig.x + abs_i(t as int),
            self.orig.y - abs_i(t as int) <= r.y <= self.orig.y + abs_i(t as int),
    {
        proof {
            mul_bound(self.dir.x as int, t as int, ONE as int, 4294967296);
            mul_bound(self.dir.y as int, t as int, ONE as int, 4294967296);
            mul_bound(self.dir.x as int, t as int, ONE as int, abs_i(t as int));
            mul_bound(self.dir.y as int, t as int, ONE as int, abs_i(t as int));
            crate::fixed::lemma_tdiv_bound(self.dir.x * t, ONE as int, abs_i(t as int));
            crate::fixed::lemma_tdiv_bound(self.dir.y * t, ONE as int, abs_i(t as int));
        }
        Vec2i {
            x: self.orig.x + div_t(self.dir.x * t, ONE),
            y: self.orig.y + div_t(self.dir.y * t, ONE),
        }
    }

    /// The ray's direction vector.
    pub fn dir(&self) -> (r: Vec2i)
        ensures
            r == self.dir,
    {
        self.dir
    }
}

/// If `|a| <= m` and `|t| <= tm` then `|a * t| <= m * tm`.
pub proof fn mul_bound(a: int, t: int, m: int, tm: int)
    requires
        -m <= a <= m,
        -tm <= t <= tm,
        0 <= m,
        0 <= tm,
    ensures
        -(m * tm) <= a * t <= m * tm,
{
    assert(-(m * tm) <= a * t <= m * tm) by (nonlinear_arith)
        requires
            -m <= a <= m,
            -tm <= t <= tm,
            0 <= m,
            0 <= tm,
    ;
}

/// The straight step of `move_towards`: from `pos` a step of length `speed`
/// toward `target` (overshooting if `target` is nearer than `speed`, like the
/// original heading-based step); `pos` itself if the two points coincide.
pub open spec fn move_towards_spec(pos: Vec2i, target: Vec2i, speed: int) -> Vec2i {
    let d = isqrt(dist2(pos, target));
    if d == 0 {
        pos
    } else {
        Vec2i {
            x: (pos.x + tdiv((target.x - pos.x) * speed, d)) as i64,
            y: (pos.y + tdiv((target.y - pos.y) * speed, d)) as i64,
        }
    }
}

/// Steps `speed` world units from `pos` toward `target`, ignoring collision.
pub fn move_towards(pos: Vec2i, target: Vec2i, speed: i64) -> (r: Vec2i)
    requires
        pos_valid(pos),
        pos_valid(target),
        0 <= speed <= SPEED_MAX,
    ensures
        r == move_towards_spec(pos, target, speed as int),
        -COORD_MAX - SPEED_MAX <= r.x <= COORD_MAX + SPEED_MAX,
        -COORD_MAX - SPEED_MAX <= r.y <= COORD_MAX + SPEED_MAX,
{
    let dx = target.x - pos.x;
    let dy = target.y - pos.y;
    proof {
        mul_bound(dx as int, dx as int, 2 * COORD_MAX, 2 * COORD_MAX);
        mul_bound(dy as int, dy as int, 2 * COORD_MAX, 2 * COORD_MAX);
    }
    let d2 = dx * dx + dy * dy;
    proof {
        assert(dx * dx >= 0) by (nonlinear_arith);
        assert(dy * dy >= 0) by (nonlinear_arith);
    }
    let d = isqrt_i64(d2);
    if d == 0 {
        pos
    } else {
        proof {
            mul_bound(dx as int, speed as int, 2 * COORD_MAX, SPEED_MAX as int);
            mul_bound(dy as int, speed as int, 2 * COORD_MAX, SPEED_MAX as int);
            component_le_isqrt(dx as int, dy as int, d as int);
            component_le_isqrt(dy as int, dx as int, d as int);
            div_step_bound(dx as int, speed as int, d as int);
            div_step_bound(dy as int, speed as int, d as int);
        }
        Vec2i { x: pos.x + div_t(dx * speed, d), y: pos.y + div_t(dy * speed, d) }
    }
}

/// A component of a vector is bounded by the integer square root of the
/// squared length.
proof fn component_le_isqrt(a: int, b: int, d: int)
    requires
        is_isqrt(a * a + b * b, d),
    ensures
        -d <= a <= d,
{
    assert(-d <= a <= d) by (nonlinear_arith)
        requires
            0 <= d,
            a * a + b * b < (d + 1) * (d + 1),
    ;
}

/// A step `a * s / d` with `|a| <= d` is bounded by `s`.
proof fn div_step_bound(a: int, s: int, d: int)
    requires
        0 < d,
        -d <= a <= d,
        0 <= s,
    ensures
        -s <= tdiv(a * s, d) <= s,
{
    assert(-(d * s) <= a * s <= d * s) by (nonlinear_arith)
        requires
            -d <= a <= d,
            0 <= s,
    ;
    if a * s >= 0 {
        vstd::arithmetic::div_mod::lemma_div_is_ordered(a * s, d * s, d);
        vstd::arithmetic::div_mod::lemma_div_multiples_vanish(s, d);
        vstd::arithmetic::div_mod::lemma_div_pos_is_pos(a * s, d);
    } else {
        vstd::arithmetic::div_mod::lemma_div_is_ordered(-(a * s), d * s, d);
        vstd::arithmetic::div_mod::lemma_div_multiples_vanish(s, d);
        vstd::arithmetic::div_mod::lemma_div_pos_is_pos(-(a * s), d);
    }
}

/// Steps `speed` world units from `pos` toward `target`, then resolves the
/// step against the map's collision rule — the same rule player and NPC
/// motion share.
pub fn move_towards_collidable(map: &crate::map::GridMap, pos: Vec2i, target: Vec2i, speed: i64) -> (r: Vec2i)
    requires
        map.wf(),
        pos_valid(pos),
        pos_valid(target),
        0 <= speed <= SPEED_MAX,
    ensures
        r == crate::map::move_spec(*map, pos, move_towards_spec(pos, target, speed as int)),
{
    let stepped = move_towards(pos, target, speed);
    map.move_collidable(pos, stepped)
}

} // verus!
