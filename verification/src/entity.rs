//! Billboard entities and ray-vs-billboard intersection.
//!
//! An entity is a camera-facing billboard: against an incoming ray it
//! presents a segment of length `w` centred on its position and perpendicular
//! to the ray's direction. The intersection is solved exactly in integer
//! arithmetic: with `e = pos - orig`, the projection of `e` onto the ray's
//! direction (`dot`) decides whether the billboard is in front of the ray,
//! and the scalar cross product (`cross`, the signed perpendicular offset)
//! decides whether the ray passes within half the width, and where.

use vstd::prelude::*;

verus! {

use crate::fixed::{ONE, tdiv, lemma_div_le, lemma_mul_div_exact};
use crate::util::{
    Vec2i, Intersection, IntersectionType, Ray, pos_valid, ray_valid, mul_bound,
};

/// A dynamic, camera-facing billboard entity.
#[derive(Clone, Copy, PartialEq, Eq, Structural, Debug)]
pub struct Entity {
    /// World position of the billboard's centre.
    pub pos: Vec2i,
    /// Tile symbol keying the entity's texture.
    pub texture: u8,
    /// Billboard width, in world units.
    pub w: i64,
    /// Billboard height, in world units.
    pub h: i64,
}

/// An entity the intersection and rendering code accepts.
pub open spec fn entity_valid(e: Entity) -> bool {
    &&& pos_valid(e.pos)
    &&& 1 <= e.w <= 65536
    &&& 1 <= e.h <= 65536
}

/// The projection of `pos - orig` onto the ray direction, scaled by `ONE`:
/// nonnegative exactly when the entity's centre is in front of the ray.
pub open spec fn ent_dot(e: Entity, r: Ray) -> int {
    r.dir.x * (e.pos.x - r.orig.x) + r.dir.y * (e.pos.y - r.orig.y)
}

/// The scalar cross product of the ray direction with `pos - orig`, scaled
/// by `ONE`: the signed perpendicular offset of the entity's centre from the
/// ray's line.
pub open spec fn ent_cross(e: Entity, r: Ray) -> int {
    r.dir.x * (e.pos.y - r.orig.y) - r.dir.y * (e.pos.x - r.orig.x)
}

/// Half the billboard's width, scaled by `ONE`.
pub open spec fn ent_half(e: Entity) -> int {
    e.w * (ONE as int) / 2
}

/// Whether the ray hits the billboard: the centre is in front of the ray and
/// its perpendicular offset is within half the billboard's width.
pub open spec fn ent_hits(e: Entity, r: Ray) -> bool {
    &&& ent_dot(e, r) >= 0
    &&& -ent_half(e) <= ent_cross(e, r) <= ent_half(e)
}

/// The horizontal texture fraction of the hit, fixed-point in `[0, ONE]`:
/// `0` at one edge of the billboard, `ONE` at the other, `ONE / 2` at the
/// centre.
pub open spec fn ent_col(e: Entity, r: Ray) -> int {
    tdiv((ent_half(e) - ent_cross(e, r)) * ONE, e.w * (ONE as int))
}

/// The distance from the ray's origin to the hit point (the projection of
/// the entity's centre onto the ray), in world units, rounded down.
pub open spec fn ent_t1(e: Entity, r: Ray) -> int {
    tdiv(ent_dot(e, r), ONE as int)
}

impl Entity {
    pub fn new(pos: Vec2i, texture: u8, size: (i64, i64)) -> (r: Self)
        ensures
            r.pos == pos,
            r.texture == texture,
            r.w == size.0,
            r.h == size.1,
    {
        Self { pos, texture, w: size.0, h: size.1 }
    }

    /// Intersects the ray with the billboard this entity presents to it.
    /// Returns the hit with its column fraction and its distance along the
    /// ray, or `None` when the ray points away or passes beside the
    /// billboard. The reported index is `0`; callers that scan an entity
    /// list fill in the list index.
    pub fn intersect(&self, ray: Ray) -> (res: Option<Intersection>)
        requires
            entity_valid(*self),
            ray_valid(ray),
        ensures
            (res is Some) <==> ent_hits(*self, ray),
            res matches Some(i) ==> {
                &&& i.itype is Entity
                &&& i.itype->index == 0
                &&& i.itype->col == ent_col(*self, ray)
                &&& 0 <= i.itype->col <= ONE
                &&& i.distance == ent_t1(*self, ray)
                &&& 0 <= i.distance
                &&& i.fisheye_distance == i.distance
            },
    {
        let ex = self.pos.x - ray.orig.x;
        let ey = self.pos.y - ray.orig.y;
        proof {
            mul_bound(ray.dir.x as int, ex as int, ONE as int, 2 * crate::util::COORD_MAX);
            mul_bound(ray.dir.y as int, ey as int, ONE as int, 2 * crate::util::COORD_MAX);
            mul_bound(ray.dir.x as int, ey as int, ONE as int, 2 * crate::util::COORD_MAX);
            mul_bound(ray.dir.y as int, ex as int, ONE as int, 2 * crate::util::COORD_MAX);
        }
        let dot = ray.dir.x * ex + ray.dir.y * ey;
        let cross = ray.dir.x * ey - ray.dir.y * ex;
        proof {
            mul_bound(self.w as int, 32768, 65536, 32768);
        }
        let half = self.w * (ONE / 2);
        proof {
            assert(half == ent_half(*self)) by {
                assert(self.w * (ONE as int) / 2 == self.w * 32768) by {
                    assert(self.w * (ONE as int) == (self.w * 32768) * 2) by (nonlinear_arith);
                    lemma_mul_div_exact(self.w * 32768, 2);
                }
            }
        }
        if dot >= 0 && -half <= cross && cross <= half {
            proof {
                mul_bound((half - cross) as int, ONE as int, 0x200000000, ONE as int);
                mul_bound(self.w as int, ONE as int, 65536, ONE as int);
                assert((half - cross) <= self.w * (ONE as int)) by (nonlinear_arith)
                    requires
                        half == self.w * (ONE as int) / 2,
                        self.w * (ONE as int) == (self.w * 32768) * 2,
                        cross >= -half,
                ;
                assert((half - cross) * (ONE as int) <= (self.w * (ONE as int)) * (ONE as int))
                    by (nonlinear_arith)
                    requires
                        0 <= half - cross <= self.w * (ONE as int),
                ;
                lemma_div_le(
                    (half - cross) * (ONE as int),
                    self.w * (ONE as int),
                    ONE as int,
                );
                assert(self.w * (ONE as int) >= 1) by (nonlinear_arith)
                    requires
                        self.w >= 1,
                ;
            }
            let col = (half - cross) * ONE / (self.w * ONE);
            let t1 = dot / ONE;
            proof {
                vstd::arithmetic::div_mod::lemma_div_pos_is_pos(dot as int, ONE as int);
            }
            Some(
                Intersection::new(IntersectionType::Entity { index: 0, col }, t1),
            )
        } else {
            None
        }
    }
}

/// A ray aimed directly at an entity's centre (its centre lies on the ray's
/// line, in front of the origin) hits, with a column fraction of exactly
/// one half.
pub proof fn lemma_entity_center_hit(e: Entity, r: Ray)
    requires
        entity_valid(e),
        ray_valid(r),
        ent_cross(e, r) == 0,
        ent_dot(e, r) >= 0,
    ensures
        ent_hits(e, r),
        ent_col(e, r) == ONE / 2,
{
    // half the width in fixed point is exactly w * (ONE / 2)
    assert(ent_half(e) == e.w * 32768) by {
        assert(e.w * (ONE as int) == (e.w * 32768) * 2) by (nonlinear_arith);
        lemma_mul_div_exact(e.w * 32768, 2);
    }
    assert(ent_half(e) >= 0) by (nonlinear_arith)
        requires
            e.w >= 1,
    ;
    // the column is (half * ONE) / (w * ONE), and half * ONE is exactly
    // (ONE / 2) times the divisor
    assert(e.w * (ONE as int) >= 1) by (nonlinear_arith)
        requires
            e.w >= 1,
    ;
    assert(ent_half(e) * (ONE as int) == 32768 * (e.w * (ONE as int))) by (nonlinear_arith)
        requires
            ent_half(e) == e.w * 32768,
    ;
    lemma_mul_div_exact(32768, e.w * (ONE as int));
}

/// A ray tangent to a billboard's edge (perpendicular offset exactly half
/// the width) hits with a column fraction of exactly `0` or `ONE`.
pub proof fn lemma_entity_edge_hit(e: Entity, r: Ray)
    requires
        entity_valid(e),
        ray_valid(r),
        ent_dot(e, r) >= 0,
    ensures
        ent_cross(e, r) == ent_half(e) ==> ent_hits(e, r) && ent_col(e, r) == 0,
        ent_cross(e, r) == -ent_half(e) ==> ent_hits(e, r) && ent_col(e, r) == ONE,
{
    assert(ent_half(e) >= 0) by (nonlinear_arith)
        requires
            e.w >= 1,
    ;
    assert(e.w * (ONE as int) >= 1) by (nonlinear_arith)
        requires
            e.w >= 1,
    ;
    if ent_cross(e, r) == ent_half(e) {
        assert(tdiv(0, e.w * (ONE as int)) == 0) by {
            vstd::arithmetic::div_mod::lemma_div_of0(e.w * (ONE as int));
        }
    }
    if ent_cross(e, r) == -ent_half(e) {
        assert(ent_half(e) == e.w * 32768) by {
            lemma_mul_div_exact(e.w * 32768, 2);
            assert(e.w * (ONE as int) == (e.w * 32768) * 2) by (nonlinear_arith);
        }
        assert((ent_half(e) + ent_half(e)) * (ONE as int) == (ONE as int) * (e.w * (ONE as int)))
            by (nonlinear_arith)
            requires
                ent_half(e) == e.w * 32768,
        ;
        lemma_mul_div_exact(ONE as int, e.w * (ONE as int));
    }
}

} // verus!
