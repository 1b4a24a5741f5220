//! The tile grid: layout parsing, cell queries, ray casting and
//! axis-separated collision resolution.
//!
//! A map is a rectangular grid of byte-sized tile symbols. `.` is an empty,
//! walkable tile; every other symbol is solid. Any query outside the grid is
//! treated as solid, which guarantees that every cast terminates and that
//! movement cannot leave the map.

use vstd::prelude::*;

verus! {

use vstd::string::StringSliceAdditionalSpecFns;
use crate::fixed::{tdiv, tmod, clamp, abs_i, isqrt, is_isqrt, isqrt_i64, div_t, rem_t, clamp_i64};
use crate::entity::Entity;
use crate::util::{
    Vec2i, Direction, Intersection, IntersectionType, Ray, pos_valid, ray_valid, mul_bound,
};

/// The tile symbol of an empty, walkable cell (`.`).
pub const EMPTY_TILE: u8 = 46;

/// The symbol reported for queries outside the grid (solid).
pub const SOLID_EDGE: u8 = 32;

/// Largest accepted grid width or height, in tiles.
pub const DIM_MAX: usize = 4096;

/// Largest accepted tile size, in world units.
pub const TSIZE_MAX: i64 = 65536;

/// Tile size a parsed map starts with, in world units.
pub const TSIZE_DEFAULT: i64 = 50;

/// Why a layout failed to parse.
#[derive(Clone, Copy, PartialEq, Eq, Structural, Debug)]
pub enum MapError {
    /// No tiles at all.
    Empty,
    /// Rows of unequal width (or an empty first row).
    NotRectangular,
    /// More rows or columns than the library accepts.
    TooLarge,
}

/// A rectangular tile grid with a world-unit tile size.
#[derive(Debug)]
pub struct GridMap {
    /// Row-major tile symbols, `w * h` of them.
    pub grid: Vec<u8>,
    /// Width in tiles.
    pub w: usize,
    /// Height in tiles.
    pub h: usize,
    /// Side length of one tile in world units.
    pub tsize: i64,
}

impl GridMap {
    /// Well-formedness: a nonempty rectangular grid of bounded size.
    pub open spec fn wf(&self) -> bool {
        &&& 1 <= self.w <= DIM_MAX
        &&& 1 <= self.h <= DIM_MAX
        &&& 1 <= self.tsize <= TSIZE_MAX
        &&& self.grid@.len() == self.w * self.h
    }

    /// The symbol at grid cell `(gx, gy)`; solid outside the grid.
    pub open spec fn at_spec(&self, gx: int, gy: int) -> u8 {
        if 0 <= gx < self.w && 0 <= gy < self.h {
            self.grid@[gy * self.w + gx]
        } else {
            SOLID_EDGE
        }
    }

    /// Whether grid cell `(gx, gy)` is empty (walkable).
    pub open spec fn empty_at(&self, gx: int, gy: int) -> bool {
        self.at_spec(gx, gy) == EMPTY_TILE
    }

    /// Whether `g` lies outside the grid.
    pub open spec fn oob_spec(&self, gx: int, gy: int) -> bool {
        gx < 0 || gx >= self.w || gy < 0 || gy >= self.h
    }

    /// World-box membership: positions inside the map's world rectangle.
    pub open spec fn in_world(&self, p: Vec2i) -> bool {
        &&& 0 <= p.x <= self.w * self.tsize
        &&& 0 <= p.y <= self.h * self.tsize
    }

    /// The symbol at grid cell `(gx, gy)`, solid outside the grid.
    pub fn at(&self, gx: i64, gy: i64) -> (r: u8)
        requires
            self.wf(),
        ensures
            r == self.at_spec(gx as int, gy as int),
    {
        if gx < 0 || gy < 0 || gx >= self.w as i64 || gy >= self.h as i64 {
            SOLID_EDGE
        } else {
            proof {
                lemma_grid_index(self.w as int, self.h as int, gx as int, gy as int);
            }
            self.grid[(gy as usize) * self.w + (gx as usize)]
        }
    }

    /// Overwrites the symbol at grid cell `(gx, gy)`, which must be inside
    /// the grid.
    pub fn set(&mut self, gx: i64, gy: i64, c: u8)
        requires
            old(self).wf(),
            !old(self).oob_spec(gx as int, gy as int),
        ensures
            final(self).w == old(self).w,
            final(self).h == old(self).h,
            final(self).tsize == old(self).tsize,
            final(self).grid@ == old(self).grid@.update(
                gy as int * old(self).w + gx as int,
                c,
            ),
            final(self).wf(),
    {
        proof {
            lemma_grid_index(self.w as int, self.h as int, gx as int, gy as int);
        }
        let i = (gy as usize) * self.w + (gx as usize);
        self.grid.set(i, c);
    }

    /// The grid cell containing world position `pos` (componentwise
    /// truncating division by the tile size).
    pub fn gpos(&self, pos: Vec2i) -> (r: Vec2i)
        requires
            self.wf(),
            pos_valid(pos),
        ensures
            r.x == tdiv(pos.x as int, self.tsize as int),
            r.y == tdiv(pos.y as int, self.tsize as int),
    {
        Vec2i {
            x: crate::fixed::div_t(pos.x, self.tsize),
            y: crate::fixed::div_t(pos.y, self.tsize),
        }
    }

    /// Whether a grid position lies outside the grid.
    pub fn out_of_bounds(&self, gpos: Vec2i) -> (r: bool)
        requires
            self.wf(),
        ensures
            r == self.oob_spec(gpos.x as int, gpos.y as int),
    {
        gpos.x < 0 || gpos.x >= self.w as i64 || gpos.y < 0 || gpos.y >= self.h as i64
    }
}

/// An exec-level record of where a boundary scan stopped: the crossing point,
/// the solid grid cell, the entered face and the squared distance from the
/// ray's origin.
#[derive(Clone, Copy, PartialEq, Eq, Structural, Debug)]
pub struct ScanHit {
    pub x: i64,
    pub y: i64,
    pub gx: i64,
    pub gy: i64,
    pub face: Direction,
    pub d2: i64,
}

/// A spec-level wall hit, used by the cast contracts.
pub ghost struct WallHit {
    pub x: int,
    pub y: int,
    pub gx: int,
    pub gy: int,
    pub face: Direction,
    pub d2: int,
}

/// A ray the casting code accepts: well-formed map, valid ray, origin inside
/// the map's world rectangle.
pub open spec fn cast_ok(m: GridMap, r: Ray) -> bool {
    &&& m.wf()
    &&& ray_valid(r)
    &&& m.in_world(r.orig)
}

// --- Horizontal-line scan: crossings of horizontal grid lines (y multiples
// --- of the tile size), walked in the direction of the ray's y component.

/// The first horizontal grid line the ray crosses (strictly ahead of the
/// origin when travelling toward increasing y, at or behind it otherwise).
pub open spec fn h_y0(m: GridMap, r: Ray) -> int {
    r.orig.y - tmod(r.orig.y as int, m.tsize as int) + if r.dir.y > 0 {
        m.tsize as int
    } else {
        0
    }
}

/// The y coordinate of the `k`-th crossing.
pub open spec fn h_y(m: GridMap, r: Ray, k: int) -> int {
    h_y0(m, r) + k * (if r.dir.y < 0 {
        -(m.tsize as int)
    } else {
        m.tsize as int
    })
}

/// The x coordinate of the `k`-th crossing before clamping:
/// `orig.x + |dy travelled| * |dir.x| / |dir.y|`, signed by `dir.x`.
pub open spec fn h_x_raw(m: GridMap, r: Ray, k: int) -> int {
    let xoff = tdiv(abs_i(h_y(m, r, k) - r.orig.y) * abs_i(r.dir.x as int), abs_i(r.dir.y as int));
    if r.dir.x >= 0 {
        r.orig.x + xoff
    } else {
        r.orig.x - xoff
    }
}

/// The x coordinate of the `k`-th crossing, clamped to one tile beyond the
/// map's world rectangle (the clamp keeps out-of-map hits of nearly
/// axis-aligned rays at bounded coordinates without changing which cells
/// count as solid).
pub open spec fn h_x(m: GridMap, r: Ray, k: int) -> int {
    clamp(h_x_raw(m, r, k), -(m.tsize as int), m.w * m.tsize + m.tsize)
}

/// The grid column of the `k`-th crossing.
pub open spec fn h_col(m: GridMap, r: Ray, k: int) -> int {
    tdiv(h_x(m, r, k), m.tsize as int)
}

/// The grid row entered at the `k`-th crossing (one less when travelling
/// toward decreasing y).
pub open spec fn h_row(m: GridMap, r: Ray, k: int) -> int {
    tdiv(h_y(m, r, k), m.tsize as int) - if r.dir.y < 0 {
        1int
    } else {
        0int
    }
}

/// Whether the scan stops at the `k`-th crossing (solid or out-of-bounds
/// cell).
pub open spec fn h_blocked(m: GridMap, r: Ray, k: int) -> bool {
    !m.empty_at(h_col(m, r, k), h_row(m, r, k))
}

/// The squared distance from the origin to the `k`-th crossing.
pub open spec fn h_d2(m: GridMap, r: Ray, k: int) -> int {
    (h_x(m, r, k) - r.orig.x) * (h_x(m, r, k) - r.orig.x) + (h_y(m, r, k) - r.orig.y) * (h_y(
        m,
        r,
        k,
    ) - r.orig.y)
}

/// The face a horizontal-line hit enters through.
pub open spec fn h_face(r: Ray) -> Direction {
    if r.dir.y < 0 {
        Direction::South
    } else {
        Direction::North
    }
}

/// `k` is the first blocked crossing.
pub open spec fn h_stops_at(m: GridMap, r: Ray, k: int) -> bool {
    &&& 0 <= k
    &&& h_blocked(m, r, k)
    &&& forall|j: int| 0 <= j < k ==> !h_blocked(m, r, j)
}

/// The index of the first blocked horizontal crossing.
pub open spec fn h_first(m: GridMap, r: Ray) -> int {
    choose|k: int| h_stops_at(m, r, k)
}

/// The horizontal scan's hit, as a spec value.
pub open spec fn h_hit(m: GridMap, r: Ray) -> WallHit {
    let k = h_first(m, r);
    WallHit {
        x: h_x(m, r, k),
        y: h_y(m, r, k),
        gx: h_col(m, r, k),
        gy: h_row(m, r, k),
        face: h_face(r),
        d2: h_d2(m, r, k),
    }
}

/// At most one crossing index is the first blocked one.
pub proof fn lemma_h_stops_unique(m: GridMap, r: Ray, k1: int, k2: int)
    requires
        h_stops_at(m, r, k1),
        h_stops_at(m, r, k2),
    ensures
        k1 == k2,
{
}

// --- Vertical-line scan: the symmetric walk over vertical grid lines.

/// The first vertical grid line the ray crosses.
pub open spec fn v_x0(m: GridMap, r: Ray) -> int {
    r.orig.x - tmod(r.orig.x as int, m.tsize as int) + if r.dir.x > 0 {
        m.tsize as int
    } else {
        0
    }
}

/// The x coordinate of the `k`-th crossing.
pub open spec fn v_x(m: GridMap, r: Ray, k: int) -> int {
    v_x0(m, r) + k * (if r.dir.x < 0 {
        -(m.tsize as int)
    } else {
        m.tsize as int
    })
}

/// The y coordinate of the `k`-th crossing before clamping.
pub open spec fn v_y_raw(m: GridMap, r: Ray, k: int) -> int {
    let yoff = tdiv(abs_i(v_x(m, r, k) - r.orig.x) * abs_i(r.dir.y as int), abs_i(r.dir.x as int));
    if r.dir.y >= 0 {
        r.orig.y + yoff
    } else {
        r.orig.y - yoff
    }
}

/// The y coordinate of the `k`-th crossing, clamped as in `h_x`.
pub open spec fn v_y(m: GridMap, r: Ray, k: int) -> int {
    clamp(v_y_raw(m, r, k), -(m.tsize as int), m.h * m.tsize + m.tsize)
}

/// The grid row of the `k`-th crossing.
pub open spec fn v_row(m: GridMap, r: Ray, k: int) -> int {
    tdiv(v_y(m, r, k), m.tsize as int)
}

/// The grid column entered at the `k`-th crossing.
pub open spec fn v_col(m: GridMap, r: Ray, k: int) -> int {
    tdiv(v_x(m, r, k), m.tsize as int) - if r.dir.x < 0 {
        1int
    } else {
        0int
    }
}

/// Whether the scan stops at the `k`-th crossing.
pub open spec fn v_blocked(m: GridMap, r: Ray, k: int) -> bool {
    !m.empty_at(v_col(m, r, k), v_row(m, r, k))
}

/// The squared distance from the origin to the `k`-th crossing.
pub open spec fn v_d2(m: GridMap, r: Ray, k: int) -> int {
    (v_x(m, r, k) - r.orig.x) * (v_x(m, r, k) - r.orig.x) + (v_y(m, r, k) - r.orig.y) * (v_y(
        m,
        r,
        k,
    ) - r.orig.y)
}

/// The face a vertical-line hit enters through.
pub open spec fn v_face(r: Ray) -> Direction {
    if r.dir.x < 0 {
        Direction::East
    } else {
        Direction::West
    }
}

/// `k` is the first blocked crossing.
pub open spec fn v_stops_at(m: GridMap, r: Ray, k: int) -> bool {
    &&& 0 <= k
    &&& v_blocked(m, r, k)
    &&& forall|j: int| 0 <= j < k ==> !v_blocked(m, r, j)
}

/// The index of the first blocked vertical crossing.
pub open spec fn v_first(m: GridMap, r: Ray) -> int {
    choose|k: int| v_stops_at(m, r, k)
}

/// The vertical scan's hit, as a spec value.
pub open spec fn v_hit(m: GridMap, r: Ray) -> WallHit {
    let k = v_first(m, r);
    WallHit {
        x: v_x(m, r, k),
        y: v_y(m, r, k),
        gx: v_col(m, r, k),
        gy: v_row(m, r, k),
        face: v_face(r),
        d2: v_d2(m, r, k),
    }
}

/// At most one crossing index is the first blocked one.
pub proof fn lemma_v_stops_unique(m: GridMap, r: Ray, k1: int, k2: int)
    requires
        v_stops_at(m, r, k1),
        v_stops_at(m, r, k2),
    ensures
        k1 == k2,
{
}

/// The wall hit `cast_ray` reports: the nearer of the two scans' hits
/// (the vertical one on a tie, as in a plain `<` comparison of distances);
/// a scan with no crossings in its direction (zero direction component)
/// never wins.
pub open spec fn cast_hit(m: GridMap, r: Ray) -> WallHit {
    if r.dir.y == 0 {
        v_hit(m, r)
    } else if r.dir.x == 0 {
        h_hit(m, r)
    } else if h_d2(m, r, h_first(m, r)) < v_d2(m, r, v_first(m, r)) {
        h_hit(m, r)
    } else {
        v_hit(m, r)
    }
}

impl GridMap {
    /// Scans the horizontal grid lines the ray crosses and returns the first
    /// blocked crossing; `None` when the ray is horizontal and crosses none.
    fn cast_ray_h(&self, ray: Ray) -> (res: Option<ScanHit>)
        requires
            cast_ok(*self, ray),
        ensures
            (res is Some) <==> ray.dir.y != 0,
            res matches Some(hit) ==> {
                &&& h_stops_at(*self, ray, h_first(*self, ray))
                &&& hit.x == h_x(*self, ray, h_first(*self, ray))
                &&& hit.y == h_y(*self, ray, h_first(*self, ray))
                &&& hit.gx == h_col(*self, ray, h_first(*self, ray))
                &&& hit.gy == h_row(*self, ray, h_first(*self, ray))
                &&& hit.face == h_face(ray)
                &&& hit.d2 == h_d2(*self, ray, h_first(*self, ray))
                &&& 0 <= hit.d2 < 0x400000000000000
                &&& -8192 <= hit.gx <= 8192
                &&& -8192 <= hit.gy <= 8192
            },
    {
        let s = self.tsize;
        let dx = ray.dir.x;
        let dy = ray.dir.y;
        if dy == 0 {
            return None;
        }
        let ox = ray.orig.x;
        let oy = ray.orig.y;
        proof {
            lemma_world_dims(self.w as int, self.h as int, s as int);
        }
        let wlim = (self.w as i64) * s;
        let hlim = (self.h as i64) * s;
        let rem = rem_t(oy, s);
        proof {
            vstd::arithmetic::div_mod::lemma_fundamental_div_mod(oy as int, s as int);
            vstd::arithmetic::div_mod::lemma_div_pos_is_pos(oy as int, s as int);
            assert((s as int) * ((oy as int) / (s as int)) >= 0) by (nonlinear_arith)
                requires
                    s >= 1,
                    (oy as int) / (s as int) >= 0,
            ;
        }
        let mut y = if dy > 0 {
            oy - rem + s
        } else {
            oy - rem
        };
        let ghost mut k: int = 0;
        proof {
            assert(y == h_y(*self, ray, 0));
        }
        loop
            invariant
                cast_ok(*self, ray),
                s == self.tsize,
                dx == ray.dir.x,
                dy == ray.dir.y,
                ox == ray.orig.x,
                oy == ray.orig.y,
                dy != 0,
                wlim == self.w * self.tsize,
                hlim == self.h * self.tsize,
                1 <= wlim <= 0x10000000,
                1 <= hlim <= 0x10000000,
                0 <= k,
                y == h_y(*self, ray, k),
                forall|j: int| 0 <= j < k ==> !h_blocked(*self, ray, j),
                dy > 0 ==> oy < y <= hlim + s,
                dy < 0 ==> 0 <= y <= oy,
            decreases (if dy > 0 {
                hlim + s - y
            } else {
                y as int
            }),
        {
            let ady = if dy < 0 {
                -dy
            } else {
                dy
            };
            let adx = if dx < 0 {
                -dx
            } else {
                dx
            };
            let dely = if dy > 0 {
                y - oy
            } else {
                oy - y
            };
            proof {
                assert(dely == abs_i(h_y(*self, ray, k) - oy));
                mul_bound(dely as int, adx as int, 0x10020000, 65536);
            }
            let prod = dely * adx;
            let xoff = div_t(prod, ady);
            let xr = if dx >= 0 {
                ox + xoff
            } else {
                ox - xoff
            };
            let x = clamp_i64(xr, -s, wlim + s);
            proof {
                assert(xr == h_x_raw(*self, ray, k));
                assert(x == h_x(*self, ray, k));
            }
            let col = div_t(x, s);
            let row = div_t(y, s) - if dy < 0 {
                1
            } else {
                0
            };
            proof {
                assert(col == h_col(*self, ray, k));
                assert(row == h_row(*self, ray, k));
            }
            if self.at(col, row) != EMPTY_TILE {
                proof {
                    assert(h_blocked(*self, ray, k));
                    assert(h_stops_at(*self, ray, k));
                    assert(exists|kk: int| h_stops_at(*self, ray, kk));
                    lemma_h_stops_unique(*self, ray, k, h_first(*self, ray));
                }
                let dxp = x - ox;
                let dyp = y - oy;
                proof {
                    mul_bound(dxp as int, dxp as int, 0x10020000, 0x10020000);
                    mul_bound(dyp as int, dyp as int, 0x10020000, 0x10020000);
                }
                let d2 = dxp * dxp + dyp * dyp;
                proof {
                    mul_bound(dxp as int, dxp as int, abs_i(dxp as int), abs_i(dxp as int));
                    assert(dxp * dxp >= 0) by (nonlinear_arith);
                    assert(dyp * dyp >= 0) by (nonlinear_arith);
                    assert(wlim + s <= (s as int) * 8192 && hlim + s <= (s as int) * 8192)
                        by (nonlinear_arith)
                        requires
                            wlim == self.w * self.tsize,
                            hlim == self.h * self.tsize,
                            s == self.tsize,
                            1 <= self.w <= DIM_MAX,
                            1 <= self.h <= DIM_MAX,
                            1 <= s,
                    ;
                    crate::fixed::lemma_tdiv_bound(x as int, s as int, 8192);
                    crate::fixed::lemma_tdiv_bound(y as int, s as int, 8192);
                }
                let face = if dy < 0 {
                    Direction::South
                } else {
                    Direction::North
                };
                return Some(ScanHit { x, y, gx: col, gy: row, face, d2 });
            }
            proof {
                assert(!h_blocked(*self, ray, k));
                // the crossed cell is in bounds, which bounds y for the next step
                let q = tdiv(y as int, s as int);
                vstd::arithmetic::div_mod::lemma_fundamental_div_mod(y as int, s as int);
                if dy > 0 {
                    assert(0 <= q < self.h);
                    assert(y < self.h * self.tsize) by (nonlinear_arith)
                        requires
                            y == (s as int) * q + (y as int) % (s as int),
                            0 <= (y as int) % (s as int) < s,
                            q <= self.h - 1,
                            1 <= s == self.tsize,
                            1 <= self.h,
                    ;
                } else {
                    assert(q - 1 >= 0);
                    assert(y >= s) by (nonlinear_arith)
                        requires
                            y == (s as int) * q + (y as int) % (s as int),
                            0 <= (y as int) % (s as int),
                            q >= 1,
                            1 <= s,
                    ;
                }
                let st: int = if ray.dir.y < 0 {
                    -(s as int)
                } else {
                    s as int
                };
                assert((k + 1) * st == k * st + st) by (nonlinear_arith);
            }
            y = if dy > 0 {
                y + s
            } else {
                y - s
            };
            proof {
                k = k + 1;
            }
        }
    }

    /// Scans the vertical grid lines the ray crosses and returns the first
    /// blocked crossing; `None` when the ray is vertical and crosses none.
    fn cast_ray_v(&self, ray: Ray) -> (res: Option<ScanHit>)
        requires
            cast_ok(*self, ray),
        ensures
            (res is Some) <==> ray.dir.x != 0,
            res matches Some(hit) ==> {
                &&& v_stops_at(*self, ray, v_first(*self, ray))
                &&& hit.x == v_x(*self, ray, v_first(*self, ray))
                &&& hit.y == v_y(*self, ray, v_first(*self, ray))
                &&& hit.gx == v_col(*self, ray, v_first(*self, ray))
                &&& hit.gy == v_row(*self, ray, v_first(*self, ray))
                &&& hit.face == v_face(ray)
                &&& hit.d2 == v_d2(*self, ray, v_first(*self, ray))
                &&& 0 <= hit.d2 < 0x400000000000000
                &&& -8192 <= hit.gx <= 8192
                &&& -8192 <= hit.gy <= 8192
            },
    {
        let s = self.tsize;
        let dx = ray.dir.x;
        let dy = ray.dir.y;
        if dx == 0 {
            return None;
        }
        let ox = ray.orig.x;
        let oy = ray.orig.y;
        proof {
            lemma_world_dims(self.w as int, self.h as int, s as int);
        }
        let wlim = (self.w as i64) * s;
        let hlim = (self.h as i64) * s;
        let rem = rem_t(ox, s);
        proof {
            vstd::arithmetic::div_mod::lemma_fundamental_div_mod(ox as int, s as int);
            vstd::arithmetic::div_mod::lemma_div_pos_is_pos(ox as int, s as int);
            assert((s as int) * ((ox as int) / (s as int)) >= 0) by (nonlinear_arith)
                requires
                    s >= 1,
                    (ox as int) / (s as int) >= 0,
            ;
        }
        let mut x = if dx > 0 {
            ox - rem + s
        } else {
            ox - rem
        };
        let ghost mut k: int = 0;
        proof {
            assert(x == v_x(*self, ray, 0));
        }
        loop
            invariant
                cast_ok(*self, ray),
                s == self.tsize,
                dx == ray.dir.x,
                dy == ray.dir.y,
                ox == ray.orig.x,
                oy == ray.orig.y,
                dx != 0,
                wlim == self.w * self.tsize,
                hlim == self.h * self.tsize,
                1 <= wlim <= 0x10000000,
                1 <= hlim <= 0x10000000,
                0 <= k,
                x == v_x(*self, ray, k),
                forall|j: int| 0 <= j < k ==> !v_blocked(*self, ray, j),
                dx > 0 ==> ox < x <= wlim + s,
                dx < 0 ==> 0 <= x <= ox,
            decreases (if dx > 0 {
                wlim + s - x
            } else {
                x as int
            }),
        {
            let adx = if dx < 0 {
                -dx
            } else {
                dx
            };
            let ady = if dy < 0 {
                -dy
            } else {
                dy
            };
            let delx = if dx > 0 {
                x - ox
            } else {
                ox - x
            };
            proof {
                assert(delx == abs_i(v_x(*self, ray, k) - ox));
                mul_bound(delx as int, ady as int, 0x10020000, 65536);
            }
            let prod = delx * ady;
            let yoff = div_t(prod, adx);
            let yr = if dy >= 0 {
                oy + yoff
            } else {
                oy - yoff
            };
            let y = clamp_i64(yr, -s, hlim + s);
            proof {
                assert(yr == v_y_raw(*self, ray, k));
                assert(y == v_y(*self, ray, k));
            }
            let row = div_t(y, s);
            let col = div_t(x, s) - if dx < 0 {
                1
            } else {
                0
            };
            proof {
                assert(row == v_row(*self, ray, k));
                assert(col == v_col(*self, ray, k));
            }
            if self.at(col, row) != EMPTY_TILE {
                proof {
                    assert(v_blocked(*self, ray, k));
                    assert(v_stops_at(*self, ray, k));
                    assert(exists|kk: int| v_stops_at(*self, ray, kk));
                    lemma_v_stops_unique(*self, ray, k, v_first(*self, ray));
                }
                let dxp = x - ox;
                let dyp = y - oy;
                proof {
                    mul_bound(dxp as int, dxp as int, 0x10020000, 0x10020000);
                    mul_bound(dyp as int, dyp as int, 0x10020000, 0x10020000);
                    assert(dxp * dxp >= 0) by (nonlinear_arith);
                    assert(dyp * dyp >= 0) by (nonlinear_arith);
                    assert(wlim + s <= (s as int) * 8192 && hlim + s <= (s as int) * 8192)
                        by (nonlinear_arith)
                        requires
                            wlim == self.w * self.tsize,
                            hlim == self.h * self.tsize,
                            s == self.tsize,
                            1 <= self.w <= DIM_MAX,
                            1 <= self.h <= DIM_MAX,
                            1 <= s,
                    ;
                    crate::fixed::lemma_tdiv_bound(x as int, s as int, 8192);
                    crate::fixed::lemma_tdiv_bound(y as int, s as int, 8192);
                }
                let d2 = dxp * dxp + dyp * dyp;
                let face = if dx < 0 {
                    Direction::East
                } else {
                    Direction::West
                };
                return Some(ScanHit { x, y, gx: col, gy: row, face, d2 });
            }
            proof {
                assert(!v_blocked(*self, ray, k));
                let q = tdiv(x as int, s as int);
                vstd::arithmetic::div_mod::lemma_fundamental_div_mod(x as int, s as int);
                if dx > 0 {
                    assert(0 <= q < self.w);
                    assert(x < self.w * self.tsize) by (nonlinear_arith)
                        requires
                            x == (s as int) * q + (x as int) % (s as int),
                            0 <= (x as int) % (s as int) < s,
                            q <= self.w - 1,
                            1 <= s == self.tsize,
                            1 <= self.w,
                    ;
                } else {
                    assert(q - 1 >= 0);
                    assert(x >= s) by (nonlinear_arith)
                        requires
                            x == (s as int) * q + (x as int) % (s as int),
                            0 <= (x as int) % (s as int),
                            q >= 1,
                            1 <= s,
                    ;
                }
                let st: int = if ray.dir.x < 0 {
                    -(s as int)
                } else {
                    s as int
                };
                assert((k + 1) * st == k * st + st) by (nonlinear_arith);
            }
            x = if dx > 0 {
                x + s
            } else {
                x - s
            };
            proof {
                k = k + 1;
            }
        }
    }

    /// Casts a ray against the grid: runs both boundary scans and returns the
    /// nearer wall hit, with the Euclidean distance (rounded down) from the
    /// ray's origin to the crossing point. Always returns, and the distance
    /// is bounded by the map's diagonal, because cells outside the grid are
    /// solid.
    pub fn cast_ray(&self, ray: Ray) -> (res: Intersection)
        requires
            cast_ok(*self, ray),
        ensures
            res.itype is Wall,
            res.itype->gpos.x == cast_hit(*self, ray).gx,
            res.itype->gpos.y == cast_hit(*self, ray).gy,
            res.itype->face == cast_hit(*self, ray).face,
            is_isqrt(cast_hit(*self, ray).d2, res.distance as int),
            res.distance == isqrt(cast_hit(*self, ray).d2),
            res.fisheye_distance == res.distance,
            0 <= res.distance < 0x40000000,
            !self.empty_at(cast_hit(*self, ray).gx, cast_hit(*self, ray).gy),
            -8192 <= res.itype->gpos.x <= 8192,
            -8192 <= res.itype->gpos.y <= 8192,
    {
        let ho = self.cast_ray_h(ray);
        let vo = self.cast_ray_v(ray);
        let hit: ScanHit = match (ho, vo) {
            (Some(hh), Some(vv)) => {
                if hh.d2 < vv.d2 {
                    hh
                } else {
                    vv
                }
            },
            (Some(hh), None) => hh,
            (None, Some(vv)) => vv,
            (None, None) => {
                proof {
                    assert(false);
                }
                ScanHit {
                    x: 0,
                    y: 0,
                    gx: 0,
                    gy: 0,
                    face: Direction::North,
                    d2: 0,
                }
            },
        };
        let distance = isqrt_i64(hit.d2);
        proof {
            assert(distance < 0x40000000) by (nonlinear_arith)
                requires
                    0 <= distance,
                    (distance as int) * (distance as int) <= hit.d2 < 0x400000000000000,
            ;
        }
        Intersection::new(
            IntersectionType::Wall { gpos: Vec2i { x: hit.gx, y: hit.gy }, face: hit.face },
            distance,
        )
    }
}

/// The newline byte separating layout rows.
pub const ROW_SEP: u8 = 10;

/// The layout's length with one trailing newline ignored.
pub open spec fn stripped_len(s: Seq<u8>) -> int {
    if s.len() > 0 && s[s.len() - 1] == ROW_SEP {
        s.len() - 1
    } else {
        s.len() as int
    }
}

/// The index of the first newline in `s[i..n]`, or `n` if there is none.
pub open spec fn first_nl(s: Seq<u8>, i: int, n: int) -> int
    recommends
        0 <= i <= n <= s.len(),
    decreases n - i,
{
    if i >= n {
        n
    } else if s[i] == ROW_SEP {
        i
    } else {
        first_nl(s, i + 1, n)
    }
}

/// The width of the layout's first row.
pub open spec fn layout_w(s: Seq<u8>) -> int {
    first_nl(s, 0, stripped_len(s))
}

/// Shape check: a nonempty first row, and a length consistent with rows of
/// that width separated by single newlines.
pub open spec fn layout_pre(s: Seq<u8>) -> bool {
    &&& layout_w(s) >= 1
    &&& (stripped_len(s) + 1) % (layout_w(s) + 1) == 0
}

/// The layout's number of rows.
pub open spec fn layout_h(s: Seq<u8>) -> int {
    (stripped_len(s) + 1) / (layout_w(s) + 1)
}

/// Rectangularity: the layout is exactly rows of equal width joined by
/// newlines (newlines at precisely the separator positions).
pub open spec fn layout_rect(s: Seq<u8>) -> bool {
    &&& layout_pre(s)
    &&& forall|i: int|
        0 <= i < stripped_len(s) ==> ((s[i] == ROW_SEP) <==> (i % (layout_w(s) + 1) == layout_w(
            s,
        )))
}

/// The grid extracted from a rectangular layout, row-major, newlines
/// removed.
pub open spec fn layout_grid(s: Seq<u8>) -> Seq<u8> {
    let w = layout_w(s);
    Seq::new((w * layout_h(s)) as nat, |k: int| s[(k / w) * (w + 1) + (k % w)])
}

/// The parsing contract shared by `GridMap::from` and `GridMap::from_bytes`:
/// empty input, non-rectangular input and oversized input are rejected, each
/// with its own error, and a well-formed layout parses to exactly its grid.
pub open spec fn parse_result(s: Seq<u8>, res: Result<GridMap, MapError>) -> bool {
    match res {
        Result::Err(MapError::Empty) => stripped_len(s) == 0,
        Result::Err(MapError::TooLarge) => {
            &&& stripped_len(s) > 0
            &&& layout_pre(s)
            &&& (layout_w(s) > DIM_MAX || layout_h(s) > DIM_MAX)
        },
        Result::Err(MapError::NotRectangular) => {
            &&& stripped_len(s) > 0
            &&& (!layout_pre(s) || (layout_w(s) <= DIM_MAX && layout_h(s) <= DIM_MAX
                && !layout_rect(s)))
        },
        Result::Ok(m) => {
            &&& stripped_len(s) > 0
            &&& layout_rect(s)
            &&& 1 <= layout_w(s) <= DIM_MAX
            &&& 1 <= layout_h(s) <= DIM_MAX
            &&& m.w == layout_w(s)
            &&& m.h == layout_h(s)
            &&& m.tsize == TSIZE_DEFAULT
            &&& m.grid@ == layout_grid(s)
            &&& m.wf()
        },
    }
}

/// If `s[i..w)` holds no newline and `w` is `n` or a newline position, the
/// first newline of `s[i..n)` is at `w`.
proof fn lemma_first_nl_at(s: Seq<u8>, i: int, n: int, w: int)
    requires
        0 <= i <= w <= n <= s.len(),
        forall|j: int| i <= j < w ==> s[j] != ROW_SEP,
        w == n || s[w] == ROW_SEP,
    ensures
        first_nl(s, i, n) == w,
    decreases w - i,
{
    if i < w {
        lemma_first_nl_at(s, i + 1, n, w);
    }
}

impl GridMap {
    /// Parses a textual layout: rows of equal width separated by newlines
    /// (one trailing newline is ignored). Empty input, rows of unequal
    /// width and oversized grids are rejected. The parsed map starts with
    /// the default tile size.
    pub fn from_bytes(bytes: &[u8]) -> (res: Result<GridMap, MapError>)
        ensures
            parse_result(bytes@, res),
    {
        let len0 = bytes.len();
        let n: usize = if len0 > 0 && bytes[len0 - 1] == ROW_SEP {
            len0 - 1
        } else {
            len0
        };
        proof {
            assert(n == stripped_len(bytes@));
        }
        if n == 0 {
            return Result::Err(MapError::Empty);
        }
        let mut w: usize = 0;
        while w < n && bytes[w] != ROW_SEP
            invariant
                0 <= w <= n <= bytes@.len(),
                forall|j: int| 0 <= j < w ==> bytes@[j] != ROW_SEP,
            decreases n - w,
        {
            w = w + 1;
        }
        proof {
            lemma_first_nl_at(bytes@, 0, n as int, w as int);
            assert(w == layout_w(bytes@));
        }
        if w == 0 {
            return Result::Err(MapError::NotRectangular);
        }
        let n128 = n as u128;
        let wp128 = w as u128 + 1;
        if (n128 + 1) % wp128 != 0 {
            return Result::Err(MapError::NotRectangular);
        }
        let h128 = (n128 + 1) / wp128;
        proof {
            vstd::arithmetic::div_mod::lemma_fundamental_div_mod(n as int + 1, w as int + 1);
            vstd::arithmetic::div_mod::lemma_div_pos_is_pos(n as int + 1, w as int + 1);
        }
        if w > DIM_MAX || h128 > DIM_MAX as u128 {
            return Result::Err(MapError::TooLarge);
        }
        let h = h128 as usize;
        let wp = w + 1;
        proof {
            assert(h >= 1) by {
                assert(n as int + 1 == (w as int + 1) * layout_h(bytes@));
                assert((w as int + 1) * layout_h(bytes@) >= 1 ==> layout_h(bytes@) >= 1)
                    by (nonlinear_arith)
                    requires
                        w as int + 1 >= 1,
                ;
            }
            assert(n as int == h * wp - 1) by (nonlinear_arith)
                requires
                    n as int + 1 == (w as int + 1) * (h as int),
                    wp == w + 1,
            ;
        }
        let mut grid: Vec<u8> = Vec::new();
        let mut r: usize = 0;
        while r < h
            invariant
                1 <= w <= DIM_MAX,
                1 <= h <= DIM_MAX,
                wp == w + 1,
                n as int == h * wp - 1,
                n <= bytes@.len(),
                w == layout_w(bytes@),
                n == stripped_len(bytes@),
                h == layout_h(bytes@),
                layout_pre(bytes@),
                0 <= r <= h,
                grid@.len() == r * w,
                forall|k: int|
                    0 <= k < r * w ==> grid@[k] == bytes@[(k / (w as int)) * (wp as int) + (k % (
                    w as int))],
                forall|i: int|
                    0 <= i < r * wp && i < n ==> ((bytes@[i] == ROW_SEP) <==> (i % (wp as int)
                        == w)),
            decreases h - r,
        {
            proof {
                assert(r * wp + wp <= h * wp && r * w + w <= h * w && h * w
                    <= DIM_MAX * DIM_MAX) by (nonlinear_arith)
                    requires
                        0 <= r < h,
                        1 <= w <= DIM_MAX,
                        1 <= h <= DIM_MAX,
                        wp == w + 1,
                ;
            }
            let base = r * wp;
            let mut c: usize = 0;
            while c < w
                invariant
                    1 <= w <= DIM_MAX,
                    1 <= h <= DIM_MAX,
                    wp == w + 1,
                    n as int == h * wp - 1,
                    n <= bytes@.len(),
                    w == layout_w(bytes@),
                    n == stripped_len(bytes@),
                    h == layout_h(bytes@),
                    layout_pre(bytes@),
                    0 <= r < h,
                    base == r * wp,
                    base + wp <= h * wp,
                    0 <= c <= w,
                    grid@.len() == r * w + c,
                    r * w + w <= h * w <= DIM_MAX * DIM_MAX,
                    forall|k: int|
                        0 <= k < r * w + c ==> grid@[k] == bytes@[(k / (w as int)) * (wp as int)
                            + (k % (w as int))],
                    forall|i: int|
                        0 <= i < r * wp + c && i < n ==> ((bytes@[i] == ROW_SEP) <==> (i % (
                        wp as int) == w)),
                decreases w - c,
            {
                let b = bytes[base + c];
                proof {
                    vstd::arithmetic::div_mod::lemma_fundamental_div_mod_converse(
                        base + c as int,
                        wp as int,
                        r as int,
                        c as int,
                    );
                }
                if b == ROW_SEP {
                    return Result::Err(MapError::NotRectangular);
                }
                grid.push(b);
                proof {
                    vstd::arithmetic::div_mod::lemma_fundamental_div_mod_converse(
                        r * w + c as int,
                        w as int,
                        r as int,
                        c as int,
                    );
                }
                c = c + 1;
            }
            if r + 1 < h {
                proof {
                    vstd::arithmetic::div_mod::lemma_fundamental_div_mod_converse(
                        base + w as int,
                        wp as int,
                        r as int,
                        w as int,
                    );
                    assert(base + w < n) by (nonlinear_arith)
                        requires
                            base == r * wp,
                            r + 1 < h,
                            wp == w + 1,
                            n as int == h * wp - 1,
                            w >= 1,
                    ;
                }
                let b = bytes[base + w];
                if b != ROW_SEP {
                    return Result::Err(MapError::NotRectangular);
                }
            }
            proof {
                assert((r + 1) * wp == r * wp + wp && (r + 1) * w == r * w + w)
                    by (nonlinear_arith);
                assert(forall|i: int|
                    0 <= i < (r + 1) * wp && i < n ==> ((bytes@[i] == ROW_SEP) <==> (i % (
                    wp as int) == w))) by {
                    assert forall|i: int|
                        0 <= i < (r + 1) * wp && i < n implies ((bytes@[i] == ROW_SEP) <==> (i
                        % (wp as int) == w)) by {
                        if i >= r * wp + w {
                            assert(i == r * wp + w);
                            vstd::arithmetic::div_mod::lemma_fundamental_div_mod_converse(
                                i,
                                wp as int,
                                r as int,
                                w as int,
                            );
                            if r + 1 < h {
                            } else {
                                assert(i == n);
                            }
                        }
                    }
                }
            }
            r = r + 1;
        }
        proof {
            assert(layout_rect(bytes@));
            assert(h * w == w * h) by (nonlinear_arith);
            assert(grid@ =~= layout_grid(bytes@));
        }
        Result::Ok(GridMap { grid, w, h, tsize: TSIZE_DEFAULT })
    }

    /// Parses a textual layout given as a string; see `from_bytes`.
    pub fn from(layout: &str) -> (res: Result<GridMap, MapError>)
        ensures
            parse_result(layout.spec_bytes(), res),
    {
        GridMap::from_bytes(layout.as_bytes())
    }
}

/// The index of the first occurrence of `c` in `tags[i..]`, or `tags.len()`
/// if there is none.
pub open spec fn find_tag(tags: Seq<u8>, c: u8, i: int) -> int
    recommends
        0 <= i <= tags.len(),
    decreases tags.len() - i,
{
    if i < 0 || i >= tags.len() {
        tags.len() as int
    } else if tags[i] == c {
        i
    } else {
        find_tag(tags, c, i + 1)
    }
}

/// Whether `c` is one of the entity tag symbols.
pub open spec fn is_tagged(tags: Seq<u8>, c: u8) -> bool {
    find_tag(tags, c, 0) < tags.len()
}

/// The entity extracted from grid cell `p` (row-major index): positioned at
/// the cell's centre, tagged with the cell's symbol, sized by the tag's
/// entry in `sizes`.
pub open spec fn cell_entity(m: GridMap, tags: Seq<u8>, sizes: Seq<(i64, i64)>, p: int) -> Entity {
    let y = p / (m.w as int);
    let x = p % (m.w as int);
    let j = find_tag(tags, m.grid@[p], 0);
    Entity {
        pos: Vec2i {
            x: (x * m.tsize + m.tsize / 2) as i64,
            y: (y * m.tsize + m.tsize / 2) as i64,
        },
        texture: m.grid@[p],
        w: sizes[j].0,
        h: sizes[j].1,
    }
}

/// The entities extracted from the first `p` grid cells, in row-major
/// order.
pub open spec fn extract_seq(m: GridMap, tags: Seq<u8>, sizes: Seq<(i64, i64)>, p: int) -> Seq<
    Entity,
>
    decreases p,
{
    if p <= 0 {
        Seq::empty()
    } else if is_tagged(tags, m.grid@[p - 1]) {
        extract_seq(m, tags, sizes, p - 1).push(cell_entity(m, tags, sizes, p - 1))
    } else {
        extract_seq(m, tags, sizes, p - 1)
    }
}

/// If `tags[0..r)` misses `c` and `r` is `tags.len()` or a position of `c`,
/// the first occurrence of `c` is at `r`.
proof fn lemma_find_tag_at(tags: Seq<u8>, c: u8, i: int, r: int)
    requires
        0 <= i <= r <= tags.len(),
        forall|j: int| i <= j < r ==> tags[j] != c,
        r == tags.len() || tags[r] == c,
    ensures
        find_tag(tags, c, i) == r,
    decreases r - i,
{
    if i < r {
        lemma_find_tag_at(tags, c, i + 1, r);
    }
}

/// The index of the first occurrence of `c` in `tags`, or `tags.len()` if
/// there is none.
fn tag_position(tags: &[u8], c: u8) -> (r: usize)
    ensures
        r == find_tag(tags@, c, 0),
        r <= tags@.len(),
        r < tags@.len() ==> tags@[r as int] == c,
        (r < tags@.len()) == is_tagged(tags@, c),
{
    let len = tags.len();
    let mut i: usize = 0;
    while i < len && tags[i] != c
        invariant
            0 <= i <= len == tags@.len(),
            forall|j: int| 0 <= j < i ==> tags@[j] != c,
        decreases len - i,
    {
        i = i + 1;
    }
    proof {
        lemma_find_tag_at(tags@, c, 0, i as int);
    }
    i
}

impl GridMap {
    /// Extracts the entities spawned by the grid: every cell whose symbol is
    /// in `entity_tags` yields an entity at the cell's centre, sized by the
    /// tag's entry in `entity_sizes`; those cells are then rewritten to
    /// empty, after which grid and entities are independent.
    pub fn filter_entities(&mut self, entity_tags: &[u8], entity_sizes: &[(i64, i64)]) -> (res:
        Vec<Entity>)
        requires
            old(self).wf(),
            entity_tags@.len() == entity_sizes@.len(),
            forall|j: int|
                0 <= j < entity_sizes@.len() ==> 1 <= (#[trigger] entity_sizes@[j]).0 <= 65536
                    && 1 <= entity_sizes@[j].1 <= 65536,
        ensures
            final(self).wf(),
            final(self).w == old(self).w,
            final(self).h == old(self).h,
            final(self).tsize == old(self).tsize,
            final(self).grid@.len() == old(self).grid@.len(),
            forall|p: int|
                0 <= p < old(self).grid@.len() ==> final(self).grid@[p] == (if is_tagged(
                    entity_tags@,
                    old(self).grid@[p],
                ) {
                    EMPTY_TILE
                } else {
                    old(self).grid@[p]
                }),
            res@ == extract_seq(
                *old(self),
                entity_tags@,
                entity_sizes@,
                old(self).w * old(self).h,
            ),
            forall|i: int| 0 <= i < res@.len() ==> crate::entity::entity_valid(#[trigger] res@[i]),
    {
        proof {
            lemma_grid_index(self.w as int, self.h as int, 0, 0);
        }
        let total = self.w * self.h;
        let mut res: Vec<Entity> = Vec::new();
        let mut p: usize = 0;
        while p < total
            invariant
                *self == *old(self),
                self.wf(),
                total == self.w * self.h,
                total == self.grid@.len(),
                entity_tags@.len() == entity_sizes@.len(),
                forall|j: int|
                    0 <= j < entity_sizes@.len() ==> 1 <= (#[trigger] entity_sizes@[j]).0
                        <= 65536 && 1 <= entity_sizes@[j].1 <= 65536,
                0 <= p <= total,
                res@ == extract_seq(*old(self), entity_tags@, entity_sizes@, p as int),
                forall|i: int|
                    0 <= i < res@.len() ==> crate::entity::entity_valid(#[trigger] res@[i]),
            decreases total - p,
        {
            let c = self.grid[p];
            let j = tag_position(entity_tags, c);
            if j < entity_tags.len() {
                let y = p / self.w;
                let x = p % self.w;
                proof {
                    vstd::arithmetic::div_mod::lemma_fundamental_div_mod(p as int, self.w as int);
                    assert(y < self.h && x < self.w) by (nonlinear_arith)
                        requires
                            y == p as int / (self.w as int),
                            x == p as int % (self.w as int),
                            p as int == (self.w as int) * y + x,
                            0 <= x < self.w,
                            0 <= p < self.w * self.h,
                            1 <= self.w,
                            1 <= self.h,
                    ;
                    assert(x * self.tsize + self.tsize / 2 <= 0x10000000 && y * self.tsize
                        + self.tsize / 2 <= 0x10000000) by (nonlinear_arith)
                        requires
                            0 <= x < self.w <= DIM_MAX,
                            0 <= y < self.h <= DIM_MAX,
                            1 <= self.tsize <= TSIZE_MAX,
                    ;
                    assert(x * self.tsize >= 0 && y * self.tsize >= 0) by (nonlinear_arith)
                        requires
                            0 <= x,
                            0 <= y,
                            1 <= self.tsize,
                    ;
                }
                let px = (x as i64) * self.tsize + self.tsize / 2;
                let py = (y as i64) * self.tsize + self.tsize / 2;
                let size = entity_sizes[j];
                let e = Entity::new(Vec2i { x: px, y: py }, c, size);
                res.push(e);
                proof {
                    assert(e == cell_entity(*old(self), entity_tags@, entity_sizes@, p as int));
                }
            }
            p = p + 1;
        }
        let mut q: usize = 0;
        while q < total
            invariant
                self.w == old(self).w,
                self.h == old(self).h,
                self.tsize == old(self).tsize,
                self.wf(),
                total == self.grid@.len(),
                total == old(self).grid@.len(),
                entity_tags@.len() == entity_sizes@.len(),
                0 <= q <= total,
                forall|i: int| q <= i < total ==> self.grid@[i] == old(self).grid@[i],
                forall|i: int|
                    0 <= i < q ==> self.grid@[i] == (if is_tagged(
                        entity_tags@,
                        old(self).grid@[i],
                    ) {
                        EMPTY_TILE
                    } else {
                        old(self).grid@[i]
                    }),
                res@ == extract_seq(
                    *old(self),
                    entity_tags@,
                    entity_sizes@,
                    old(self).w * old(self).h,
                ),
                forall|i: int|
                    0 <= i < res@.len() ==> crate::entity::entity_valid(#[trigger] res@[i]),
            decreases total - q,
        {
            let c = self.grid[q];
            let j = tag_position(entity_tags, c);
            if j < entity_tags.len() {
                self.grid.set(q, EMPTY_TILE);
            }
            q = q + 1;
        }
        res
    }
}

/// The probe margin used by movement resolution, in world units.
pub const MOVE_MARGIN: i64 = 10;

/// The per-axis probe offset: the margin in the direction of travel.
pub open spec fn probe_off(from: int, to: int) -> int {
    if to - from > 0 {
        MOVE_MARGIN as int
    } else {
        -MOVE_MARGIN as int
    }
}

/// What `move_collidable` returns: each axis moves only if the probed
/// destination tile on that axis (holding the other axis at its old grid
/// coordinate) is empty; otherwise that axis keeps its old coordinate.
pub open spec fn move_spec(m: GridMap, before: Vec2i, after: Vec2i) -> Vec2i {
    let offx = probe_off(before.x as int, after.x as int);
    let offy = probe_off(before.y as int, after.y as int);
    let s = m.tsize as int;
    let gx_old = tdiv(before.x + offx, s);
    let gy_old = tdiv(before.y + offy, s);
    let gx_new = tdiv(after.x + offx, s);
    let gy_new = tdiv(after.y + offy, s);
    Vec2i {
        x: (if m.empty_at(gx_new, gy_old) {
            after.x as int
        } else {
            before.x as int
        }) as i64,
        y: (if m.empty_at(gx_old, gy_new) {
            after.y as int
        } else {
            before.y as int
        }) as i64,
    }
}

impl GridMap {
    /// Resolves an attempted move from `before` to `after` with
    /// axis-separated sliding collision: each axis is accepted only if the
    /// destination tile probed a small margin ahead on that axis is empty.
    pub fn move_collidable(&self, before: Vec2i, after: Vec2i) -> (r: Vec2i)
        requires
            self.wf(),
            crate::util::pos_near(before),
            crate::util::pos_near(after),
        ensures
            r == move_spec(*self, before, after),
            r.x == after.x || r.x == before.x,
            r.y == after.y || r.y == before.y,
    {
        let offx = if after.x - before.x > 0 {
            MOVE_MARGIN
        } else {
            -MOVE_MARGIN
        };
        let offy = if after.y - before.y > 0 {
            MOVE_MARGIN
        } else {
            -MOVE_MARGIN
        };
        let gx_old = div_t(before.x + offx, self.tsize);
        let gy_old = div_t(before.y + offy, self.tsize);
        let gx_new = div_t(after.x + offx, self.tsize);
        let gy_new = div_t(after.y + offy, self.tsize);
        Vec2i {
            x: if self.at(gx_new, gy_old) == EMPTY_TILE {
                after.x
            } else {
                before.x
            },
            y: if self.at(gx_old, gy_new) == EMPTY_TILE {
                after.y
            } else {
                before.y
            },
        }
    }
}

/// Movement resolution never moves an axis into a non-empty probed tile: on
/// each axis the result either keeps the old coordinate, or the destination
/// tile probed on that axis is empty; in particular a fully solid destination
/// leaves that axis unchanged.
pub proof fn lemma_resolve_move_blocks(m: GridMap, before: Vec2i, after: Vec2i)
    requires
        m.wf(),
        pos_valid(before),
        pos_valid(after),
    ensures
        ({
            let r = move_spec(m, before, after);
            let offx = probe_off(before.x as int, after.x as int);
            let offy = probe_off(before.y as int, after.y as int);
            let s = m.tsize as int;
            &&& (r.x == before.x || m.empty_at(tdiv(r.x + offx, s), tdiv(before.y + offy, s)))
            &&& (r.y == before.y || m.empty_at(tdiv(before.x + offx, s), tdiv(r.y + offy, s)))
            &&& (!m.empty_at(tdiv(after.x + offx, s), tdiv(before.y + offy, s)) ==> r.x
                == before.x)
            &&& (!m.empty_at(tdiv(before.x + offx, s), tdiv(after.y + offy, s)) ==> r.y
                == before.y)
        }),
{
}

/// In a rectangular room with no interior walls (every grid cell empty,
/// solidity only at the boundary), a ray cast perpendicular to the east
/// wall stops exactly at the room's edge: it hits the out-of-bounds column
/// `w` through its west face, and its distance is exactly the world-unit
/// distance from the origin to the east edge. Cast from the room's centre,
/// that distance is half the room's width.
pub proof fn lemma_cast_open_room(m: GridMap, r: Ray)
    requires
        m.wf(),
        ray_valid(r),
        forall|gx: int, gy: int| 0 <= gx < m.w && 0 <= gy < m.h ==> m.empty_at(gx, gy),
        r.dir.y == 0,
        r.dir.x > 0,
        0 <= r.orig.x < m.w * m.tsize,
        0 <= r.orig.y < m.h * m.tsize,
    ensures
        v_stops_at(m, r, v_first(m, r)),
        cast_hit(m, r).gx == m.w,
        cast_hit(m, r).gy == tdiv(r.orig.y as int, m.tsize as int),
        cast_hit(m, r).face == Direction::West,
        cast_hit(m, r).d2 == (m.w * m.tsize - r.orig.x) * (m.w * m.tsize - r.orig.x),
        isqrt(cast_hit(m, r).d2) == m.w * m.tsize - r.orig.x,
{
    let s = m.tsize as int;
    let ox = r.orig.x as int;
    let oy = r.orig.y as int;
    let w = m.w as int;
    let h = m.h as int;
    lemma_world_dims(w, h, s);
    vstd::arithmetic::div_mod::lemma_fundamental_div_mod(ox, s);
    vstd::arithmetic::div_mod::lemma_div_pos_is_pos(ox, s);
    vstd::arithmetic::div_mod::lemma_fundamental_div_mod(oy, s);
    vstd::arithmetic::div_mod::lemma_div_pos_is_pos(oy, s);
    let q0 = ox / s + 1;
    let qy = oy / s;
    assert(q0 <= w && qy <= h - 1) by (nonlinear_arith)
        requires
            ox == s * (q0 - 1) + ox % s,
            oy == s * qy + oy % s,
            0 <= ox % s < s,
            0 <= oy % s < s,
            ox < w * s,
            oy < h * s,
            1 <= s,
            1 <= w,
            1 <= h,
    ;
    assert(qy >= 0);
    assert(v_x0(m, r) == s * q0) by (nonlinear_arith)
        requires
            v_x0(m, r) == ox - ox % s + s,
            ox == s * (q0 - 1) + ox % s,
    ;
    let kstar = w - q0;
    assert(kstar >= 0);
    // each crossing k >= 0 sits at column q0 + k, row qy
    assert forall|k: int| 0 <= k implies v_col(m, r, k) == q0 + k && v_row(m, r, k) == qy
        && v_x(m, r, k) == s * (q0 + k) by {
        assert(v_x(m, r, k) == s * (q0 + k)) by (nonlinear_arith)
            requires
                v_x(m, r, k) == s * q0 + k * s,
            ;
        assert(abs_i(r.dir.y as int) == 0);
        assert(abs_i(v_x(m, r, k) - ox) * 0 == 0) by (nonlinear_arith);
        assert(tdiv(0, abs_i(r.dir.x as int)) == 0) by {
            vstd::arithmetic::div_mod::lemma_div_of0(abs_i(r.dir.x as int));
        }
        assert(v_y_raw(m, r, k) == oy);
        assert(v_y(m, r, k) == oy) by {
            assert(0 <= oy <= h * s);
        }
        assert(v_row(m, r, k) == tdiv(oy, s) && tdiv(oy, s) == qy);
        assert(v_col(m, r, k) == tdiv(s * (q0 + k), s));
        assert(s * (q0 + k) >= 0) by (nonlinear_arith)
            requires
                q0 + k >= 0,
                s >= 1,
        ;
        assert(tdiv(s * (q0 + k), s) == q0 + k) by {
            vstd::arithmetic::div_mod::lemma_div_multiples_vanish(q0 + k, s);
        }
    }
    // blocked exactly at the boundary column
    assert(v_blocked(m, r, kstar)) by {
        assert(v_col(m, r, kstar) == w);
        assert(m.at_spec(w, qy) == SOLID_EDGE);
    }
    assert forall|j: int| 0 <= j < kstar implies !v_blocked(m, r, j) by {
        assert(v_col(m, r, j) == q0 + j);
        assert(1 <= q0 + j < w);
        assert(0 <= qy < h);
        assert(m.empty_at(q0 + j, qy));
    }
    assert(v_stops_at(m, r, kstar));
    assert(exists|k: int| v_stops_at(m, r, k));
    lemma_v_stops_unique(m, r, kstar, v_first(m, r));
    // the hit itself
    assert(v_x(m, r, kstar) == s * w) by (nonlinear_arith)
        requires
            v_x(m, r, kstar) == s * (q0 + kstar),
            q0 + kstar == w,
    ;
    assert(v_y(m, r, kstar) == oy);
    assert(cast_hit(m, r) == v_hit(m, r));
    assert(cast_hit(m, r).d2 == (s * w - ox) * (s * w - ox) + (oy - oy) * (oy - oy));
    assert((oy - oy) * (oy - oy) == 0) by (nonlinear_arith);
    assert(s * w == w * s) by (nonlinear_arith);
    // the distance is exact
    let a = w * s - ox;
    assert(a >= 1);
    assert(is_isqrt(a * a, a)) by (nonlinear_arith)
        requires
            a >= 0,
    ;
    crate::fixed::lemma_isqrt_is(a * a, a);
}

/// The world rectangle of a well-formed map is bounded.
pub proof fn lemma_world_dims(w: int, h: int, s: int)
    by (nonlinear_arith)
    requires
        1 <= w <= DIM_MAX,
        1 <= h <= DIM_MAX,
        1 <= s <= TSIZE_MAX,
    ensures
        1 <= w * s <= 0x10000000,
        1 <= h * s <= 0x10000000,
{
}

/// In-bounds cells index into the grid vector.
pub proof fn lemma_grid_index(w: int, h: int, gx: int, gy: int)
    requires
        1 <= w <= DIM_MAX,
        1 <= h <= DIM_MAX,
        0 <= gx < w,
        0 <= gy < h,
    ensures
        0 <= gy * w + gx < w * h,
        w * h <= DIM_MAX * DIM_MAX,
{
    assert(0 <= gy * w + gx < w * h && w * h <= DIM_MAX * DIM_MAX) by (nonlinear_arith)
        requires
            1 <= w <= DIM_MAX,
            1 <= h <= DIM_MAX,
            0 <= gx < w,
            0 <= gy < h,
    ;
}

} // verus!
