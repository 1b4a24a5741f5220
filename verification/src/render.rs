//! The per-column rendering pipeline: fog, camera columns, wall, floor,
//! ceiling and entity painting into a framebuffer.
//!
//! Every quantity is integer or fixed-point (scale [`ONE`]); the camera's
//! per-column ray directions and fisheye-correction factors are plain values
//! a caller derives once per frame from its heading angle and field of view.

use vstd::prelude::*;

verus! {

use crate::fixed::{
    ONE, tdiv, emod, clamp, min_i, max_i, isqrt, isqrt_i64, div_t, rem_e, clamp_i64,
    lemma_div_le, lemma_div_lt, lemma_mul_div_exact,
};
use crate::util::{
    Vec2i, Intersection, IntersectionType, Ray, Direction, ray_valid, dir_valid, along_spec,
    dist2, mul_bound,
};
use crate::map::{GridMap, cast_ok, cast_hit, lemma_grid_index};
use crate::entity::{Entity, entity_valid, ent_hits, ent_t1, ent_col};
use crate::image::{Rgba, Image, Surface, TextureSet, surface_wf, clear_pixel};

/// Distance-based fog: none, linear fade to a distance, or the linear fade
/// with an additional radial vignette post-pass.
#[derive(Clone, Copy, PartialEq, Eq, Structural, Debug)]
pub enum Fog {
    Off,
    /// Fade distance, in world units.
    Point(i64),
    /// Fade distance (world units) and vignette radius (pixels).
    Directional(i64, i64),
}

/// Fog parameters the renderer accepts.
pub open spec fn fog_valid(f: Fog) -> bool {
    match f {
        Fog::Off => true,
        Fog::Point(d) => 1 <= d <= 0x40000000,
        Fog::Directional(d, rad) => 1 <= d <= 0x40000000 && 1 <= rad <= 0x40000000,
    }
}

/// The fog factor at `dist`: `ONE` (no attenuation) with fog off, otherwise
/// the linear fade `(fade - dist) * ONE / fade`, zero from the fade distance
/// on.
pub open spec fn fog_spec(f: Fog, dist: int) -> int {
    match f {
        Fog::Off => ONE as int,
        Fog::Point(d) => if dist >= d {
            0
        } else {
            (d - dist) * ONE / (d as int)
        },
        Fog::Directional(d, _) => if dist >= d {
            0
        } else {
            (d - dist) * ONE / (d as int)
        },
    }
}

/// The fog factor is always a fraction in `[0, ONE]`.
pub proof fn lemma_fog_range(f: Fog, dist: int)
    requires
        fog_valid(f),
        0 <= dist,
    ensures
        0 <= fog_spec(f, dist) <= ONE,
{
    match f {
        Fog::Off => {},
        Fog::Point(d) => {
            if dist < d {
                assert((d - dist) * (ONE as int) <= (d as int) * (ONE as int)) by (nonlinear_arith)
                    requires
                        0 <= d - dist <= d,
                ;
                lemma_div_le((d - dist) * (ONE as int), d as int, ONE as int);
            }
        },
        Fog::Directional(d, _) => {
            if dist < d {
                assert((d - dist) * (ONE as int) <= (d as int) * (ONE as int)) by (nonlinear_arith)
                    requires
                        0 <= d - dist <= d,
                ;
                lemma_div_le((d - dist) * (ONE as int), d as int, ONE as int);
            }
        },
    }
}

/// At distance zero there is no attenuation: the fog factor is exactly
/// `ONE`.
pub proof fn lemma_fog_at_zero(f: Fog)
    requires
        fog_valid(f),
    ensures
        fog_spec(f, 0) == ONE,
{
    match f {
        Fog::Off => {},
        Fog::Point(d) => {
            lemma_mul_div_exact(ONE as int, d as int);
            assert(d * (ONE as int) == (ONE as int) * (d as int)) by (nonlinear_arith);
        },
        Fog::Directional(d, _) => {
            lemma_mul_div_exact(ONE as int, d as int);
            assert(d * (ONE as int) == (ONE as int) * (d as int)) by (nonlinear_arith);
        },
    }
}

/// From the fade distance on, the fog factor is exactly zero.
pub proof fn lemma_fog_beyond(f: Fog, dist: int)
    requires
        fog_valid(f),
        match f {
            Fog::Off => true,
            Fog::Point(d) => dist >= d,
            Fog::Directional(d, _) => dist >= d,
        },
    ensures
        f is Point ==> fog_spec(f, dist) == 0,
        f is Directional ==> fog_spec(f, dist) == 0,
{
}

/// The fog factor is monotonically non-increasing in distance.
pub proof fn lemma_fog_monotone(f: Fog, d1: int, d2: int)
    requires
        fog_valid(f),
        0 <= d1 <= d2,
    ensures
        fog_spec(f, d1) >= fog_spec(f, d2),
{
    lemma_fog_range(f, d1);
    lemma_fog_range(f, d2);
    match f {
        Fog::Off => {},
        Fog::Point(d) => {
            if d2 < d {
                assert((d - d2) * (ONE as int) <= (d - d1) * (ONE as int));
                vstd::arithmetic::div_mod::lemma_div_is_ordered(
                    (d - d2) * (ONE as int),
                    (d - d1) * (ONE as int),
                    d as int,
                );
            }
        },
        Fog::Directional(d, _) => {
            if d2 < d {
                assert((d - d2) * (ONE as int) <= (d - d1) * (ONE as int));
                vstd::arithmetic::div_mod::lemma_div_is_ordered(
                    (d - d2) * (ONE as int),
                    (d - d1) * (ONE as int),
                    d as int,
                );
            }
        },
    }
}

/// Computes the fog factor at `distance`, fixed-point in `[0, ONE]`.
pub fn calculate_fog(fog: Fog, distance: i64) -> (r: i64)
    requires
        fog_valid(fog),
        0 <= distance,
    ensures
        r == fog_spec(fog, distance as int),
        0 <= r <= ONE,
{
    proof {
        lemma_fog_range(fog, distance as int);
    }
    match fog {
        Fog::Off => ONE,
        Fog::Point(d) => {
            if distance >= d {
                0
            } else {
                (d - distance) * ONE / d
            }
        },
        Fog::Directional(d, _) => {
            if distance >= d {
                0
            } else {
                (d - distance) * ONE / d
            }
        },
    }
}

/// One screen column's ray: its direction and its fisheye-correction factor
/// (the cosine of its angular offset from the camera's central heading,
/// fixed-point in `[0, ONE]`).
#[derive(Clone, Copy, PartialEq, Eq, Structural, Debug)]
pub struct ColumnRay {
    pub dir: Vec2i,
    pub fisheye: i64,
}

/// A camera: the central ray (origin, heading direction, pitch) and one
/// precomputed `ColumnRay` per screen column, interpolated across the
/// horizontal field of view by the caller.
pub struct Camera {
    pub ray: Ray,
    pub cols: Vec<ColumnRay>,
}

/// A camera the renderer accepts.
pub open spec fn camera_wf(c: Camera) -> bool {
    &&& ray_valid(c.ray)
    &&& forall|i: int|
        0 <= i < c.cols@.len() ==> dir_valid((#[trigger] c.cols@[i]).dir) && 0 <= c.cols@[i].fisheye
            <= ONE
}

/// The full ray of screen column `i`.
pub open spec fn col_ray(c: Camera, i: int) -> Ray {
    Ray { orig: c.ray.orig, dir: c.cols@[i].dir, pitch: c.ray.pitch }
}

/// The `Intersection` value a map cast returns, as a spec value.
pub open spec fn cast_ins_spec(m: GridMap, r: Ray) -> Intersection {
    Intersection {
        itype: IntersectionType::Wall {
            gpos: Vec2i { x: cast_hit(m, r).gx as i64, y: cast_hit(m, r).gy as i64 },
            face: cast_hit(m, r).face,
        },
        distance: isqrt(cast_hit(m, r).d2) as i64,
        fisheye_distance: isqrt(cast_hit(m, r).d2) as i64,
    }
}

/// The wall intersection of screen column `i`, with its fisheye-corrected
/// distance (`distance * fisheye / ONE`).
pub open spec fn col_ins_spec(m: GridMap, c: Camera, i: int) -> Intersection {
    let ins = cast_ins_spec(m, col_ray(c, i));
    Intersection {
        itype: ins.itype,
        distance: ins.distance,
        fisheye_distance: tdiv(ins.distance * c.cols@[i].fisheye, ONE as int) as i64,
    }
}

/// Casts one ray per screen column against the map (entities ignored) and
/// attaches each column's fisheye-corrected distance.
pub fn cast_rays(map: &GridMap, cam: &Camera) -> (res: Vec<Intersection>)
    requires
        map.wf(),
        camera_wf(*cam),
        map.in_world(cam.ray.orig),
    ensures
        res@.len() == cam.cols@.len(),
        forall|i: int| 0 <= i < res@.len() ==> res@[i] == col_ins_spec(*map, *cam, i),
        forall|i: int|
            0 <= i < res@.len() ==> {
                let ins = #[trigger] res@[i];
                &&& ins.itype is Wall
                &&& -8192 <= ins.itype->gpos.x <= 8192
                &&& -8192 <= ins.itype->gpos.y <= 8192
                &&& 0 <= ins.distance < 0x40000000
                &&& 0 <= ins.fisheye_distance <= ins.distance
                &&& !map.empty_at(ins.itype->gpos.x as int, ins.itype->gpos.y as int)
            },
{
    let n = cam.cols.len();
    let mut res: Vec<Intersection> = Vec::new();
    let mut i: usize = 0;
    while i < n
        invariant
            map.wf(),
            camera_wf(*cam),
            map.in_world(cam.ray.orig),
            n == cam.cols@.len(),
            0 <= i <= n,
            res@.len() == i,
            forall|j: int| 0 <= j < i ==> res@[j] == col_ins_spec(*map, *cam, j),
            forall|j: int|
                0 <= j < i ==> {
                    let ins = #[trigger] res@[j];
                    &&& ins.itype is Wall
                    &&& -8192 <= ins.itype->gpos.x <= 8192
                    &&& -8192 <= ins.itype->gpos.y <= 8192
                    &&& 0 <= ins.distance < 0x40000000
                    &&& 0 <= ins.fisheye_distance <= ins.distance
                    &&& !map.empty_at(ins.itype->gpos.x as int, ins.itype->gpos.y as int)
                },
        decreases n - i,
    {
        let cr = Ray { orig: cam.ray.orig, dir: cam.cols[i].dir, pitch: cam.ray.pitch };
        let mut ins = map.cast_ray(cr);
        proof {
            mul_bound(ins.distance as int, cam.cols@[i as int].fisheye as int, 0x40000000, ONE as int);
        }
        proof {
            assert(0 <= ins.distance * cam.cols@[i as int].fisheye <= (ONE as int) * (
            ins.distance as int)) by (nonlinear_arith)
                requires
                    0 <= ins.distance,
                    0 <= cam.cols@[i as int].fisheye <= ONE,
            ;
            lemma_div_le(
                ins.distance * cam.cols@[i as int].fisheye,
                ONE as int,
                ins.distance as int,
            );
        }
        ins.fisheye_distance = div_t(ins.distance * cam.cols[i].fisheye, ONE);
        res.push(ins);
        i = i + 1;
    }
    res
}

/// Shading applied to the north/south wall faces when fog is off,
/// fixed-point (about four fifths).
pub const NS_SHADE: i64 = 52428;

/// Cap on a painted span's pixel height.
pub const SPAN_MAX: i64 = 1048576;

/// A colour channel scaled by a fixed-point fraction in `[0, ONE]`.
pub open spec fn scale_channel(v: u8, f: int) -> u8 {
    (f * v / (ONE as int)) as u8
}

/// A pixel with its colour channels scaled by `f`, alpha kept.
pub open spec fn shade_rgb(c: Rgba, f: int) -> Rgba {
    Rgba { r: scale_channel(c.r, f), g: scale_channel(c.g, f), b: scale_channel(c.b, f), a: c.a }
}

/// The parameters of one wall-column span, as spec values.
pub ghost struct WallParams {
    pub imgw: int,
    pub imgh: int,
    pub x: int,
    pub tex: Seq<Rgba>,
    pub tw: int,
    pub th: int,
    pub srcx: int,
    pub offset: int,
    pub hpix: int,
    pub shade: int,
}

/// The wall pixel painted at row `y`, or `None` for a fully transparent
/// texture pixel (left as it was).
pub open spec fn wall_px(p: WallParams, y: int) -> Option<Rgba> {
    let srcy = (y - p.offset) * p.th / p.hpix;
    let c = p.tex[srcy * p.tw + p.srcx];
    if c.a > 0 {
        Option::Some(shade_rgb(c, p.shade))
    } else {
        Option::None
    }
}

/// The framebuffer after painting the first `n` rows of a wall span
/// starting at row `y0`.
pub open spec fn wall_pass(data: Seq<Rgba>, p: WallParams, y0: int, n: int) -> Seq<Rgba>
    decreases n,
{
    if n <= 0 {
        data
    } else {
        let prev = wall_pass(data, p, y0, n - 1);
        let y = y0 + n - 1;
        match wall_px(p, y) {
            Option::Some(c) => if 0 <= y * p.imgw + p.x < prev.len() {
                prev.update(y * p.imgw + p.x, c)
            } else {
                prev
            },
            Option::None => prev,
        }
    }
}

/// Painting a wall span never changes the framebuffer's length.
pub proof fn lemma_wall_pass_len(data: Seq<Rgba>, p: WallParams, y0: int, n: int)
    ensures
        wall_pass(data, p, y0, n).len() == data.len(),
    decreases n,
{
    if n > 0 {
        lemma_wall_pass_len(data, p, y0, n - 1);
    }
}

// --- The derived quantities of a wall span, shared by the exec code and
// --- its contract.

/// The tile symbol of the wall cell that was hit.
pub open spec fn wall_sym(m: GridMap, ins: Intersection) -> u8 {
    m.at_spec(ins.itype->gpos.x as int, ins.itype->gpos.y as int)
}

/// The hit wall's height multiplier (fixed-point).
pub open spec fn wall_hmul(m: GridMap, ts: TextureSet, ins: Intersection) -> int {
    ts.height_of(wall_sym(m, ins))
}

/// The projection distance: the fisheye-corrected distance, at least one.
pub open spec fn wall_d(ins: Intersection) -> int {
    max_i(ins.fisheye_distance as int, 1)
}

/// The wall span's pixel height:
/// `tsize * hmul * imgh / (ONE * distance)`, capped.
pub open spec fn wall_hpix(m: GridMap, ts: TextureSet, ins: Intersection, imgh: int) -> int {
    min_i(
        tdiv(tdiv(m.tsize * wall_hmul(m, ts, ins), ONE as int) * imgh, wall_d(ins)),
        SPAN_MAX as int,
    )
}

/// The screen row of the floor level: half the viewport, shifted by the
/// camera's pitch fraction.
pub open spec fn floor_level_spec(imgh: int, pitch: int) -> int {
    tdiv(imgh * (ONE + pitch), 2 * (ONE as int))
}

/// The top row of the wall span: the floor level, up by half the span, and
/// up further for walls taller than one tile.
pub open spec fn wall_offset(m: GridMap, ts: TextureSet, ins: Intersection, imgh: int, pitch: int) -> int {
    let hmul = wall_hmul(m, ts, ins);
    let hpix = wall_hpix(m, ts, ins, imgh);
    floor_level_spec(imgh, pitch) - tdiv(hpix, 2) - tdiv((hmul - ONE) * hpix, 2 * hmul)
}

/// The world coordinate giving the horizontal texture position: the hit
/// point's x for north/south faces, its y for east/west faces.
pub open spec fn wall_texind(ins: Intersection, ray: Ray) -> int {
    let ep = along_spec(ray, ins.distance as int);
    if ins.itype->face == Direction::South || ins.itype->face == Direction::North {
        ep.x as int
    } else {
        ep.y as int
    }
}

/// The texture column sampled for the whole span: the hit point's position
/// within its tile, scaled to the texture's width.
pub open spec fn wall_srcx(m: GridMap, ts: TextureSet, ins: Intersection, ray: Ray) -> int {
    tdiv(
        emod(wall_texind(ins, ray), m.tsize as int) * ts.tex_of(wall_sym(m, ins)).width,
        m.tsize as int,
    )
}

/// The span's fixed face shading: north/south faces darker than east/west.
pub open spec fn wall_face_shade(ins: Intersection) -> int {
    if ins.itype->face == Direction::South || ins.itype->face == Direction::North {
        NS_SHADE as int
    } else {
        ONE as int
    }
}

/// The span's shading factor: the face shading multiplied by the fog factor
/// at the wall's distance (with fog off the fog factor is `ONE`, leaving
/// the face shading alone).
pub open spec fn wall_shade_f(ins: Intersection, fog: Fog) -> int {
    wall_face_shade(ins) * fog_spec(fog, ins.distance as int) / (ONE as int)
}

/// The wall-span parameters derived from a cast result.
pub open spec fn wall_params_of(
    m: GridMap,
    ts: TextureSet,
    ins: Intersection,
    ray: Ray,
    x: int,
    fog: Fog,
    imgw: int,
    imgh: int,
) -> WallParams {
    let tex = ts.tex_of(wall_sym(m, ins));
    WallParams {
        imgw: imgw,
        imgh: imgh,
        x: x,
        tex: tex.data@,
        tw: tex.width as int,
        th: tex.height as int,
        srcx: wall_srcx(m, ts, ins, ray),
        offset: wall_offset(m, ts, ins, imgh, ray.pitch as int),
        hpix: wall_hpix(m, ts, ins, imgh),
        shade: wall_shade_f(ins, fog),
    }
}

/// The preconditions shared by the wall painter and its callers.
pub open spec fn wall_req(
    m: GridMap,
    ts: TextureSet,
    ins: Intersection,
    ray: Ray,
    x: int,
    fog: Fog,
    img: Image,
) -> bool {
    &&& m.wf()
    &&& ts.wf()
    &&& img.wf()
    &&& ray_valid(ray)
    &&& fog_valid(fog)
    &&& 0 <= x < img.width
    &&& ins.itype is Wall
    &&& -65536 <= ins.itype->gpos.x <= 65536
    &&& -65536 <= ins.itype->gpos.y <= 65536
    &&& 0 <= ins.distance <= 0x40000000
    &&& 0 <= ins.fisheye_distance <= 0x40000000
    &&& ts.has_tex(wall_sym(m, ins))
}

/// Paints one screen column's wall span into the framebuffer and returns
/// the span's bottom and top rows (used to bound the floor and ceiling
/// spans). Every painted pixel is the hit wall's texture column, sampled
/// vertically across the span and shaded by fog or face shading; fully
/// transparent texture pixels leave the framebuffer untouched.
pub fn render_wall(
    map: &GridMap,
    ts: &TextureSet,
    ins: &Intersection,
    ray: Ray,
    x: usize,
    fog: Fog,
    img: &mut Image,
) -> (span: (i64, i64))
    requires
        wall_req(*map, *ts, *ins, ray, x as int, fog, *old(img)),
    ensures
        final(img).wf(),
        final(img).width == old(img).width,
        final(img).height == old(img).height,
        ({
            let p = wall_params_of(
                *map,
                *ts,
                *ins,
                ray,
                x as int,
                fog,
                old(img).width as int,
                old(img).height as int,
            );
            let y0 = clamp(p.offset, 0, p.imgh);
            let y1 = min_i(p.offset + p.hpix, p.imgh);
            final(img).data@ == wall_pass(old(img).data@, p, y0, max_i(y1 - y0, 0))
        }),
        span.0 == wall_offset(*map, *ts, *ins, old(img).height as int, ray.pitch as int)
            + wall_hpix(*map, *ts, *ins, old(img).height as int),
        span.1 == wall_offset(*map, *ts, *ins, old(img).height as int, ray.pitch as int),
{
    let ghost p = wall_params_of(
        *map,
        *ts,
        *ins,
        ray,
        x as int,
        fog,
        old(img).width as int,
        old(img).height as int,
    );
    let gp = ins.wall_gpos();
    let sym = map.at(gp.x, gp.y);
    let hmul = ts.height(sym);
    let d = if ins.fisheye_distance < 1 {
        1
    } else {
        ins.fisheye_distance
    };
    let imgh = img.height as i64;
    let imgw = img.width;
    proof {
        mul_bound(map.tsize as int, hmul as int, 65536, crate::image::HMUL_MAX as int);
    }
    let hw = div_t(map.tsize * hmul, ONE);
    proof {
        mul_bound(hw as int, imgh as int, 0x10000000000, 4096);
    }
    let hpix_raw = div_t(hw * imgh, d);
    let hpix = if hpix_raw > SPAN_MAX {
        SPAN_MAX
    } else {
        hpix_raw
    };
    proof {
        mul_bound(imgh as int, (ONE + ray.pitch) as int, 4096, 2 * ONE);
    }
    let fl = div_t(imgh * (ONE + ray.pitch), 2 * ONE);
    proof {
        mul_bound((hmul - ONE) as int, hpix as int, crate::image::HMUL_MAX as int, SPAN_MAX as int);
    }
    let offset = fl - div_t(hpix, 2) - div_t((hmul - ONE) * hpix, 2 * hmul);
    proof {
        assert(hpix == p.hpix);
        assert(offset == p.offset);
    }
    // the texture column for the whole span
    let endp = ray.along(ins.distance);
    let face = match ins.itype {
        IntersectionType::Wall { face, .. } => face,
        _ => {
            proof {
                assert(false);
            }
            Direction::North
        },
    };
    let is_ns = match face {
        Direction::South => true,
        Direction::North => true,
        _ => false,
    };
    let texind = if is_ns {
        endp.x
    } else {
        endp.y
    };
    let texr = ts.texture(sym);
    let tex: &Image = match texr {
        Some(t) => t,
        None => {
            proof {
                assert(false);
            }
            return (0, 0);
        },
    };
    let tw = tex.width;
    let th = tex.height;
    proof {
        mul_bound(emod(texind as int, map.tsize as int), tw as int, 65536, 4096);
    }
    let srcx_i64 = div_t(rem_e(texind, map.tsize) * (tw as i64), map.tsize);
    proof {
        assert(emod(texind as int, map.tsize as int) * (tw as int) < (map.tsize as int) * (
        tw as int)) by (nonlinear_arith)
            requires
                0 <= emod(texind as int, map.tsize as int) < map.tsize,
                1 <= tw,
        ;
        lemma_div_lt(
            emod(texind as int, map.tsize as int) * (tw as int),
            map.tsize as int,
            tw as int,
        );
        assert(srcx_i64 == p.srcx);
        assert(0 <= srcx_i64 < tw);
    }
    let srcx = srcx_i64 as usize;
    let face_shade = if is_ns {
        NS_SHADE
    } else {
        ONE
    };
    let f = calculate_fog(fog, ins.distance);
    proof {
        assert(0 <= face_shade * f <= (ONE as int) * (ONE as int)) by (nonlinear_arith)
            requires
                0 <= face_shade <= ONE,
                0 <= f <= ONE,
        ;
        lemma_div_le(face_shade * f, ONE as int, ONE as int);
    }
    let shade = face_shade * f / ONE;
    proof {
        assert(shade == p.shade);
        assert(0 <= shade <= ONE);
    }
    // the clamped span
    let y0: i64 = if offset < 0 {
        0
    } else if offset > imgh {
        imgh
    } else {
        offset
    };
    let y1: i64 = if offset + hpix < imgh {
        offset + hpix
    } else {
        imgh
    };
    let ghost gy0 = y0 as int;
    let mut y: i64 = y0;
    proof {
        assert(img.data@ == wall_pass(old(img).data@, p, gy0, 0));
    }
    while y < y1
        invariant
            img.wf(),
            img.width == old(img).width,
            img.height == old(img).height,
            imgw == img.width,
            imgh == img.height,
            p == wall_params_of(
                *map,
                *ts,
                *ins,
                ray,
                x as int,
                fog,
                old(img).width as int,
                old(img).height as int,
            ),
            p.imgw == imgw,
            p.imgh == imgh,
            p.x == x,
            0 <= x < imgw,
            p.tex == tex.data@,
            tex.wf(),
            tw == tex.width,
            th == tex.height,
            1 <= tw <= 4096,
            1 <= th <= 4096,
            p.tw == tw,
            p.th == th,
            p.srcx == srcx,
            0 <= srcx < tw,
            p.offset == offset,
            p.hpix == hpix,
            0 <= hpix <= SPAN_MAX,
            p.shade == shade,
            0 <= shade <= ONE,
            gy0 == y0 as int,
            0 <= y0 <= imgh,
            y1 <= imgh,
            y1 <= offset + hpix,
            y0 >= offset || y0 >= y1,
            y0 <= y,
            y <= y1 || y == y0,
            img.data@ == wall_pass(old(img).data@, p, gy0, y - y0),
        decreases y1 - y,
    {
        proof {
            assert(offset <= y < offset + hpix);
            assert(0 <= (y - offset) * (th as int)) by (nonlinear_arith)
                requires
                    y >= offset,
                    th >= 1,
            ;
            mul_bound((y - offset) as int, th as int, SPAN_MAX as int, 4096);
            assert((y - offset) * (th as int) < hpix * (th as int)) by (nonlinear_arith)
                requires
                    offset <= y,
                    y - offset < hpix,
                    th >= 1,
            ;
            lemma_div_lt((y - offset) * (th as int), hpix as int, th as int);
        }
        let srcy = div_t((y - offset) * (th as i64), hpix) as usize;
        let c = tex.get(srcx, srcy);
        if c.a > 0 {
            proof {
                scale_channel_bounds(c.r, shade as int);
                scale_channel_bounds(c.g, shade as int);
                scale_channel_bounds(c.b, shade as int);
            }
            let sc = Rgba {
                r: (shade * (c.r as i64) / ONE) as u8,
                g: (shade * (c.g as i64) / ONE) as u8,
                b: (shade * (c.b as i64) / ONE) as u8,
                a: c.a,
            };
            proof {
                assert(sc == shade_rgb(c, shade as int));
            }
            img.set_px(x, y as usize, sc);
        }
        proof {
            lemma_wall_pass_len(old(img).data@, p, gy0, y - y0);
            lemma_grid_index(p.imgw, p.imgh, x as int, y as int);
            assert(img.data@ == wall_pass(old(img).data@, p, gy0, y + 1 - y0));
        }
        y = y + 1;
    }
    (offset + hpix, offset)
}

/// Scaling a channel by a fraction in `[0, ONE]` stays within a byte.
pub proof fn scale_channel_bounds(v: u8, f: int)
    requires
        0 <= f <= ONE,
    ensures
        0 <= f * v / (ONE as int) <= 255,
        f * v / (ONE as int) == scale_channel(v, f),
{
    assert(0 <= f * v <= (ONE as int) * 255) by (nonlinear_arith)
        requires
            0 <= f <= ONE,
            0 <= v <= 255,
    ;
    lemma_div_le(f * v, ONE as int, 255);
}

/// Cap on the ray parameter used for floor and ceiling projection; points
/// at or beyond it are fully fogged in any sensible configuration.
pub const TVERT_CAP: i64 = 67108864;

/// The parameters of one floor or ceiling span, as spec values.
pub ghost struct FloorParams {
    pub imgw: int,
    pub imgh: int,
    pub x: int,
    pub ray: Ray,
    pub up: bool,
    pub dtw: int,
    pub fog: Fog,
    pub is_tex: bool,
    pub color: Rgba,
    pub tex: Seq<Rgba>,
    pub tw: int,
    pub th: int,
}

/// The floor/ceiling pixel painted at row `y`: the surface sampled at the
/// world point where the pixel's view ray meets the floor (or ceiling)
/// plane, with fog by that point's distance written into the alpha channel.
pub open spec fn fc_px(p: FloorParams, y: int) -> Rgba {
    let ha = tdiv((2 * p.x - p.imgw) * ONE, 2 * p.imgw);
    let vy = tdiv((2 * y - p.imgh) * ONE, 2 * p.imgh) + p.ray.pitch;
    let denom = if p.up {
        -vy
    } else {
        vy
    };
    let len = isqrt(ha * ha + vy * vy + (ONE as int) * (ONE as int));
    let tvert = if denom <= 0 {
        TVERT_CAP as int
    } else {
        min_i(tdiv(p.dtw * len, denom), TVERT_CAP as int)
    };
    let npos = along_spec(p.ray, tvert);
    let dist = isqrt(dist2(p.ray.orig, npos));
    let f = fog_spec(p.fog, dist);
    let alpha = (f * 255 / (ONE as int)) as u8;
    if p.is_tex {
        let tc = p.tex[emod(npos.y as int, p.th) * p.tw + emod(npos.x as int, p.tw)];
        Rgba { r: tc.r, g: tc.g, b: tc.b, a: alpha }
    } else {
        Rgba { r: p.color.r, g: p.color.g, b: p.color.b, a: alpha }
    }
}

/// The framebuffer after painting the first `n` rows of a floor/ceiling
/// span starting at row `y0`.
pub open spec fn fc_pass(data: Seq<Rgba>, p: FloorParams, y0: int, n: int) -> Seq<Rgba>
    decreases n,
{
    if n <= 0 {
        data
    } else {
        let prev = fc_pass(data, p, y0, n - 1);
        let y = y0 + n - 1;
        if 0 <= y * p.imgw + p.x < prev.len() {
            prev.update(y * p.imgw + p.x, fc_px(p, y))
        } else {
            prev
        }
    }
}

/// Painting a floor/ceiling span never changes the framebuffer's length.
pub proof fn lemma_fc_pass_len(data: Seq<Rgba>, p: FloorParams, y0: int, n: int)
    ensures
        fc_pass(data, p, y0, n).len() == data.len(),
    decreases n,
{
    if n > 0 {
        lemma_fc_pass_len(data, p, y0, n - 1);
    }
}

/// The distance from the camera plane to the projected surface: half a tile
/// down to the floor, the wall's height minus half a tile up to the
/// ceiling (never negative).
pub open spec fn fc_dtw(m: GridMap, ts: TextureSet, ins: Intersection, up: bool) -> int {
    if up {
        max_i(tdiv(m.tsize * wall_hmul(m, ts, ins), ONE as int) - tdiv(m.tsize as int, 2), 0)
    } else {
        tdiv(m.tsize as int, 2)
    }
}

/// The floor/ceiling parameters derived from a cast result and a surface.
pub open spec fn fc_params_of(
    m: GridMap,
    ts: TextureSet,
    ins: Intersection,
    ray: Ray,
    x: int,
    up: bool,
    fog: Fog,
    surf: Surface,
    imgw: int,
    imgh: int,
) -> FloorParams {
    FloorParams {
        imgw: imgw,
        imgh: imgh,
        x: x,
        ray: ray,
        up: up,
        dtw: fc_dtw(m, ts, ins, up),
        fog: fog,
        is_tex: surf is Texture,
        color: match surf {
            Surface::Color(c) => c,
            Surface::Texture(_) => clear_pixel(),
        },
        tex: match surf {
            Surface::Color(_) => Seq::empty(),
            Surface::Texture(t) => t.data@,
        },
        tw: match surf {
            Surface::Color(_) => 1,
            Surface::Texture(t) => t.width as int,
        },
        th: match surf {
            Surface::Color(_) => 1,
            Surface::Texture(t) => t.height as int,
        },
    }
}

/// The preconditions shared by the floor/ceiling painter and its callers.
pub open spec fn fc_req(
    m: GridMap,
    ts: TextureSet,
    ins: Intersection,
    ray: Ray,
    x: int,
    fog: Fog,
    surf: Surface,
    img: Image,
) -> bool {
    &&& m.wf()
    &&& ts.wf()
    &&& img.wf()
    &&& ray_valid(ray)
    &&& fog_valid(fog)
    &&& surface_wf(surf)
    &&& 0 <= x < img.width
    &&& ins.itype is Wall
    &&& -65536 <= ins.itype->gpos.x <= 65536
    &&& -65536 <= ins.itype->gpos.y <= 65536
}

/// Paints a floor (`up == false`, rows below the wall span) or ceiling
/// (`up == true`, rows above it) span of one screen column: each pixel's
/// view ray is projected onto the surface plane, the surface is sampled at
/// the world point reached (textures tile by their own size), and fog by
/// that point's distance is written into the pixel's alpha channel.
pub fn render_floor_and_ceil_yrange(
    map: &GridMap,
    ts: &TextureSet,
    ray: Ray,
    ins: &Intersection,
    x: usize,
    y0: i64,
    y1: i64,
    up: bool,
    fog: Fog,
    surface: &Surface,
    img: &mut Image,
)
    requires
        fc_req(*map, *ts, *ins, ray, x as int, fog, *surface, *old(img)),
    ensures
        final(img).wf(),
        final(img).width == old(img).width,
        final(img).height == old(img).height,
        ({
            let p = fc_params_of(
                *map,
                *ts,
                *ins,
                ray,
                x as int,
                up,
                fog,
                *surface,
                old(img).width as int,
                old(img).height as int,
            );
            let ys = clamp(y0 as int, 0, p.imgh);
            let ye = clamp(y1 as int, 0, p.imgh);
            final(img).data@ == fc_pass(old(img).data@, p, ys, max_i(ye - ys, 0))
        }),
{
    let ghost p = fc_params_of(
        *map,
        *ts,
        *ins,
        ray,
        x as int,
        up,
        fog,
        *surface,
        old(img).width as int,
        old(img).height as int,
    );
    let imgh = img.height as i64;
    let imgw = img.width;
    let ys = clamp_i64(y0, 0, imgh);
    let ye = clamp_i64(y1, 0, imgh);
    let gp = ins.wall_gpos();
    let sym = map.at(gp.x, gp.y);
    let hmul = ts.height(sym);
    proof {
        mul_bound(map.tsize as int, hmul as int, 65536, crate::image::HMUL_MAX as int);
    }
    let dtw: i64 = if up {
        let d = div_t(map.tsize * hmul, ONE) - map.tsize / 2;
        if d < 0 {
            0
        } else {
            d
        }
    } else {
        map.tsize / 2
    };
    proof {
        assert(dtw == p.dtw);
        assert(0 <= dtw <= 1048576);
    }
    let ha = div_t((2 * (x as i64) - imgw as i64) * ONE, 2 * imgw as i64);
    proof {
        mul_bound((2 * (x as int) - imgw as int), ONE as int, 8192, ONE as int);
        crate::fixed::lemma_tdiv_bound(
            (2 * (x as int) - imgw as int) * ONE,
            2 * imgw as int,
            ONE as int,
        );
        assert(-(2 * (imgw as int)) * (ONE as int) <= (2 * (x as int) - imgw as int) * ONE <= (2
            * (imgw as int)) * (ONE as int)) by (nonlinear_arith)
            requires
                -(imgw as int) <= 2 * (x as int) - imgw as int <= imgw as int,
                1 <= imgw,
        ;
    }
    let mut y: i64 = ys;
    proof {
        assert(img.data@ == fc_pass(old(img).data@, p, ys as int, 0));
    }
    while y < ye
        invariant
            img.wf(),
            img.width == old(img).width,
            img.height == old(img).height,
            imgw == img.width,
            imgh == img.height,
            1 <= imgw,
            p == fc_params_of(
                *map,
                *ts,
                *ins,
                ray,
                x as int,
                up,
                fog,
                *surface,
                old(img).width as int,
                old(img).height as int,
            ),
            p.imgw == imgw,
            p.imgh == imgh,
            p.x == x,
            0 <= x < imgw,
            p.ray == ray,
            ray_valid(ray),
            fog_valid(fog),
            p.fog == fog,
            p.up == up,
            p.dtw == dtw,
            0 <= dtw <= 1048576,
            surface_wf(*surface),
            p.is_tex == (surface is Texture),
            (surface matches Surface::Texture(t) ==> p.tex == t.data@ && p.tw == t.width
                && p.th == t.height && t.wf() && 1 <= t.width <= 4096 && 1 <= t.height <= 4096),
            (surface matches Surface::Color(c) ==> p.color == c),
            ha == tdiv((2 * p.x - p.imgw) * ONE, 2 * p.imgw),
            -ONE <= ha <= ONE,
            0 <= ys <= imgh,
            ye <= imgh,
            ys <= y,
            y <= ye || y == ys,
            img.data@ == fc_pass(old(img).data@, p, ys as int, y - ys),
        decreases ye - y,
    {
        proof {
            mul_bound((2 * y - imgh) as int, ONE as int, 8192, ONE as int);
            assert(-(2 * (imgh as int)) * (ONE as int) <= (2 * y - imgh as int) * ONE <= (2 * (
            imgh as int)) * (ONE as int)) by (nonlinear_arith)
                requires
                    -(imgh as int) <= 2 * y - imgh as int <= imgh as int,
                    1 <= imgh,
            ;
            crate::fixed::lemma_tdiv_bound((2 * y - imgh as int) * ONE, 2 * imgh as int, ONE as int);
        }
        let vy = div_t((2 * y - imgh) * ONE, 2 * imgh) + ray.pitch;
        let denom = if up {
            -vy
        } else {
            vy
        };
        proof {
            mul_bound(ha as int, ha as int, ONE as int, ONE as int);
            mul_bound(vy as int, vy as int, 2 * ONE, 2 * ONE);
            assert(ha * ha >= 0 && vy * vy >= 0) by (nonlinear_arith);
        }
        let len = isqrt_i64(ha * ha + vy * vy + ONE * ONE);
        proof {
            assert(len * len <= ha * ha + vy * vy + (ONE as int) * (ONE as int));
            assert(len <= 1048576) by (nonlinear_arith)
                requires
                    0 <= len,
                    len * len <= 25769803776,
            ;
        }
        let tvert: i64 = if denom <= 0 {
            TVERT_CAP
        } else {
            proof {
                mul_bound(dtw as int, len as int, 1048576, 1048576);
            }
            let tv = div_t(dtw * len, denom);
            if tv > TVERT_CAP {
                TVERT_CAP
            } else {
                tv
            }
        };
        proof {
            assert(0 <= tvert <= TVERT_CAP);
        }
        let npos = ray.along(tvert);
        let dx = npos.x - ray.orig.x;
        let dy = npos.y - ray.orig.y;
        proof {
            mul_bound(dx as int, dx as int, TVERT_CAP as int, TVERT_CAP as int);
            mul_bound(dy as int, dy as int, TVERT_CAP as int, TVERT_CAP as int);
            assert(dx * dx >= 0 && dy * dy >= 0) by (nonlinear_arith);
        }
        let dist = isqrt_i64(dx * dx + dy * dy);
        let f = calculate_fog(fog, dist);
        proof {
            assert(0 <= f * 255 <= (ONE as int) * 255) by (nonlinear_arith)
                requires
                    0 <= f <= ONE,
            ;
            lemma_div_le(f * 255, ONE as int, 255);
        }
        let alpha = (f * 255 / ONE) as u8;
        let c: Rgba = match surface {
            Surface::Color(col) => Rgba { r: col.r, g: col.g, b: col.b, a: alpha },
            Surface::Texture(t) => {
                let ex = rem_e(npos.x, t.width as i64);
                let ey = rem_e(npos.y, t.height as i64);
                proof {
                    lemma_grid_index(t.width as int, t.height as int, ex as int, ey as int);
                }
                let tc = t.get(ex as usize, ey as usize);
                Rgba { r: tc.r, g: tc.g, b: tc.b, a: alpha }
            },
        };
        proof {
            assert(c == fc_px(p, y as int));
        }
        img.set_px(x, y as usize, c);
        proof {
            lemma_fc_pass_len(old(img).data@, p, ys as int, y - ys);
            lemma_grid_index(p.imgw, p.imgh, x as int, y as int);
            assert(img.data@ == fc_pass(old(img).data@, p, ys as int, y + 1 - ys));
        }
        y = y + 1;
    }
}

// --- Entity sprites: candidate hits, painter's-algorithm ordering, and
// --- span painting.

/// An entity hit kept for painting: entity index, distance along the ray,
/// column fraction.
#[derive(Clone, Copy, PartialEq, Eq, Structural, Debug)]
pub struct SpriteHit {
    pub idx: usize,
    pub t1: i64,
    pub col: i64,
}

/// The hits among the first `n` entities that are nearer than the wall, in
/// entity order.
pub open spec fn cands_spec(es: Seq<Entity>, r: Ray, wall: int, n: int) -> Seq<SpriteHit>
    decreases n,
{
    if n <= 0 {
        Seq::empty()
    } else {
        let prev = cands_spec(es, r, wall, n - 1);
        if ent_hits(es[n - 1], r) && ent_t1(es[n - 1], r) < wall {
            prev.push(
                SpriteHit {
                    idx: (n - 1) as usize,
                    t1: ent_t1(es[n - 1], r) as i64,
                    col: ent_col(es[n - 1], r) as i64,
                },
            )
        } else {
            prev
        }
    }
}

/// The first position in `s[i..]` whose distance is strictly below `t1`,
/// or `s.len()`: where a stable descending insertion puts a new hit.
pub open spec fn ins_pos(s: Seq<SpriteHit>, t1: int, i: int) -> int
    decreases s.len() - i,
{
    if i < 0 || i >= s.len() {
        s.len() as int
    } else if s[i].t1 < t1 {
        i
    } else {
        ins_pos(s, t1, i + 1)
    }
}

/// One stable descending insertion.
pub open spec fn insert_desc(s: Seq<SpriteHit>, e: SpriteHit) -> Seq<SpriteHit> {
    s.insert(ins_pos(s, e.t1 as int, 0), e)
}

/// The first `n` hits, sorted by descending distance (stable).
pub open spec fn sort_desc(s: Seq<SpriteHit>, n: int) -> Seq<SpriteHit>
    decreases n,
{
    if n <= 0 {
        Seq::empty()
    } else {
        insert_desc(sort_desc(s, n - 1), s[n - 1])
    }
}

/// Descending order by distance.
pub open spec fn sorted_desc(s: Seq<SpriteHit>) -> bool {
    forall|i: int, j: int| 0 <= i <= j < s.len() ==> (#[trigger] s[i]).t1 >= (#[trigger] s[j]).t1
}

/// Every hit in `s` indexes an entity below `len`, at a nonnegative
/// distance.
pub open spec fn cands_ok(s: Seq<SpriteHit>, len: int) -> bool {
    forall|i: int|
        0 <= i < s.len() ==> (#[trigger] s[i]).idx < len && 0 <= s[i].t1 && 0 <= s[i].col <= ONE
}

/// If `s[i..r)` is all at least `t1` and `r` is the length or a position
/// strictly below `t1`, the insertion position from `i` is `r`.
proof fn lemma_ins_pos_at(s: Seq<SpriteHit>, t1: int, i: int, r: int)
    requires
        0 <= i <= r <= s.len(),
        forall|j: int| i <= j < r ==> (#[trigger] s[j]).t1 >= t1,
        r == s.len() || s[r].t1 < t1,
    ensures
        ins_pos(s, t1, i) == r,
    decreases r - i,
{
    if i < r {
        lemma_ins_pos_at(s, t1, i + 1, r);
    }
}

/// The insertion position is sound: everything before it is at least `t1`,
/// and it is in range.
proof fn lemma_ins_pos_sound(s: Seq<SpriteHit>, t1: int, i: int)
    requires
        0 <= i <= s.len(),
    ensures
        i <= ins_pos(s, t1, i) <= s.len(),
        forall|j: int| i <= j < ins_pos(s, t1, i) ==> (#[trigger] s[j]).t1 >= t1,
        ins_pos(s, t1, i) < s.len() ==> s[ins_pos(s, t1, i)].t1 < t1,
    decreases s.len() - i,
{
    if i < s.len() && !(s[i].t1 < t1) {
        lemma_ins_pos_sound(s, t1, i + 1);
    }
}

/// A stable descending insertion into a descending sequence stays
/// descending, keeps its elements' bounds, and grows by one.
proof fn lemma_insert_desc_ok(s: Seq<SpriteHit>, e: SpriteHit, len: int)
    requires
        sorted_desc(s),
        cands_ok(s, len),
        e.idx < len,
        0 <= e.t1,
        0 <= e.col <= ONE,
    ensures
        sorted_desc(insert_desc(s, e)),
        cands_ok(insert_desc(s, e), len),
        insert_desc(s, e).len() == s.len() + 1,
{
    let p = ins_pos(s, e.t1 as int, 0);
    lemma_ins_pos_sound(s, e.t1 as int, 0);
    let t = s.insert(p, e);
    assert forall|i: int, j: int| 0 <= i <= j < t.len() implies (#[trigger] t[i]).t1 >= (
    #[trigger] t[j]).t1 by {
        if i < p && j < p {
        } else if i < p && j == p {
        } else if i < p && j > p {
        } else if i == p && j > p {
            assert(s[j - 1].t1 <= s[p].t1);
        } else if i > p && j > p {
        } else if i == p && j == p {
        }
    }
}

/// Sorting keeps the elements' bounds, keeps the length, and sorts.
proof fn lemma_sort_desc_ok(s: Seq<SpriteHit>, len: int, n: int)
    requires
        cands_ok(s, len),
        0 <= n <= s.len(),
    ensures
        sorted_desc(sort_desc(s, n)),
        cands_ok(sort_desc(s, n), len),
        sort_desc(s, n).len() == n,
    decreases n,
{
    if n > 0 {
        lemma_sort_desc_ok(s, len, n - 1);
        lemma_insert_desc_ok(sort_desc(s, n - 1), s[n - 1], len);
    }
}

/// The parameters of one sprite span, as spec values.
pub ghost struct SpriteParams {
    pub imgw: int,
    pub imgh: int,
    pub x: int,
    pub tex: Seq<Rgba>,
    pub tw: int,
    pub th: int,
    pub srcx: int,
    pub offset: int,
    pub hpix: int,
    pub alpha: int,
}

/// The sprite pixel painted at row `y`, or `None` for a fully transparent
/// texture pixel.
pub open spec fn sprite_px(p: SpriteParams, y: int) -> Option<Rgba> {
    let srcy = (y - p.offset) * p.th / p.hpix;
    let c = p.tex[srcy * p.tw + p.srcx];
    if c.a > 0 {
        Option::Some(Rgba { r: c.r, g: c.g, b: c.b, a: p.alpha as u8 })
    } else {
        Option::None
    }
}

/// The framebuffer after painting the first `n` rows of one sprite span.
pub open spec fn sprite_pass(data: Seq<Rgba>, p: SpriteParams, y0: int, n: int) -> Seq<Rgba>
    decreases n,
{
    if n <= 0 {
        data
    } else {
        let prev = sprite_pass(data, p, y0, n - 1);
        let y = y0 + n - 1;
        match sprite_px(p, y) {
            Option::Some(c) => if 0 <= y * p.imgw + p.x < prev.len() {
                prev.update(y * p.imgw + p.x, c)
            } else {
                prev
            },
            Option::None => prev,
        }
    }
}

/// Painting a sprite span never changes the framebuffer's length.
pub proof fn lemma_sprite_pass_len(data: Seq<Rgba>, p: SpriteParams, y0: int, n: int)
    ensures
        sprite_pass(data, p, y0, n).len() == data.len(),
    decreases n,
{
    if n > 0 {
        lemma_sprite_pass_len(data, p, y0, n - 1);
    }
}

/// The sprite-span parameters of one entity hit.
pub open spec fn sprite_params_of(
    ts: TextureSet,
    tsize: int,
    ray: Ray,
    x: int,
    fog: Fog,
    imgw: int,
    imgh: int,
    e: Entity,
    hit: SpriteHit,
) -> SpriteParams {
    let d = max_i(hit.t1 as int, 1);
    let hpix = min_i(tdiv(e.h * imgh, d), SPAN_MAX as int);
    let middle = min_i(tdiv(tdiv(tsize, 2) * imgh, d), SPAN_MAX as int);
    let tex = ts.tex_of(e.texture);
    SpriteParams {
        imgw,
        imgh,
        x,
        tex: tex.data@,
        tw: tex.width as int,
        th: tex.height as int,
        srcx: min_i(tdiv(hit.col * tex.width, ONE as int), tex.width - 1),
        offset: floor_level_spec(imgh, ray.pitch as int) + middle - hpix,
        hpix,
        alpha: fog_spec(fog, hit.t1 as int) * 255 / (ONE as int),
    }
}

/// The framebuffer after painting the first `n` sprites of the sorted hit
/// list, farthest first.
pub open spec fn sprites_pass(
    data: Seq<Rgba>,
    ts: TextureSet,
    tsize: int,
    ray: Ray,
    x: int,
    fog: Fog,
    imgw: int,
    imgh: int,
    es: Seq<Entity>,
    sorted: Seq<SpriteHit>,
    n: int,
) -> Seq<Rgba>
    decreases n,
{
    if n <= 0 {
        data
    } else {
        let prev = sprites_pass(data, ts, tsize, ray, x, fog, imgw, imgh, es, sorted, n - 1);
        let hit = sorted[n - 1];
        let p = sprite_params_of(ts, tsize, ray, x, fog, imgw, imgh, es[hit.idx as int], hit);
        let y0 = clamp(p.offset, 0, imgh);
        let y1 = min_i(p.offset + p.hpix, imgh);
        sprite_pass(prev, p, y0, max_i(y1 - y0, 0))
    }
}

/// Painting sprites never changes the framebuffer's length.
pub proof fn lemma_sprites_pass_len(
    data: Seq<Rgba>,
    ts: TextureSet,
    tsize: int,
    ray: Ray,
    x: int,
    fog: Fog,
    imgw: int,
    imgh: int,
    es: Seq<Entity>,
    sorted: Seq<SpriteHit>,
    n: int,
)
    ensures
        sprites_pass(data, ts, tsize, ray, x, fog, imgw, imgh, es, sorted, n).len() == data.len(),
    decreases n,
{
    if n > 0 {
        lemma_sprites_pass_len(data, ts, tsize, ray, x, fog, imgw, imgh, es, sorted, n - 1);
        let prev = sprites_pass(data, ts, tsize, ray, x, fog, imgw, imgh, es, sorted, n - 1);
        let hit = sorted[n - 1];
        let p = sprite_params_of(ts, tsize, ray, x, fog, imgw, imgh, es[hit.idx as int], hit);
        let y0 = clamp(p.offset, 0, imgh);
        let y1 = min_i(p.offset + p.hpix, imgh);
        lemma_sprite_pass_len(prev, p, y0, max_i(y1 - y0, 0));
    }
}

/// The preconditions shared by the sprite painter and its callers.
pub open spec fn sprites_req(
    ts: TextureSet,
    tsize: int,
    ray: Ray,
    x: int,
    es: Seq<Entity>,
    wall_dist: int,
    fog: Fog,
    img: Image,
) -> bool {
    &&& ts.wf()
    &&& img.wf()
    &&& ray_valid(ray)
    &&& fog_valid(fog)
    &&& 0 <= x < img.width
    &&& 1 <= tsize <= 65536
    &&& 0 <= wall_dist <= 0x40000000
    &&& forall|i: int| 0 <= i < es.len() ==> entity_valid(#[trigger] es[i])
    &&& forall|i: int| 0 <= i < es.len() ==> ts.has_tex((#[trigger] es[i]).texture)
}

/// Paints every entity visible on one screen column: entities the column
/// ray hits nearer than the wall are sorted by descending distance and
/// painted farthest first (painter's algorithm), each as a vertical sprite
/// span with fog in its alpha channel; fully transparent texture pixels
/// leave the framebuffer untouched.
pub fn render_entities(
    ts: &TextureSet,
    tsize: i64,
    ray: Ray,
    x: usize,
    entities: &[Entity],
    wall_dist: i64,
    fog: Fog,
    img: &mut Image,
)
    requires
        sprites_req(*ts, tsize as int, ray, x as int, entities@, wall_dist as int, fog, *old(img)),
    ensures
        final(img).wf(),
        final(img).width == old(img).width,
        final(img).height == old(img).height,
        ({
            let cands = cands_spec(entities@, ray, wall_dist as int, entities@.len() as int);
            let sorted = sort_desc(cands, cands.len() as int);
            final(img).data@ == sprites_pass(
                old(img).data@,
                *ts,
                tsize as int,
                ray,
                x as int,
                fog,
                old(img).width as int,
                old(img).height as int,
                entities@,
                sorted,
                sorted.len() as int,
            )
        }),
{
    let n = entities.len();
    let mut cands: Vec<SpriteHit> = Vec::new();
    let mut i: usize = 0;
    while i < n
        invariant
            sprites_req(
                *ts,
                tsize as int,
                ray,
                x as int,
                entities@,
                wall_dist as int,
                fog,
                *old(img),
            ),
            *img == *old(img),
            n == entities@.len(),
            0 <= i <= n,
            cands@ == cands_spec(entities@, ray, wall_dist as int, i as int),
            cands_ok(cands@, n as int),
        decreases n - i,
    {
        let e = entities[i];
        if let Some(ins) = e.intersect(ray) {
            if ins.distance < wall_dist {
                cands.push(SpriteHit { idx: i, t1: ins.distance, col: ins.entity_col() });
            }
        }
        i = i + 1;
    }
    let m = cands.len();
    let mut sorted: Vec<SpriteHit> = Vec::new();
    let mut i: usize = 0;
    while i < m
        invariant
            sprites_req(
                *ts,
                tsize as int,
                ray,
                x as int,
                entities@,
                wall_dist as int,
                fog,
                *old(img),
            ),
            *img == *old(img),
            n == entities@.len(),
            m == cands@.len(),
            cands@ == cands_spec(entities@, ray, wall_dist as int, n as int),
            cands_ok(cands@, n as int),
            0 <= i <= m,
            sorted@ == sort_desc(cands@, i as int),
            sorted@.len() == i,
            sorted_desc(sorted@),
            cands_ok(sorted@, n as int),
        decreases m - i,
    {
        let e = cands[i];
        let slen = sorted.len();
        let mut pos: usize = 0;
        while pos < slen && sorted[pos].t1 >= e.t1
            invariant
                0 <= pos <= slen == sorted@.len(),
                forall|j: int| 0 <= j < pos ==> (#[trigger] sorted@[j]).t1 >= e.t1,
            decreases slen - pos,
        {
            pos = pos + 1;
        }
        proof {
            lemma_ins_pos_at(sorted@, e.t1 as int, 0, pos as int);
            lemma_insert_desc_ok(sorted@, e, n as int);
        }
        sorted.insert(pos, e);
        i = i + 1;
    }
    proof {
        lemma_sort_desc_ok(cands@, n as int, m as int);
    }
    // paint farthest to nearest
    let imgh = img.height as i64;
    let imgw = img.width;
    let fl = {
        proof {
            mul_bound(imgh as int, (ONE + ray.pitch) as int, 4096, 2 * ONE);
        }
        div_t(imgh * (ONE + ray.pitch), 2 * ONE)
    };
    proof {
        assert(0 <= (imgh as int) * (ONE + ray.pitch) <= (2 * (ONE as int)) * (imgh as int))
            by (nonlinear_arith)
            requires
                0 <= imgh,
                0 <= ONE + ray.pitch <= 2 * ONE,
        ;
        lemma_div_le((imgh as int) * (ONE + ray.pitch), 2 * (ONE as int), imgh as int);
    }
    let ghost gsorted = sorted@;
    let mut k: usize = 0;
    while k < m
        invariant
            sprites_req(
                *ts,
                tsize as int,
                ray,
                x as int,
                entities@,
                wall_dist as int,
                fog,
                *old(img),
            ),
            img.wf(),
            img.width == old(img).width,
            img.height == old(img).height,
            imgw == img.width,
            imgh == img.height,
            n == entities@.len(),
            m == gsorted.len(),
            gsorted == sort_desc(
                cands_spec(entities@, ray, wall_dist as int, n as int),
                cands_spec(entities@, ray, wall_dist as int, n as int).len() as int,
            ),
            sorted@ == gsorted,
            cands_ok(gsorted, n as int),
            fl == floor_level_spec(imgh as int, ray.pitch as int),
            0 <= fl <= imgh,
            0 <= k <= m,
            img.data@ == sprites_pass(
                old(img).data@,
                *ts,
                tsize as int,
                ray,
                x as int,
                fog,
                imgw as int,
                imgh as int,
                entities@,
                gsorted,
                k as int,
            ),
        decreases m - k,
    {
        let ghost data_in = img.data@;
        let hit = sorted[k];
        let e = entities[hit.idx];
        let ghost p = sprite_params_of(
            *ts,
            tsize as int,
            ray,
            x as int,
            fog,
            imgw as int,
            imgh as int,
            e,
            hit,
        );
        let d = if hit.t1 < 1 {
            1
        } else {
            hit.t1
        };
        proof {
            mul_bound(e.h as int, imgh as int, 65536, 4096);
            mul_bound(tdiv(tsize as int, 2), imgh as int, 32768, 4096);
        }
        let hpix_raw = div_t(e.h * imgh, d);
        let hpix = if hpix_raw > SPAN_MAX {
            SPAN_MAX
        } else {
            hpix_raw
        };
        let middle_raw = div_t((tsize / 2) * imgh, d);
        let middle = if middle_raw > SPAN_MAX {
            SPAN_MAX
        } else {
            middle_raw
        };
        let offset = fl + middle - hpix;
        let texr = ts.texture(e.texture);
        let tex: &Image = match texr {
            Some(t) => t,
            None => {
                proof {
                    assert(false);
                }
                return ;
            },
        };
        let tw = tex.width;
        let th = tex.height;
        proof {
            mul_bound(hit.col as int, tw as int, ONE as int, 4096);
        }
        let srcx_raw = div_t(hit.col * (tw as i64), ONE);
        let srcx_i64 = if srcx_raw > tw as i64 - 1 {
            tw as i64 - 1
        } else {
            srcx_raw
        };
        proof {
            assert(p.srcx == srcx_i64);
            assert(0 <= srcx_i64 < tw) by {
                vstd::arithmetic::div_mod::lemma_div_pos_is_pos(
                    hit.col * (tw as int),
                    ONE as int,
                );
            }
        }
        let srcx = srcx_i64 as usize;
        let f = calculate_fog(fog, hit.t1);
        proof {
            assert(0 <= f * 255 <= (ONE as int) * 255) by (nonlinear_arith)
                requires
                    0 <= f <= ONE,
            ;
            lemma_div_le(f * 255, ONE as int, 255);
        }
        let alpha = (f * 255 / ONE) as u8;
        proof {
            assert(p.alpha == alpha);
            assert(p.offset == offset);
            assert(p.hpix == hpix);
        }
        let y0: i64 = if offset < 0 {
            0
        } else if offset > imgh {
            imgh
        } else {
            offset
        };
        let y1: i64 = if offset + hpix < imgh {
            offset + hpix
        } else {
            imgh
        };
        let ghost gy0 = y0 as int;
        let mut y: i64 = y0;
        proof {
            assert(img.data@ == sprite_pass(data_in, p, gy0, 0));
        }
        while y < y1
            invariant
                img.wf(),
                img.width == old(img).width,
                img.height == old(img).height,
                imgw == img.width,
                imgh == img.height,
                0 <= x < imgw,
                p.imgw == imgw,
                p.imgh == imgh,
                p.x == x,
                p.tex == tex.data@,
                tex.wf(),
                tw == tex.width,
                th == tex.height,
                1 <= tw <= 4096,
                1 <= th <= 4096,
                p.tw == tw,
                p.th == th,
                p.srcx == srcx,
                0 <= srcx < tw,
                p.offset == offset,
                p.hpix == hpix,
                0 <= hpix <= SPAN_MAX,
                p.alpha == alpha,
                gy0 == y0 as int,
                0 <= y0 <= imgh,
                y1 <= imgh,
                y1 <= offset + hpix,
                y0 >= offset || y0 >= y1,
                y0 <= y,
                y <= y1 || y == y0,
                img.data@ == sprite_pass(data_in, p, gy0, y - y0),
            decreases y1 - y,
        {
            proof {
                assert(offset <= y < offset + hpix);
                assert(0 <= (y - offset) * (th as int)) by (nonlinear_arith)
                    requires
                        y >= offset,
                        th >= 1,
                ;
                mul_bound((y - offset) as int, th as int, SPAN_MAX as int, 4096);
                assert((y - offset) * (th as int) < hpix * (th as int)) by (nonlinear_arith)
                    requires
                        offset <= y,
                        y - offset < hpix,
                        th >= 1,
                ;
                lemma_div_lt((y - offset) * (th as int), hpix as int, th as int);
            }
            let srcy = div_t((y - offset) * (th as i64), hpix) as usize;
            let c = tex.get(srcx, srcy);
            if c.a > 0 {
                img.set_px(x, y as usize, Rgba { r: c.r, g: c.g, b: c.b, a: alpha });
            }
            proof {
                lemma_sprite_pass_len(data_in, p, gy0, y - y0);
                lemma_grid_index(p.imgw, p.imgh, x as int, y as int);
                assert(img.data@ == sprite_pass(data_in, p, gy0, y + 1 - y0));
            }
            y = y + 1;
        }
        proof {
            assert(img.data@ == sprites_pass(
                old(img).data@,
                *ts,
                tsize as int,
                ray,
                x as int,
                fog,
                imgw as int,
                imgh as int,
                entities@,
                gsorted,
                k + 1,
            ));
        }
        k = k + 1;
    }
}

/// A spec-level entity hit: list index, distance along the ray, column
/// fraction.
pub ghost struct EntHit {
    pub idx: int,
    pub t1: int,
    pub col: int,
}

/// The nearest entity hit among the first `n` entities (the earliest wins a
/// tie, as in a forward scan replacing only on strictly nearer hits).
pub open spec fn best_entity(es: Seq<Entity>, r: Ray, n: int) -> Option<EntHit>
    decreases n,
{
    if n <= 0 {
        Option::None
    } else {
        let prev = best_entity(es, r, n - 1);
        if ent_hits(es[n - 1], r) {
            let t1 = ent_t1(es[n - 1], r);
            match prev {
                Option::None => Option::Some(
                    EntHit { idx: n - 1, t1, col: ent_col(es[n - 1], r) },
                ),
                Option::Some(b) => if t1 < b.t1 {
                    Option::Some(EntHit { idx: n - 1, t1, col: ent_col(es[n - 1], r) })
                } else {
                    Option::Some(b)
                },
            }
        } else {
            prev
        }
    }
}

/// What a full cast returns: the nearer of the map's wall hit and the
/// nearest entity hit (the entity wins a tie, as in the original strict
/// comparison of the wall's distance against the entity's).
pub open spec fn full_cast_spec(m: GridMap, es: Seq<Entity>, r: Ray) -> Intersection {
    let wall = cast_ins_spec(m, r);
    match best_entity(es, r, es.len() as int) {
        Option::None => wall,
        Option::Some(b) => if wall.distance < b.t1 {
            wall
        } else {
            Intersection {
                itype: IntersectionType::Entity { index: b.idx as usize, col: b.col as i64 },
                distance: b.t1 as i64,
                fisheye_distance: b.t1 as i64,
            }
        },
    }
}

/// Casts a ray against the map and every entity, for hit-testing: returns
/// the nearest hit of either kind.
pub fn cast_ray(map: &GridMap, entities: &[Entity], ray: Ray) -> (res: Intersection)
    requires
        cast_ok(*map, ray),
        forall|i: int| 0 <= i < entities@.len() ==> entity_valid(#[trigger] entities@[i]),
    ensures
        res == full_cast_spec(*map, entities@, ray),
{
    let map_ins = map.cast_ray(ray);
    let n = entities.len();
    let mut best: Option<(usize, i64, i64)> = None;
    let mut i: usize = 0;
    while i < n
        invariant
            cast_ok(*map, ray),
            forall|j: int| 0 <= j < entities@.len() ==> entity_valid(#[trigger] entities@[j]),
            n == entities@.len(),
            0 <= i <= n,
            match best {
                Option::None => best_entity(entities@, ray, i as int) is None,
                Option::Some((idx, t1, col)) => {
                    &&& best_entity(entities@, ray, i as int) matches Option::Some(b)
                    &&& b.idx == idx
                    &&& b.t1 == t1
                    &&& b.col == col
                },
            },
        decreases n - i,
    {
        let e = entities[i];
        if let Some(ins) = e.intersect(ray) {
            let replace = match best {
                None => true,
                Some((_, bt1, _)) => ins.distance < bt1,
            };
            if replace {
                best = Some((i, ins.distance, ins.entity_col()));
            }
        }
        i = i + 1;
    }
    match best {
        None => map_ins,
        Some((idx, t1, col)) => {
            if map_ins.distance < t1 {
                map_ins
            } else {
                Intersection::new(IntersectionType::Entity { index: idx, col }, t1)
            }
        },
    }
}

// --- The full frame: clear, per-column wall / floor / ceiling / entities,
// --- optional vignette post-pass.

/// Every solid symbol the map can report (the out-of-grid symbol included)
/// has a texture bound.
pub open spec fn textured(m: GridMap, ts: TextureSet) -> bool {
    forall|gx: int, gy: int|
        !m.empty_at(gx, gy) ==> ts.has_tex(#[trigger] m.at_spec(gx, gy))
}

/// The framebuffer after fully painting screen column `x`: wall span, floor
/// below it, ceiling above it, then the entities visible on the column.
pub open spec fn col_pass(
    data: Seq<Rgba>,
    m: GridMap,
    ts: TextureSet,
    es: Seq<Entity>,
    cam: Camera,
    fog: Fog,
    floor_s: Surface,
    ceil_s: Surface,
    imgw: int,
    imgh: int,
    x: int,
) -> Seq<Rgba> {
    let ins = col_ins_spec(m, cam, x);
    let cray = col_ray(cam, x);
    let wp = wall_params_of(m, ts, ins, cray, x, fog, imgw, imgh);
    let wy0 = clamp(wp.offset, 0, imgh);
    let wy1 = min_i(wp.offset + wp.hpix, imgh);
    let d1 = wall_pass(data, wp, wy0, max_i(wy1 - wy0, 0));
    let fp = fc_params_of(m, ts, ins, cray, x, false, fog, floor_s, imgw, imgh);
    let fy0 = clamp(wp.offset + wp.hpix, 0, imgh);
    let d2 = fc_pass(d1, fp, fy0, max_i(imgh - fy0, 0));
    let cp = fc_params_of(m, ts, ins, cray, x, true, fog, ceil_s, imgw, imgh);
    let cy1 = clamp(wp.offset, 0, imgh);
    let d3 = fc_pass(d2, cp, 0, max_i(cy1, 0));
    let cands = cands_spec(es, cray, ins.distance as int, es.len() as int);
    let sorted = sort_desc(cands, cands.len() as int);
    sprites_pass(d3, ts, m.tsize as int, cray, x, fog, imgw, imgh, es, sorted, sorted.len() as int)
}

/// The framebuffer after fully painting the first `n` screen columns.
pub open spec fn cols_pass(
    data: Seq<Rgba>,
    m: GridMap,
    ts: TextureSet,
    es: Seq<Entity>,
    cam: Camera,
    fog: Fog,
    floor_s: Surface,
    ceil_s: Surface,
    imgw: int,
    imgh: int,
    n: int,
) -> Seq<Rgba>
    decreases n,
{
    if n <= 0 {
        data
    } else {
        col_pass(
            cols_pass(data, m, ts, es, cam, fog, floor_s, ceil_s, imgw, imgh, n - 1),
            m,
            ts,
            es,
            cam,
            fog,
            floor_s,
            ceil_s,
            imgw,
            imgh,
            n - 1,
        )
    }
}

/// The vignette factor and alpha fade of pixel `i` of the directional fog
/// post-pass: alpha is scaled by `1 - r / radius` (clamped to `[0, 1]`),
/// where `r` is the pixel's distance from the screen's centre.
pub open spec fn vign_px(data: Seq<Rgba>, imgw: int, imgh: int, radius: int, i: int) -> Rgba {
    let x = i % imgw;
    let y = i / imgw;
    let r = isqrt((x - imgw / 2) * (x - imgw / 2) + (y - imgh / 2) * (y - imgh / 2));
    let b = clamp((ONE as int) - tdiv(r * ONE, radius), 0, ONE as int);
    let c = data[i];
    Rgba { r: c.r, g: c.g, b: c.b, a: (b * c.a / (ONE as int)) as u8 }
}

/// The framebuffer after applying the vignette to its first `n` pixels.
pub open spec fn vign_pass(data: Seq<Rgba>, imgw: int, imgh: int, radius: int, n: int) -> Seq<
    Rgba,
>
    decreases n,
{
    if n <= 0 {
        data
    } else {
        let prev = vign_pass(data, imgw, imgh, radius, n - 1);
        if 0 <= n - 1 < prev.len() {
            prev.update(n - 1, vign_px(prev, imgw, imgh, radius, n - 1))
        } else {
            prev
        }
    }
}

/// The vignette never changes the framebuffer's length.
pub proof fn lemma_vign_pass_len(data: Seq<Rgba>, imgw: int, imgh: int, radius: int, n: int)
    ensures
        vign_pass(data, imgw, imgh, radius, n).len() == data.len(),
    decreases n,
{
    if n > 0 {
        lemma_vign_pass_len(data, imgw, imgh, radius, n - 1);
    }
}

/// The finished frame: a cleared buffer, every column painted, and the
/// vignette post-pass when the fog is directional.
pub open spec fn render_spec(
    m: GridMap,
    ts: TextureSet,
    es: Seq<Entity>,
    cam: Camera,
    fog: Fog,
    floor_s: Surface,
    ceil_s: Surface,
    imgw: int,
    imgh: int,
) -> Seq<Rgba> {
    let cleared = Seq::new((imgw * imgh) as nat, |i: int| clear_pixel());
    let painted = cols_pass(cleared, m, ts, es, cam, fog, floor_s, ceil_s, imgw, imgh, imgw);
    match fog {
        Fog::Directional(_, radius) => vign_pass(painted, imgw, imgh, radius as int, imgw * imgh),
        _ => painted,
    }
}

/// The preconditions of a full frame draw.
pub open spec fn render_req(
    m: GridMap,
    ts: TextureSet,
    es: Seq<Entity>,
    cam: Camera,
    fog: Fog,
    floor_s: Surface,
    ceil_s: Surface,
    img: Image,
) -> bool {
    &&& m.wf()
    &&& ts.wf()
    &&& img.wf()
    &&& camera_wf(cam)
    &&& m.in_world(cam.ray.orig)
    &&& fog_valid(fog)
    &&& surface_wf(floor_s)
    &&& surface_wf(ceil_s)
    &&& cam.cols@.len() == img.width
    &&& textured(m, ts)
    &&& forall|i: int| 0 <= i < es.len() ==> entity_valid(#[trigger] es[i])
    &&& forall|i: int| 0 <= i < es.len() ==> ts.has_tex((#[trigger] es[i]).texture)
}

/// Draws one full frame: clears the framebuffer, then for each screen
/// column casts the column's ray against the map, paints the wall span with
/// its fisheye-corrected height, fills the floor below and the ceiling
/// above by ray-plane projection, and composites the entities the column
/// ray hits nearer than the wall, farthest first. Directional fog finishes
/// with a radial vignette over the whole frame.
pub fn render(
    map: &GridMap,
    ts: &TextureSet,
    entities: &[Entity],
    cam: &Camera,
    fog: Fog,
    floor_s: &Surface,
    ceil_s: &Surface,
    img: &mut Image,
)
    requires
        render_req(*map, *ts, entities@, *cam, fog, *floor_s, *ceil_s, *old(img)),
    ensures
        final(img).wf(),
        final(img).width == old(img).width,
        final(img).height == old(img).height,
        final(img).data@ == render_spec(
            *map,
            *ts,
            entities@,
            *cam,
            fog,
            *floor_s,
            *ceil_s,
            old(img).width as int,
            old(img).height as int,
        ),
{
    let imgw = img.width;
    let imgh = img.height;
    let ghost cleared = Seq::new((imgw as int * imgh as int) as nat, |i: int| clear_pixel());
    img.fill(Rgba { r: 0, g: 0, b: 0, a: 0 });
    proof {
        assert(img.data@ =~= cleared);
    }
    let inss = cast_rays(map, cam);
    let mut x: usize = 0;
    while x < imgw
        invariant
            render_req(*map, *ts, entities@, *cam, fog, *floor_s, *ceil_s, *old(img)),
            img.wf(),
            img.width == old(img).width,
            img.height == old(img).height,
            imgw == img.width,
            imgh == img.height,
            cleared == Seq::new((imgw as int * imgh as int) as nat, |i: int| clear_pixel()),
            inss@.len() == imgw,
            forall|j: int| 0 <= j < imgw ==> inss@[j] == col_ins_spec(*map, *cam, j),
            forall|j: int|
                0 <= j < imgw ==> {
                    let ins = #[trigger] inss@[j];
                    &&& ins.itype is Wall
                    &&& -8192 <= ins.itype->gpos.x <= 8192
                    &&& -8192 <= ins.itype->gpos.y <= 8192
                    &&& 0 <= ins.distance < 0x40000000
                    &&& 0 <= ins.fisheye_distance <= ins.distance
                    &&& !map.empty_at(ins.itype->gpos.x as int, ins.itype->gpos.y as int)
                },
            0 <= x <= imgw,
            img.data@ == cols_pass(
                cleared,
                *map,
                *ts,
                entities@,
                *cam,
                fog,
                *floor_s,
                *ceil_s,
                imgw as int,
                imgh as int,
                x as int,
            ),
        decreases imgw - x,
    {
        let ins = inss[x];
        let cray = Ray { orig: cam.ray.orig, dir: cam.cols[x].dir, pitch: cam.ray.pitch };
        proof {
            assert(cray == col_ray(*cam, x as int));
            assert(ts.has_tex(wall_sym(*map, ins)));
        }
        let span = render_wall(map, ts, &ins, cray, x, fog, img);
        render_floor_and_ceil_yrange(
            map,
            ts,
            cray,
            &ins,
            x,
            span.0,
            imgh as i64,
            false,
            fog,
            floor_s,
            img,
        );
        render_floor_and_ceil_yrange(map, ts, cray, &ins, x, 0, span.1, true, fog, ceil_s, img);
        render_entities(ts, map.tsize, cray, x, entities, ins.distance, fog, img);
        proof {
            assert(clamp(imgh as int, 0, imgh as int) == imgh as int);
            assert(img.data@ == cols_pass(
                cleared,
                *map,
                *ts,
                entities@,
                *cam,
                fog,
                *floor_s,
                *ceil_s,
                imgw as int,
                imgh as int,
                x + 1,
            ));
        }
        x = x + 1;
    }
    if let Fog::Directional(_, radius) = fog {
        let total = img.data.len();
        let ghost painted = img.data@;
        proof {
            assert(total == imgw * imgh);
        }
        let mut i: usize = 0;
        while i < total
            invariant
                img.wf(),
                img.width == old(img).width,
                img.height == old(img).height,
                imgw == img.width,
                imgh == img.height,
                total == imgw * imgh,
                total == painted.len(),
                1 <= radius <= 0x40000000,
                0 <= i <= total,
                img.data@ == vign_pass(painted, imgw as int, imgh as int, radius as int, i as int),
            decreases total - i,
        {
            proof {
                lemma_vign_pass_len(painted, imgw as int, imgh as int, radius as int, i as int);
                assert(imgw >= 1) by (nonlinear_arith)
                    requires
                        imgw * imgh > i >= 0,
                        imgw >= 0,
                ;
                vstd::arithmetic::div_mod::lemma_fundamental_div_mod(i as int, imgw as int);
                vstd::arithmetic::div_mod::lemma_div_pos_is_pos(i as int, imgw as int);
                crate::fixed::lemma_div_lt(i as int, imgw as int, imgh as int);
            }
            let px = i % imgw;
            let py = i / imgw;
            let dx = px as i64 - (imgw as i64) / 2;
            let dy = py as i64 - (imgh as i64) / 2;
            proof {
                mul_bound(dx as int, dx as int, 4096, 4096);
                mul_bound(dy as int, dy as int, 4096, 4096);
                assert(dx * dx >= 0 && dy * dy >= 0) by (nonlinear_arith);
            }
            let r = isqrt_i64(dx * dx + dy * dy);
            proof {
                assert(r <= 8192) by (nonlinear_arith)
                    requires
                        0 <= r,
                        r * r <= 33554432,
                ;
                mul_bound(r as int, ONE as int, 8192, ONE as int);
            }
            let b = clamp_i64(ONE - div_t(r * ONE, radius), 0, ONE);
            let c = img.data[i];
            proof {
                assert(0 <= b * (c.a as int) <= (ONE as int) * 255) by (nonlinear_arith)
                    requires
                        0 <= b <= ONE,
                        0 <= c.a <= 255,
                ;
                lemma_div_le(b * (c.a as int), ONE as int, 255);
            }
            let nc = Rgba { r: c.r, g: c.g, b: c.b, a: (b * (c.a as i64) / ONE) as u8 };
            proof {
                assert(nc == vign_px(img.data@, imgw as int, imgh as int, radius as int, i as int));
            }
            self_set_pixel(img, i, nc);
            proof {
                assert(img.data@ == vign_pass(
                    painted,
                    imgw as int,
                    imgh as int,
                    radius as int,
                    i + 1,
                ));
            }
            i = i + 1;
        }
    }
}

/// Overwrites pixel `i` (row-major index) of the framebuffer.
fn self_set_pixel(img: &mut Image, i: usize, c: Rgba)
    requires
        old(img).wf(),
        i < old(img).data@.len(),
    ensures
        final(img).wf(),
        final(img).width == old(img).width,
        final(img).height == old(img).height,
        final(img).data@ == old(img).data@.update(i as int, c),
{
    img.data.set(i, c);
}

} // verus!
