use raycaster::entity::Entity;
use raycaster::fixed::ONE;
use raycaster::image::{Image, Rgba, Surface, TextureSet};
use raycaster::map::{GridMap, MapError, EMPTY_TILE};
use raycaster::render::{calculate_fog, cast_ray, cast_rays, render, Camera, ColumnRay, Fog};
use raycaster::util::{move_towards, Direction, IntersectionType, Ray, Vec2i};

fn open_room(w: usize, h: usize, tsize: i64) -> GridMap {
    let mut rows: Vec<u8> = Vec::new();
    for y in 0..h {
        if y > 0 {
            rows.push(b'\n');
        }
        for _ in 0..w {
            rows.push(b'.');
        }
    }
    let mut m = GridMap::from_bytes(&rows).unwrap();
    m.tsize = tsize;
    m
}

fn v(x: i64, y: i64) -> Vec2i {
    Vec2i { x, y }
}

#[test]
fn gpos() {
    let map = open_room(5, 5, 50);
    assert_eq!(map.gpos(v(160, 150)), v(3, 3));
    assert_eq!(map.gpos(v(200, 140)), v(4, 2));
}

#[test]
fn along_is_linear() {
    let ray = Ray::new(v(10, 20), v(ONE, 0));
    assert_eq!(ray.along(5), v(15, 20));
    let ray = Ray::new(v(10, 20), v(0, -ONE));
    assert_eq!(ray.along(7), v(10, 13));
    let ray = Ray::new(v(10, 20), v(ONE / 2, ONE / 2));
    assert_eq!(ray.along(10), v(15, 25));
    // scaling the parameter scales the offset
    let ray = Ray::new(v(0, 0), v(ONE, 0));
    for t in 0..20 {
        assert_eq!(ray.along(t), v(t, 0));
    }
}

#[test]
fn cast_open_room_east() {
    // a room with no interior walls: boundary solidity stops the ray at the
    // east edge, half the room's width from the centre
    let map = open_room(5, 5, 10);
    let ins = map.cast_ray(Ray::new(v(25, 25), v(ONE, 0)));
    assert_eq!(ins.distance, 25);
    match ins.itype {
        IntersectionType::Wall { gpos, face } => {
            assert_eq!(gpos, v(5, 2));
            assert_eq!(face, Direction::West);
        }
        _ => panic!("expected a wall hit"),
    }
}

#[test]
fn cast_open_room_south() {
    let map = open_room(5, 5, 10);
    let ins = map.cast_ray(Ray::new(v(25, 25), v(0, ONE)));
    assert_eq!(ins.distance, 25);
    match ins.itype {
        IntersectionType::Wall { gpos, face } => {
            assert_eq!(gpos, v(2, 5));
            assert_eq!(face, Direction::North);
        }
        _ => panic!("expected a wall hit"),
    }
}

#[test]
fn cast_bordered_room() {
    let mut map = GridMap::from_bytes(b"#####\n#...#\n#...#\n#...#\n#####").unwrap();
    map.tsize = 10;
    let ins = map.cast_ray(Ray::new(v(25, 25), v(ONE, 0)));
    assert_eq!(ins.distance, 15);
    match ins.itype {
        IntersectionType::Wall { gpos, face } => {
            assert_eq!(gpos, v(4, 2));
            assert_eq!(face, Direction::West);
        }
        _ => panic!("expected a wall hit"),
    }
    // a diagonal ray also terminates with a bounded distance
    let ins = map.cast_ray(Ray::new(v(25, 25), v(46341, 46341)));
    assert!(ins.distance >= 0);
    assert!(ins.distance < 100);
}

#[test]
fn resolve_move_blocks_solid_axis() {
    let mut map = GridMap::from_bytes(b"#####\n#...#\n#...#\n#...#\n#####").unwrap();
    map.tsize = 10;
    // moving toward the east wall: the probed destination tile is solid, so
    // the x axis stays put
    let r = map.move_collidable(v(25, 25), v(38, 25));
    assert_eq!(r, v(25, 25));
    // a small interior move passes
    let r = map.move_collidable(v(25, 25), v(26, 25));
    assert_eq!(r, v(26, 25));
    // sliding: y blocked, x free
    let r = map.move_collidable(v(25, 25), v(26, 38));
    assert_eq!(r.x, 26);
    assert_eq!(r.y, 25);
}

#[test]
fn move_towards_steps_exactly() {
    // distance 50, speed 5: one tenth of the displacement
    assert_eq!(move_towards(v(0, 0), v(30, 40), 5), v(3, 4));
    // coincident points stay put
    assert_eq!(move_towards(v(7, 7), v(7, 7), 5), v(7, 7));
}

#[test]
fn fog_endpoints_and_monotonicity() {
    let fog = Fog::Point(100);
    assert_eq!(calculate_fog(fog, 0), ONE);
    assert_eq!(calculate_fog(fog, 50), ONE / 2);
    assert_eq!(calculate_fog(fog, 100), 0);
    assert_eq!(calculate_fog(fog, 200), 0);
    let mut prev = ONE;
    for d in 0..150 {
        let f = calculate_fog(fog, d);
        assert!(f <= prev);
        assert!((0..=ONE).contains(&f));
        prev = f;
    }
    assert_eq!(calculate_fog(Fog::Off, 12345), ONE);
    assert_eq!(calculate_fog(Fog::Directional(100, 50), 25), ONE * 3 / 4);
}

#[test]
fn entity_center_hit_is_half() {
    let e = Entity::new(v(50, 0), b'E', (10, 10));
    let ins = e.intersect(Ray::new(v(0, 0), v(ONE, 0))).unwrap();
    assert_eq!(ins.entity_col(), ONE / 2);
    assert_eq!(ins.distance, 50);
}

#[test]
fn entity_tangent_hits_are_edges() {
    // billboard of width 10 centred 5 above / below the ray's line
    let e = Entity::new(v(50, 5), b'E', (10, 10));
    let ins = e.intersect(Ray::new(v(0, 0), v(ONE, 0))).unwrap();
    assert_eq!(ins.entity_col(), 0);
    let e = Entity::new(v(50, -5), b'E', (10, 10));
    let ins = e.intersect(Ray::new(v(0, 0), v(ONE, 0))).unwrap();
    assert_eq!(ins.entity_col(), ONE);
    // just past the edge: no hit
    let e = Entity::new(v(50, 6), b'E', (10, 10));
    assert!(e.intersect(Ray::new(v(0, 0), v(ONE, 0))).is_none());
    // behind the origin: no hit
    let e = Entity::new(v(-50, 0), b'E', (10, 10));
    assert!(e.intersect(Ray::new(v(0, 0), v(ONE, 0))).is_none());
}

#[test]
fn scenario_grid_entity_and_wall() {
    // 5 by 5 grid, solid border beyond the edge, entity at cell (2, 2),
    // tile size 10
    let map = open_room(5, 5, 10);
    let entities = [Entity::new(v(25, 25), b'E', (10, 10))];
    // the ray from (25, 25) heading east meets the east wall at distance 25
    let wall = map.cast_ray(Ray::new(v(25, 25), v(ONE, 0)));
    assert_eq!(wall.distance, 25);
    // aimed at the entity's centre, the full cast reports the entity,
    // nearer than the wall
    let ins = cast_ray(&map, &entities, Ray::new(v(5, 25), v(ONE, 0)));
    match ins.itype {
        IntersectionType::Entity { index, col } => {
            assert_eq!(index, 0);
            assert_eq!(col, ONE / 2);
        }
        _ => panic!("expected an entity hit"),
    }
    assert_eq!(ins.distance, 20);
    assert!(ins.distance < map.cast_ray(Ray::new(v(5, 25), v(ONE, 0))).distance);
}

#[test]
fn cast_ray_prefers_nearer_hit() {
    // in the open room the entity at distance 20 beats the wall at 25
    let map = open_room(5, 5, 10);
    let entities = [Entity::new(v(45, 25), b'E', (4, 4))];
    let ins = cast_ray(&map, &entities, Ray::new(v(25, 25), v(ONE, 0)));
    assert!(matches!(ins.itype, IntersectionType::Entity { .. }));
    assert_eq!(ins.distance, 20);
    // with a solid border the wall at distance 15 occludes the same entity
    let mut walled = GridMap::from_bytes(b"#####\n#...#\n#...#\n#...#\n#####").unwrap();
    walled.tsize = 10;
    let ins = cast_ray(&walled, &entities, Ray::new(v(25, 25), v(ONE, 0)));
    assert!(matches!(ins.itype, IntersectionType::Wall { .. }));
    assert_eq!(ins.distance, 15);
    // an entity behind the origin is never hit
    let behind = [Entity::new(v(5, 25), b'E', (4, 4))];
    let ins = cast_ray(&map, &behind, Ray::new(v(25, 25), v(ONE, 0)));
    assert!(matches!(ins.itype, IntersectionType::Wall { .. }));
}

#[test]
fn parse_empty_input() {
    assert_eq!(GridMap::from_bytes(b"").unwrap_err(), MapError::Empty);
    assert_eq!(GridMap::from_bytes(b"\n").unwrap_err(), MapError::Empty);
}

#[test]
fn parse_ragged_rows() {
    assert_eq!(
        GridMap::from_bytes(b"..\n.").unwrap_err(),
        MapError::NotRectangular
    );
    assert_eq!(
        GridMap::from_bytes(b"..\n...\n..").unwrap_err(),
        MapError::NotRectangular
    );
    assert_eq!(
        GridMap::from_bytes(b"\n..").unwrap_err(),
        MapError::NotRectangular
    );
}

#[test]
fn parse_oversized() {
    let row = vec![b'.'; 4097];
    assert_eq!(GridMap::from_bytes(&row).unwrap_err(), MapError::TooLarge);
}

#[test]
fn parse_layout() {
    let m = GridMap::from_bytes(b"#.#\n...").unwrap();
    assert_eq!(m.w, 3);
    assert_eq!(m.h, 2);
    assert_eq!(m.tsize, 50);
    assert_eq!(m.at(0, 0), b'#');
    assert_eq!(m.at(1, 0), b'.');
    assert_eq!(m.at(2, 1), b'.');
    // outside the grid everything is solid
    assert_eq!(m.at(-1, 0), b' ');
    assert_eq!(m.at(0, 5), b' ');
    // a trailing newline is accepted
    let m2 = GridMap::from("#.#\n...\n").unwrap();
    assert_eq!(m2.w, 3);
    assert_eq!(m2.h, 2);
}

#[test]
fn set_overwrites_cell() {
    let mut m = GridMap::from_bytes(b"..\n..").unwrap();
    m.set(1, 1, b'#');
    assert_eq!(m.at(1, 1), b'#');
    assert_eq!(m.at(0, 0), b'.');
}

#[test]
fn filter_entities_extracts_and_clears() {
    let mut m = GridMap::from_bytes(b"..E\n.F.").unwrap();
    let tags = [b'E', b'F'];
    let sizes = [(10, 20), (30, 40)];
    let es = m.filter_entities(&tags, &sizes);
    assert_eq!(es.len(), 2);
    assert_eq!(es[0].pos, v(2 * 50 + 25, 25));
    assert_eq!(es[0].texture, b'E');
    assert_eq!(es[0].w, 10);
    assert_eq!(es[0].h, 20);
    assert_eq!(es[1].pos, v(75, 75));
    assert_eq!(es[1].texture, b'F');
    assert_eq!(es[1].w, 30);
    assert_eq!(es[1].h, 40);
    // the tagged cells were rewritten to empty
    assert_eq!(m.at(2, 0), EMPTY_TILE);
    assert_eq!(m.at(1, 1), EMPTY_TILE);
    assert_eq!(m.at(0, 0), EMPTY_TILE);
}

#[test]
fn out_of_bounds_checks() {
    let m = GridMap::from_bytes(b"..\n..").unwrap();
    assert!(!m.out_of_bounds(v(0, 0)));
    assert!(!m.out_of_bounds(v(1, 1)));
    assert!(m.out_of_bounds(v(2, 0)));
    assert!(m.out_of_bounds(v(0, -1)));
}

#[test]
fn fisheye_scales_distance() {
    let map = open_room(5, 5, 10);
    let cam = Camera {
        ray: Ray::new(v(25, 25), v(ONE, 0)),
        cols: vec![
            ColumnRay { dir: v(ONE, 0), fisheye: ONE },
            ColumnRay { dir: v(ONE, 0), fisheye: ONE / 2 },
        ],
    };
    let inss = cast_rays(&map, &cam);
    assert_eq!(inss.len(), 2);
    assert_eq!(inss[0].distance, 25);
    assert_eq!(inss[0].fisheye_distance, 25);
    assert_eq!(inss[1].distance, 25);
    assert_eq!(inss[1].fisheye_distance, 12);
}

#[test]
fn texture_set_bindings() {
    let mut ts = TextureSet::new();
    assert!(ts.texture(b'#').is_none());
    assert_eq!(ts.height(b'#'), ONE);
    let img = Image::new(2, 2);
    ts.bind(b'#', img);
    assert!(ts.texture(b'#').is_some());
    assert_eq!(ts.texture(b'#').unwrap().width, 2);
    ts.set_height(b'#', 2 * ONE);
    assert_eq!(ts.height(b'#'), 2 * ONE);
    assert_eq!(ts.height(b'.'), ONE);
}

#[test]
fn image_pixels() {
    let mut img = Image::new(3, 2);
    assert_eq!(img.get(2, 1), Rgba { r: 0, g: 0, b: 0, a: 0 });
    let red = Rgba { r: 255, g: 0, b: 0, a: 255 };
    img.set_px(2, 1, red);
    assert_eq!(img.get(2, 1), red);
    assert_eq!(img.get(0, 0), Rgba { r: 0, g: 0, b: 0, a: 0 });
    img.fill(red);
    assert_eq!(img.get(0, 0), red);
}

fn solid_texture(c: Rgba) -> Image {
    let mut img = Image::new(1, 1);
    img.set_px(0, 0, c);
    img
}

#[test]
fn render_paints_wall_column() {
    // a 2x2-tile open room seen from its centre: at this distance the wall
    // span covers the whole 2-pixel-high framebuffer
    let map = open_room(2, 2, 50);
    let red = Rgba { r: 200, g: 100, b: 50, a: 255 };
    let mut ts = TextureSet::new();
    ts.bind(b' ', solid_texture(red));
    let cam = Camera {
        ray: Ray::new(v(50, 50), v(ONE, 0)),
        cols: vec![
            ColumnRay { dir: v(ONE, 0), fisheye: ONE },
            ColumnRay { dir: v(ONE, 0), fisheye: ONE },
        ],
    };
    let mut img = Image::new(2, 2);
    let floor_s = Surface::Color(Rgba { r: 1, g: 2, b: 3, a: 255 });
    let ceil_s = Surface::Color(Rgba { r: 4, g: 5, b: 6, a: 255 });
    render(&map, &ts, &[], &cam, Fog::Off, &floor_s, &ceil_s, &mut img);
    // east/west faces render unshaded: the texture colour comes through
    for x in 0..2 {
        for y in 0..2 {
            assert_eq!(img.get(x, y), red);
        }
    }
}

#[test]
fn render_entity_over_wall() {
    // an entity right in front of the camera covers the wall pixels
    let map = open_room(2, 2, 50);
    let red = Rgba { r: 200, g: 100, b: 50, a: 255 };
    let green = Rgba { r: 10, g: 250, b: 20, a: 255 };
    let mut ts = TextureSet::new();
    ts.bind(b' ', solid_texture(red));
    ts.bind(b'E', solid_texture(green));
    let entities = [Entity::new(v(75, 50), b'E', (30, 120))];
    let cam = Camera {
        ray: Ray::new(v(50, 50), v(ONE, 0)),
        cols: vec![ColumnRay { dir: v(ONE, 0), fisheye: ONE }],
    };
    let mut img = Image::new(1, 4);
    let floor_s = Surface::Color(Rgba { r: 1, g: 2, b: 3, a: 255 });
    let ceil_s = Surface::Color(Rgba { r: 4, g: 5, b: 6, a: 255 });
    render(&map, &ts, &entities, &cam, Fog::Off, &floor_s, &ceil_s, &mut img);
    // the sprite span covers the middle of the column; its colour must
    // appear somewhere in the framebuffer
    let mut found = false;
    for y in 0..4 {
        let px = img.get(0, y);
        if px.r == green.r && px.g == green.g && px.b == green.b {
            found = true;
        }
    }
    assert!(found, "entity sprite not painted");
}

#[test]
fn vignette_fades_alpha() {
    // directional fog adds a radial alpha falloff from the screen's centre
    let map = open_room(2, 2, 50);
    let red = Rgba { r: 200, g: 100, b: 50, a: 255 };
    let mut ts = TextureSet::new();
    ts.bind(b' ', solid_texture(red));
    let cam = Camera {
        ray: Ray::new(v(50, 50), v(ONE, 0)),
        cols: vec![
            ColumnRay { dir: v(ONE, 0), fisheye: ONE },
            ColumnRay { dir: v(ONE, 0), fisheye: ONE },
        ],
    };
    let mut img = Image::new(2, 2);
    let floor_s = Surface::Color(Rgba { r: 1, g: 2, b: 3, a: 255 });
    let ceil_s = Surface::Color(Rgba { r: 4, g: 5, b: 6, a: 255 });
    // a far fade distance keeps the wall alpha at 255 before the post-pass
    render(
        &map,
        &ts,
        &[],
        &cam,
        Fog::Directional(0x40000000, 2),
        &floor_s,
        &ceil_s,
        &mut img,
    );
    // the centre pixel (1, 1) is at radius 0: alpha untouched
    assert_eq!(img.get(1, 1).a, 255);
    // the corner pixel (0, 0) is at radius 1 of 2: alpha halves
    assert_eq!(img.get(0, 0).a, 127);
}

#[test]
fn intersection_accessors() {
    let w = raycaster::Intersection::new(
        IntersectionType::Wall { gpos: v(3, 4), face: Direction::South },
        17,
    );
    assert_eq!(w.wall_gpos(), v(3, 4));
    assert_eq!(w.distance, 17);
    assert_eq!(w.fisheye_distance, 17);
    let e = raycaster::Intersection::new(
        IntersectionType::Entity { index: 2, col: ONE / 4 },
        9,
    );
    assert_eq!(e.entity_index(), 2);
    assert_eq!(e.entity_col(), ONE / 4);
}
