//! A software raycaster for 2D tile grids: grid-boundary ray casting,
//! ray-vs-billboard entity intersection, axis-separated collision
//! resolution, and a per-column rendering pipeline (textured walls with
//! fisheye correction and per-tile wall heights, projected floors and
//! ceilings, depth-sorted billboard sprites, distance fog) painting into an
//! RGBA framebuffer.
//!
//! All geometry is integer-valued: world positions are plain `i64` units and
//! fractional quantities (direction vectors, fog factors, column fractions)
//! are fixed-point numbers scaled by [`fixed::ONE`]. A caller supplies the
//! camera's per-column direction vectors, derived once per frame from its
//! heading angle and field of view.

pub mod entity;
pub mod fixed;
pub mod image;
pub mod map;
pub mod render;
pub mod util;

pub use render::{render, cast_ray, cast_rays, calculate_fog, Fog, Camera, ColumnRay};
pub use map::{GridMap, MapError};
pub use entity::Entity;
pub use util::{Ray, Intersection, IntersectionType, Direction, Vec2i};
