//! The verified core of the lazor ray tracer: the checks on a scene, the
//! choice of what a ray meets, the shadow test and the brightness of a point,
//! the bookkeeping of mirror reflections, colours and their blending, and the
//! layout of the RGBA image data.
//!
//! Everything here works on integers. The arithmetic of the geometry is done
//! in floating point by the caller, who hands its results over by their bits:
//! the library compares them, chooses among them and rounds them to colours.

pub mod color;
pub mod frame;
pub mod intersect;
pub mod number;
pub mod shader;
pub mod validate;

pub use color::{mix_colors, scale_color, Color};
pub use frame::{
    compute_image_data_array_index, render_with_data_array, set_pixel_color, Frame,
};
pub use intersect::{
    closest_intersection_point, is_lit, ray_plane_intersection_point,
    ray_sphere_intersection_point, Intersection, Primitive,
};
pub use number::Number;
pub use shader::{intensity, trace_ray, Bounce, Shader, Step};
pub use validate::{check_camera, check_ray, check_vector, validate_scene, TraceError};
