//! First-person ray casting over a tile grid, in exact fixed-point arithmetic.
//!
//! Positions and vectors are measured in fixed-point units, `UNIT` of them per
//! grid cell. The caster walks a ray cell by cell with the digital differential
//! analyzer (DDA) and reports the first solid tile with its exact perpendicular
//! distance; the motion integrator advances the camera once per frame.

mod camera;
mod caster;
mod motion;
mod occupancy;

pub use camera::{
    cross, div_toward_zero, dot, lemma_rotation_keeps_shape, rotate_camera, rotate_vec, rotated, rotated_exact,
    CameraState, Rotation, Vec2i, POS_LIMIT, UNIT, VEC_LIMIT,
};
pub use caster::{
    cast_column, column_walk, lemma_axis_aligned_walk, lemma_crossings_in_order, ray_of, walk_of, wall_height,
    wall_span, x_no_later, y_no_later, RayHit, Side, Walk,
};
pub use motion::{
    displacement, integrate, integrated, lemma_idle_frame_keeps_camera, turn_angle, turn_of, Drive, FrameScale,
    MotionIntent, Strafe, MAX_SPEED, TURN_INTENSITY, TURN_RATE,
};
pub use occupancy::{GridError, OccupancyGrid, MAX_SIDE};
