use vstd::prelude::*;
use crate::camera::{
    UNIT, VEC_LIMIT, POS_LIMIT, Vec2i, Rotation, CameraState, div_toward_zero, rotated, rotate_camera,
    div_toward_zero_by, lemma_coord_bound,
};

verus! {

/// The largest speed multiplier that `integrate` accepts.
pub const MAX_SPEED: u32 = 65536;

/// Turning speed, in radians per unit of elapsed scale and intensity.
pub const TURN_RATE: i64 = 3;

/// The turn intensity reached by a pointer delta of one whole unit.
pub const TURN_INTENSITY: i64 = 5;

/// Forward or backward intent; the two exclude each other.
#[derive(Clone, Copy, Debug, PartialEq, Eq, Structural)]
pub enum Drive {
    Forward,
    Backward,
    Idle,
}

/// Sideways intent; right and left exclude each other.
#[derive(Clone, Copy, Debug, PartialEq, Eq, Structural)]
pub enum Strafe {
    Right,
    Left,
    Idle,
}

/// What the player asks for during one frame.
#[derive(Clone, Copy, Debug, PartialEq, Eq, Structural)]
pub struct MotionIntent {
    pub drive: Drive,
    pub strafe: Strafe,
    pub turn: Rotation,
}

/// The fraction `num / den` of a movement unit that one frame covers.
#[derive(Clone, Copy, Debug, PartialEq, Eq, Structural)]
pub struct FrameScale {
    pub num: u32,
    pub den: u32,
}

impl FrameScale {
    pub open spec fn wf(self) -> bool {
        self.den > 0
    }
}

impl MotionIntent {
    pub open spec fn is_idle(self) -> bool {
        &&& self.drive == Drive::Idle
        &&& self.strafe == Strafe::Idle
        &&& self.turn == Rotation { cos: UNIT as i64, sin: 0 }
    }

    /// No movement and no turn.
    pub fn idle() -> (r: MotionIntent)
        ensures
            r.is_idle(),
            r.turn.wf(),
    {
        MotionIntent { drive: Drive::Idle, strafe: Strafe::Idle, turn: Rotation::identity() }
    }
}

/// The velocity along the view direction.
pub open spec fn drive_velocity(facing: Vec2i, drive: Drive, speed: int) -> (int, int) {
    match drive {
        Drive::Forward => (facing.x * speed, facing.y * speed),
        Drive::Backward => (-facing.x * speed, -facing.y * speed),
        Drive::Idle => (0, 0),
    }
}

/// The sideways velocity: the view direction turned a quarter turn to the
/// right (`(x, y)` to `(-y, x)`) or to the left (`(x, y)` to `(y, -x)`).
pub open spec fn strafe_velocity(facing: Vec2i, strafe: Strafe, speed: int) -> (int, int) {
    match strafe {
        Strafe::Right => (-facing.y * speed, facing.x * speed),
        Strafe::Left => (facing.y * speed, -facing.x * speed),
        Strafe::Idle => (0, 0),
    }
}

pub open spec fn clamp(v: int, lo: int, hi: int) -> int {
    if v < lo { lo } else if v > hi { hi } else { v }
}

/// How far one frame moves the camera: the sum of both velocities times the
/// frame scale, rounded toward zero.
pub open spec fn displacement(cam: CameraState, intent: MotionIntent, speed: int, scale: FrameScale) -> (int, int) {
    let v = drive_velocity(cam.facing, intent.drive, speed);
    let s = strafe_velocity(cam.facing, intent.strafe, speed);
    (
        div_toward_zero((v.0 + s.0) * scale.num, scale.den as int),
        div_toward_zero((v.1 + s.1) * scale.num, scale.den as int),
    )
}

/// The camera after one frame: moved by `displacement` (held inside
/// `POS_LIMIT`), then `facing` and `plane` turned together by the intent's
/// rotation. Given as (position, facing, plane).
pub open spec fn integrated(cam: CameraState, intent: MotionIntent, speed: int, scale: FrameScale) -> (
    (int, int),
    (int, int),
    (int, int),
) {
    let d = displacement(cam, intent, speed, scale);
    (
        (clamp(cam.pos.x + d.0, -POS_LIMIT, POS_LIMIT as int), clamp(cam.pos.y + d.1, -POS_LIMIT, POS_LIMIT as int)),
        rotated(cam.facing, intent.turn),
        rotated(cam.plane, intent.turn),
    )
}

pub open spec fn state_of(cam: CameraState) -> ((int, int), (int, int), (int, int)) {
    (cam.pos.pair(), cam.facing.pair(), cam.plane.pair())
}

/// One velocity component times the frame scale, rounded toward zero.
fn scaled(v: i128, scale: FrameScale) -> (r: i128)
    requires
        scale.wf(),
        -0x4_0000_0000_0000 <= v <= 0x4_0000_0000_0000,
    ensures
        r == div_toward_zero(v * scale.num, scale.den as int),
        -0x4_0000_0000_0000_0000_0000 <= r <= 0x4_0000_0000_0000_0000_0000,
{
    let n = scale.num as i128;
    assert(-0x4_0000_0000_0000 * 0x1_0000_0000 <= v * n <= 0x4_0000_0000_0000 * 0x1_0000_0000) by (nonlinear_arith)
        requires -0x4_0000_0000_0000 <= v <= 0x4_0000_0000_0000, 0 <= n < 0x1_0000_0000;
    let q = div_toward_zero_by(v * n, scale.den as i128);
    proof {
        let m = v * n;
        if m >= 0 {
            vstd::arithmetic::div_mod::lemma_div_nonincreasing(m as int, scale.den as int);
        } else {
            vstd::arithmetic::div_mod::lemma_div_nonincreasing(-m as int, scale.den as int);
        }
    }
    q
}

fn clamp_pos(v: i128) -> (r: i64)
    ensures
        r == clamp(v as int, -POS_LIMIT, POS_LIMIT as int),
{
    if v < -(POS_LIMIT as i128) {
        -POS_LIMIT
    } else if v > POS_LIMIT as i128 {
        POS_LIMIT
    } else {
        v as i64
    }
}

/// Advances the camera by one frame of `intent` at `speed`, scaled by `scale`.
pub fn integrate(cam: CameraState, intent: MotionIntent, speed: u32, scale: FrameScale) -> (r: CameraState)
    requires
        cam.wf(),
        intent.turn.wf(),
        scale.wf(),
        speed <= MAX_SPEED,
    ensures
        state_of(r) == integrated(cam, intent, speed as int, scale),
        r.wf(),
{
    proof {
        lemma_coord_bound(cam.facing.x as int, cam.facing.y as int);
    }
    let fx = cam.facing.x as i128;
    let fy = cam.facing.y as i128;
    let sp = speed as i128;
    assert(-VEC_LIMIT * MAX_SPEED <= fx * sp <= VEC_LIMIT * MAX_SPEED) by (nonlinear_arith)
        requires -VEC_LIMIT <= fx <= VEC_LIMIT, 0 <= sp <= MAX_SPEED;
    assert(-VEC_LIMIT * MAX_SPEED <= fy * sp <= VEC_LIMIT * MAX_SPEED) by (nonlinear_arith)
        requires -VEC_LIMIT <= fy <= VEC_LIMIT, 0 <= sp <= MAX_SPEED;
    let (vx, vy): (i128, i128) = match intent.drive {
        Drive::Forward => (fx * sp, fy * sp),
        Drive::Backward => (-(fx * sp), -(fy * sp)),
        Drive::Idle => (0, 0),
    };
    let (wx, wy): (i128, i128) = match intent.strafe {
        Strafe::Right => (-(fy * sp), fx * sp),
        Strafe::Left => (fy * sp, -(fx * sp)),
        Strafe::Idle => (0, 0),
    };
    proof {
        let v = drive_velocity(cam.facing, intent.drive, speed as int);
        let s = strafe_velocity(cam.facing, intent.strafe, speed as int);
        assert(-fx * sp == -(fx * sp)) by (nonlinear_arith);
        assert(-fy * sp == -(fy * sp)) by (nonlinear_arith);
        assert(v == (vx as int, vy as int));
        assert(s == (wx as int, wy as int));
    }
    let dx = scaled(vx + wx, scale);
    let dy = scaled(vy + wy, scale);
    let moved = CameraState {
        pos: Vec2i { x: clamp_pos(cam.pos.x as i128 + dx), y: clamp_pos(cam.pos.y as i128 + dy) },
        facing: cam.facing,
        plane: cam.plane,
    };
    rotate_camera(moved, intent.turn)
}

/// A frame with no movement and no turn leaves the camera as it was.
pub proof fn lemma_idle_frame_keeps_camera(cam: CameraState, intent: MotionIntent, speed: int, scale: FrameScale)
    requires
        cam.wf(),
        intent.is_idle(),
        scale.wf(),
    ensures
        integrated(cam, intent, speed, scale) == state_of(cam),
{
    lemma_rotate_identity(cam.facing.x as int, cam.facing.y as int);
    lemma_rotate_identity(cam.plane.x as int, cam.plane.y as int);
    assert(0 * (scale.num as int) == 0);
    assert(div_toward_zero(0, scale.den as int) == 0);
}

proof fn lemma_rotate_identity(x: int, y: int)
    ensures
        div_toward_zero(x * UNIT - y * 0, UNIT as int) == x,
        div_toward_zero(x * 0 + y * UNIT, UNIT as int) == y,
{
    assert(x * UNIT - y * 0 == x * UNIT) by (nonlinear_arith);
    assert(x * 0 + y * UNIT == y * UNIT) by (nonlinear_arith);
    lemma_div_unit(x);
    lemma_div_unit(y);
}

proof fn lemma_div_unit(x: int)
    ensures
        div_toward_zero(x * UNIT, UNIT as int) == x,
{
    if x >= 0 {
        assert(x * UNIT >= 0) by (nonlinear_arith)
            requires x >= 0;
        vstd::arithmetic::div_mod::lemma_div_multiples_vanish(x, UNIT as int);
        assert(UNIT * x == x * UNIT) by (nonlinear_arith);
    } else {
        assert(x * UNIT < 0) by (nonlinear_arith)
            requires x < 0;
        assert(-(x * UNIT) == (-x) * UNIT) by (nonlinear_arith);
        vstd::arithmetic::div_mod::lemma_div_multiples_vanish(-x, UNIT as int);
        assert(UNIT * (-x) == (-x) * UNIT) by (nonlinear_arith);
    }
}

/// The rotation angle, in fixed-point radians, that a horizontal pointer
/// delta `pointer_dx` (in fixed-point units) asks for during a frame of
/// `scale`: turning is against the sign of the delta, at `TURN_RATE`, with an
/// intensity of `TURN_INTENSITY` per unit of delta. The delta is first held
/// to one unit either way, which keeps the intensity within
/// `[0, TURN_INTENSITY]`.
pub open spec fn turn_of(pointer_dx: int, scale: FrameScale) -> int {
    let c = clamp(pointer_dx, -UNIT as int, UNIT as int);
    let intensity = TURN_INTENSITY * (if c < 0 { -c } else { c });
    let rate = if pointer_dx > 0 { -TURN_RATE } else if pointer_dx < 0 { TURN_RATE as int } else { 0 };
    div_toward_zero(rate * intensity * scale.num, scale.den as int)
}

/// The turn angle for a pointer delta; see `turn_of`.
pub fn turn_angle(pointer_dx: i64, scale: FrameScale) -> (r: i64)
    requires
        scale.wf(),
    ensures
        r == turn_of(pointer_dx as int, scale),
{
    let c: i64 = if pointer_dx < -UNIT {
        -UNIT
    } else if pointer_dx > UNIT {
        UNIT
    } else {
        pointer_dx
    };
    let mag: i128 = if c < 0 { -(c as i128) } else { c as i128 };
    let intensity = (TURN_INTENSITY as i128) * mag;
    let rate: i128 = if pointer_dx > 0 {
        -(TURN_RATE as i128)
    } else if pointer_dx < 0 {
        TURN_RATE as i128
    } else {
        0
    };
    let n = scale.num as i128;
    assert(-3 * 5 * UNIT <= rate * intensity <= 3 * 5 * UNIT) by (nonlinear_arith)
        requires -3 <= rate <= 3, 0 <= intensity <= 5 * UNIT;
    assert(-3 * 5 * UNIT * 0x1_0000_0000 <= rate * intensity * n <= 3 * 5 * UNIT * 0x1_0000_0000)
        by (nonlinear_arith)
        requires -3 * 5 * UNIT <= rate * intensity <= 3 * 5 * UNIT, 0 <= n < 0x1_0000_0000;
    let q = div_toward_zero_by(rate * intensity * n, scale.den as i128);
    proof {
        let m = rate * intensity * n;
        if m >= 0 {
            vstd::arithmetic::div_mod::lemma_div_nonincreasing(m as int, scale.den as int);
            vstd::arithmetic::div_mod::lemma_div_pos_is_pos(m as int, scale.den as int);
        } else {
            vstd::arithmetic::div_mod::lemma_div_nonincreasing(-m as int, scale.den as int);
            vstd::arithmetic::div_mod::lemma_div_pos_is_pos(-m as int, scale.den as int);
        }
    }
    q as i64
}

} // verus!
