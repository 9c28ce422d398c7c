use raycast::{
    cast_column, integrate, rotate_camera, rotate_vec, turn_angle, wall_span, CameraState, Drive, FrameScale,
    GridError, MotionIntent, OccupancyGrid, RayHit, Rotation, Side, Strafe, Vec2i, MAX_SIDE, UNIT,
};

const PLANE: i64 = 50688; // 0.66 of a cell

fn bordered(n: usize) -> OccupancyGrid {
    let mut rows = Vec::new();
    for y in 0..n {
        let mut row = Vec::new();
        for x in 0..n {
            let edge = x == 0 || y == 0 || x == n - 1 || y == n - 1;
            row.push(if edge { 1 } else { 0 });
        }
        rows.push(row);
    }
    OccupancyGrid::from_rows(&rows).unwrap()
}

fn cam(px: i64, py: i64, fx: i64, fy: i64, qx: i64, qy: i64) -> CameraState {
    CameraState { pos: Vec2i { x: px, y: py }, facing: Vec2i { x: fx, y: fy }, plane: Vec2i { x: qx, y: qy } }
}

fn scale(num: u32, den: u32) -> FrameScale {
    FrameScale { num, den }
}

#[test]
fn center_column_facing_up_hits_top_wall() {
    let g = bordered(10);
    let c = cam(5 * UNIT, 5 * UNIT, 0, -UNIT, PLANE, 0);
    let h = cast_column(&c, &g, 320, 640).unwrap();
    assert_eq!(h.side, Side::Y);
    assert_eq!((h.cell_x, h.cell_y), (5, 0));
    assert_eq!(h.dist_num, 4 * h.dist_den);
}

#[test]
fn center_column_after_quarter_turn_hits_right_wall() {
    let g = bordered(10);
    let start = cam(5 * UNIT, 5 * UNIT, 0, -UNIT, PLANE, 0);
    let turned = rotate_camera(start, Rotation::new(0, UNIT).unwrap());
    assert_eq!(turned.facing, Vec2i { x: UNIT, y: 0 });
    assert_eq!(turned.plane, Vec2i { x: 0, y: PLANE });
    let h = cast_column(&turned, &g, 320, 640).unwrap();
    assert_eq!(h.side, Side::X);
    assert_eq!((h.cell_x, h.cell_y), (9, 5));
    assert_eq!(h.dist_num, 4 * h.dist_den);
}

#[test]
fn forward_frame_moves_by_facing_times_speed_over_75() {
    let c = cam(5 * UNIT, 5 * UNIT, 0, -UNIT, PLANE, 0);
    let intent = MotionIntent { drive: Drive::Forward, strafe: Strafe::Idle, turn: Rotation::identity() };
    let next = integrate(c, intent, 5, scale(1, 75));
    assert_eq!(next.pos, Vec2i { x: 5 * UNIT, y: 5 * UNIT - UNIT * 5 / 75 });
    assert_eq!(next.pos.y, 5 * UNIT - 5120);
    assert_eq!(next.facing, c.facing);
    assert_eq!(next.plane, c.plane);
}

#[test]
fn idle_frame_leaves_camera_unchanged() {
    let c = cam(3 * UNIT + 17, -2 * UNIT - 5, 1234, -56789, -40000, 999);
    for (num, den, speed) in [(1, 75, 5), (3, 7, 9), (0, 1, 0), (1000, 1, 65536)] {
        assert_eq!(integrate(c, MotionIntent::idle(), speed, scale(num, den)), c);
    }
}

#[test]
fn backward_and_strafe_frames() {
    let c = cam(5 * UNIT, 5 * UNIT, 0, -UNIT, PLANE, 0);
    let back = MotionIntent { drive: Drive::Backward, strafe: Strafe::Idle, turn: Rotation::identity() };
    assert_eq!(integrate(c, back, 5, scale(1, 75)).pos, Vec2i { x: 5 * UNIT, y: 5 * UNIT + 5120 });
    let right = MotionIntent { drive: Drive::Idle, strafe: Strafe::Right, turn: Rotation::identity() };
    assert_eq!(integrate(c, right, 5, scale(1, 75)).pos, Vec2i { x: 5 * UNIT + 5120, y: 5 * UNIT });
    let left = MotionIntent { drive: Drive::Idle, strafe: Strafe::Left, turn: Rotation::identity() };
    assert_eq!(integrate(c, left, 5, scale(1, 75)).pos, Vec2i { x: 5 * UNIT - 5120, y: 5 * UNIT });
    let both = MotionIntent { drive: Drive::Forward, strafe: Strafe::Right, turn: Rotation::identity() };
    assert_eq!(integrate(c, both, 5, scale(1, 75)).pos, Vec2i { x: 5 * UNIT + 5120, y: 5 * UNIT - 5120 });
}

#[test]
fn rotation_keeps_lengths_and_relative_angle() {
    let f = Vec2i { x: 0, y: -UNIT };
    let p = Vec2i { x: UNIT / 2, y: 0 };
    // cos and sin of a 3-4-5 right triangle, scaled to UNIT: an exact rotation
    let r = Rotation::new(UNIT * 4 / 5, UNIT * 3 / 5).unwrap();
    let f2 = rotate_vec(f, r);
    let p2 = rotate_vec(p, r);
    let norm = |v: Vec2i| (v.x as i128) * (v.x as i128) + (v.y as i128) * (v.y as i128);
    let dot = |a: Vec2i, b: Vec2i| (a.x as i128) * (b.x as i128) + (a.y as i128) * (b.y as i128);
    let cross = |a: Vec2i, b: Vec2i| (a.x as i128) * (b.y as i128) - (a.y as i128) * (b.x as i128);
    assert_eq!(norm(f2), norm(f));
    assert_eq!(norm(p2), norm(p));
    assert_eq!(dot(f2, p2), dot(f, p));
    assert_eq!(cross(f2, p2), cross(f, p));
    assert_eq!(f2, Vec2i { x: UNIT * 3 / 5, y: -UNIT * 4 / 5 });
    // an inexact rotation by 0.1 rad: lengths drift by less than a unit
    let a = 0.1f64;
    let r = Rotation::new((a.cos() * UNIT as f64) as i64, (a.sin() * UNIT as f64) as i64).unwrap();
    let f3 = rotate_vec(f, r);
    let len = (norm(f3) as f64).sqrt();
    assert!((len - UNIT as f64).abs() < 2.0);
    assert!(f3.x > 0 && f3.y < 0);
}

#[test]
fn rotation_longer_than_a_unit_is_refused() {
    assert!(Rotation::new(UNIT, 1).is_none());
    assert!(Rotation::new(UNIT, UNIT).is_none());
    assert!(Rotation::new(-UNIT, 0).is_some());
}

#[test]
fn axis_aligned_rays_never_stall() {
    let g = bordered(10);
    // straight along x with no y component: the case that divides by zero
    // or loops when both axes are special-cased together
    let c = cam(5 * UNIT, 5 * UNIT, UNIT, 0, 0, PLANE);
    let h = cast_column(&c, &g, 1, 2).unwrap();
    assert_eq!((h.side, h.cell_x, h.cell_y), (Side::X, 9, 5));
    assert!(h.dist_den > 0);
    assert_eq!(h.dist_num, 4 * h.dist_den);
    let c = cam(5 * UNIT / 2, 5 * UNIT / 2, -UNIT, 0, 0, PLANE);
    let h = cast_column(&c, &g, 1, 2).unwrap();
    assert_eq!((h.side, h.cell_x, h.cell_y), (Side::X, 0, 2));
    assert_eq!(2 * h.dist_num, 3 * h.dist_den);
    let c = cam(5 * UNIT / 2, 5 * UNIT / 2, 0, UNIT, PLANE, 0);
    let h = cast_column(&c, &g, 1, 2).unwrap();
    assert_eq!((h.side, h.cell_x, h.cell_y), (Side::Y, 2, 9));
    assert_eq!(2 * h.dist_num, 13 * h.dist_den);
}

#[test]
fn enclosed_grid_always_hits_within_bounds() {
    let g = bordered(10);
    let c = cam(5 * UNIT + 1234, 5 * UNIT - 4321, 0, -UNIT, PLANE, 0);
    for turn in 0..4 {
        let mut cc = c;
        for _ in 0..turn {
            cc = rotate_camera(cc, Rotation::new(0, UNIT).unwrap());
        }
        for col in 0..64u32 {
            let h = cast_column(&cc, &g, col, 64).unwrap();
            assert!(h.steps_x <= 8 && h.steps_y <= 8);
            assert!(h.cell_x == 0 || h.cell_y == 0 || h.cell_x == 9 || h.cell_y == 9);
        }
    }
}

#[test]
fn nearest_solid_cell_is_found_first() {
    let mut rows = vec![vec![0u32; 6]; 6];
    rows[2][3] = 7;
    rows[2][4] = 1;
    rows[3][3] = 1;
    let g = OccupancyGrid::from_rows(&rows).unwrap();
    // from (1.5, 1.5) along (1, 0.4): cells (1,1), (2,1), (2,2), then (3,2)
    let c = cam(3 * UNIT / 2, 3 * UNIT / 2, UNIT, UNIT * 2 / 5, 0, 0);
    let h = cast_column(&c, &g, 1, 2).unwrap();
    assert_eq!(
        h,
        RayHit { side: Side::X, cell_x: 3, cell_y: 2, steps_x: 2, steps_y: 1, dist_num: h.dist_num, dist_den: h.dist_den }
    );
    assert_eq!(2 * h.dist_num, 3 * h.dist_den);
}

#[test]
fn zero_ray_and_open_grid_give_no_hit() {
    let g = bordered(10);
    let c = cam(5 * UNIT, 5 * UNIT, UNIT, 0, UNIT, 0);
    assert_eq!(cast_column(&c, &g, 0, 2), None);
    let open = OccupancyGrid::from_rows(&vec![vec![0u32; 3]; 3]).unwrap();
    let c = cam(UNIT, UNIT, UNIT, 0, 0, PLANE);
    assert_eq!(cast_column(&c, &open, 5, 10), None);
    let far = cam(-40 * UNIT, UNIT, UNIT, 0, 0, PLANE);
    assert_eq!(cast_column(&far, &g, 5, 10), None);
}

#[test]
fn grid_construction_errors() {
    assert_eq!(OccupancyGrid::from_rows(&vec![]).err(), Some(GridError::Empty));
    assert_eq!(OccupancyGrid::from_rows(&vec![vec![]]).err(), Some(GridError::Empty));
    assert_eq!(OccupancyGrid::from_rows(&vec![vec![1, 1], vec![1]]).err(), Some(GridError::Ragged));
    assert_eq!(OccupancyGrid::from_rows(&vec![vec![0u32; MAX_SIDE + 1]]).err(), Some(GridError::TooLarge));
    assert!(OccupancyGrid::from_rows(&vec![vec![0u32; MAX_SIDE]]).is_ok());
}

#[test]
fn query_reads_column_then_row() {
    let g = OccupancyGrid::from_rows(&vec![vec![1, 2, 3], vec![4, 5, 6]]).unwrap();
    assert_eq!(g.width_cells(), 3);
    assert_eq!(g.height_cells(), 2);
    assert_eq!(g.query(0, 0), Some(1));
    assert_eq!(g.query(2, 0), Some(3));
    assert_eq!(g.query(0, 1), Some(4));
    assert_eq!(g.query(2, 1), Some(6));
    assert_eq!(g.query(3, 0), None);
    assert_eq!(g.query(0, 2), None);
    assert_eq!(g.query(-1, 0), None);
    assert_eq!(g.query(0, -1), None);
}

#[test]
fn wall_span_is_centered_and_clipped() {
    let hit = |num: u128, den: u128| RayHit {
        side: Side::X,
        cell_x: 0,
        cell_y: 0,
        steps_x: 1,
        steps_y: 0,
        dist_num: num,
        dist_den: den,
    };
    assert_eq!(wall_span(&hit(4, 1), 480), (180, 300));
    assert_eq!(wall_span(&hit(3, 2), 480), (80, 400));
    assert_eq!(wall_span(&hit(1, 2), 480), (0, 480));
    assert_eq!(wall_span(&hit(0, 7), 480), (0, 480));
    assert_eq!(wall_span(&hit(7, 1), 480), (206, 274));
}

#[test]
fn turn_angle_follows_pointer_delta() {
    let s = scale(1, 75);
    assert_eq!(turn_angle(UNIT / 2, s), -UNIT / 10);
    assert_eq!(turn_angle(-UNIT / 2, s), UNIT / 10);
    assert_eq!(turn_angle(0, s), 0);
    assert_eq!(turn_angle(3 * UNIT, s), -UNIT / 5);
    assert_eq!(turn_angle(-3 * UNIT, s), UNIT / 5);
}

#[test]
fn turning_frame_rotates_facing_and_plane_together() {
    let c = cam(5 * UNIT, 5 * UNIT, 0, -UNIT, PLANE, 0);
    let intent = MotionIntent { drive: Drive::Idle, strafe: Strafe::Idle, turn: Rotation::new(0, UNIT).unwrap() };
    let next = integrate(c, intent, 5, scale(1, 75));
    assert_eq!(next.pos, c.pos);
    assert_eq!(next.facing, Vec2i { x: UNIT, y: 0 });
    assert_eq!(next.plane, Vec2i { x: 0, y: PLANE });
}
