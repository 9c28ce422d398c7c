use vstd::prelude::*;
use crate::camera::{UNIT, VEC_LIMIT, POS_LIMIT, CameraState, lemma_coord_bound};
use crate::occupancy::{OccupancyGrid, MAX_SIDE};

verus! {

/// Which family of grid lines the ray crossed last: vertical lines (`X`) or
/// horizontal ones (`Y`). Walls are shaded by it.
#[derive(Clone, Copy, Debug, PartialEq, Eq, Structural)]
pub enum Side {
    X,
    Y,
}

/// The first solid tile a ray reached. Its perpendicular distance, in cells,
/// is exactly `dist_num / dist_den`.
#[derive(Clone, Copy, Debug, PartialEq, Eq, Structural)]
pub struct RayHit {
    pub side: Side,
    pub cell_x: i64,
    pub cell_y: i64,
    pub steps_x: u64,
    pub steps_y: u64,
    pub dist_num: u128,
    pub dist_den: u128,
}

/// The direction of the ray through `column` of a screen `width` columns wide,
/// scaled by `width`: `facing * width + plane * (2 * column - width)`.
pub open spec fn ray_of(cam: CameraState, column: int, width: int) -> (int, int) {
    (
        cam.facing.x * width + cam.plane.x * (2 * column - width),
        cam.facing.y * width + cam.plane.y * (2 * column - width),
    )
}

pub open spec fn sign(v: int) -> int {
    if v > 0 { 1 } else if v < 0 { -1 } else { 0 }
}

pub open spec fn abs(v: int) -> int {
    if v < 0 { -v } else { v }
}

/// `c` moved `n` cells in the direction of `s`.
pub open spec fn advance(c: int, n: int, s: int) -> int {
    if s > 0 { c + n } else if s < 0 { c - n } else { c }
}

/// A ray's walk through the grid. Crossing number `i >= 1` of a vertical grid
/// line happens at a ray parameter proportional to
/// `(near_x + (i - 1) * UNIT) / span_x`, and
/// likewise for horizontal lines; a span of zero means that no such line is
/// ever crossed.
pub struct Walk {
    pub cell_x: int,
    pub cell_y: int,
    pub step_x: int,
    pub step_y: int,
    pub near_x: int,
    pub near_y: int,
    pub span_x: int,
    pub span_y: int,
}

/// The walk of a ray from `pos` in direction `ray`.
pub open spec fn walk_of(pos: crate::camera::Vec2i, ray: (int, int)) -> Walk {
    Walk {
        cell_x: pos.x as int / UNIT as int,
        cell_y: pos.y as int / UNIT as int,
        step_x: sign(ray.0),
        step_y: sign(ray.1),
        near_x: if ray.0 < 0 { pos.x as int % UNIT as int } else if ray.0 > 0 { UNIT - pos.x as int % UNIT as int } else { 0 },
        near_y: if ray.1 < 0 { pos.y as int % UNIT as int } else if ray.1 > 0 { UNIT - pos.y as int % UNIT as int } else { 0 },
        span_x: abs(ray.0),
        span_y: abs(ray.1),
    }
}

impl Walk {
    pub open spec fn degenerate(self) -> bool {
        self.span_x == 0 && self.span_y == 0
    }

    /// After `a` steps along x and `b` along y, the next vertical line comes
    /// strictly before the next horizontal one.
    pub open spec fn x_first(self, a: int, b: int) -> bool {
        self.span_x > 0 && (self.span_y == 0 || (self.near_x + a * UNIT) * self.span_y < (self.near_y + b
            * UNIT) * self.span_x)
    }

    /// How many steps along x and along y the first `k` steps take.
    pub open spec fn steps(self, k: nat) -> (int, int)
        decreases k,
    {
        if k == 0 {
            (0, 0)
        } else {
            let p = self.steps((k - 1) as nat);
            if self.x_first(p.0, p.1) {
                (p.0 + 1, p.1)
            } else {
                (p.0, p.1 + 1)
            }
        }
    }

    /// The cell reached after `k` steps.
    pub open spec fn cell(self, k: nat) -> (int, int) {
        let p = self.steps(k);
        (advance(self.cell_x, p.0, self.step_x), advance(self.cell_y, p.1, self.step_y))
    }

    /// Step `k` (from 1) crossed a vertical grid line.
    pub open spec fn last_x(self, k: nat) -> bool {
        k > 0 && self.x_first(self.steps((k - 1) as nat).0, self.steps((k - 1) as nat).1)
    }

    /// The cells of steps 1 to `n - 1` lie in `g` and are open.
    pub open spec fn open_before(self, g: OccupancyGrid, n: nat) -> bool {
        forall|j: nat|
            1 <= j < n ==> g.inside(#[trigger] self.cell(j).0, self.cell(j).1) && g.tile(self.cell(j).0, self.cell(j).1)
                == 0
    }

    /// The numerator of the perpendicular distance to the line crossed by step
    /// `k`, for a screen `width` columns wide.
    pub open spec fn perp_num(self, k: nat, width: int) -> int {
        if self.last_x(k) {
            (self.near_x + (self.steps(k).0 - 1) * UNIT) * width
        } else {
            (self.near_y + (self.steps(k).1 - 1) * UNIT) * width
        }
    }

    pub open spec fn perp_den(self, k: nat) -> int {
        if self.last_x(k) { self.span_x } else { self.span_y }
    }

    /// `h` reports that this walk first reaches a solid tile of `g` at step
    /// `h.steps_x + h.steps_y`, with the perpendicular distance seen from a
    /// screen `width` columns wide.
    pub open spec fn hit_matches(self, g: OccupancyGrid, h: RayHit, width: int) -> bool {
        let n = (h.steps_x + h.steps_y) as nat;
        &&& !self.degenerate()
        &&& n >= 1
        &&& self.steps(n) == (h.steps_x as int, h.steps_y as int)
        &&& self.open_before(g, n)
        &&& (h.cell_x as int, h.cell_y as int) == self.cell(n)
        &&& g.solid(h.cell_x as int, h.cell_y as int)
        &&& (h.side == Side::X <==> self.last_x(n))
        &&& h.dist_num == self.perp_num(n, width)
        &&& h.dist_den == self.perp_den(n)
        &&& h.dist_den > 0
    }
}

/// Crossing `i` (from 1) of a vertical line comes no later than crossing `j`
/// of a horizontal line; a line family with a zero span is never crossed.
pub open spec fn x_no_later(w: Walk, i: int, j: int) -> bool {
    w.span_x > 0 && (w.span_y == 0 || (w.near_x + (i - 1) * UNIT) * w.span_y <= (w.near_y + (j - 1) * UNIT)
        * w.span_x)
}

/// Crossing `j` (from 1) of a horizontal line comes no later than crossing
/// `i` of a vertical line.
pub open spec fn y_no_later(w: Walk, j: int, i: int) -> bool {
    w.span_y > 0 && (w.span_x == 0 || (w.near_y + (j - 1) * UNIT) * w.span_x <= (w.near_x + (i - 1) * UNIT)
        * w.span_y)
}

proof fn lemma_mul_step(n: int, s: int)
    requires
        s >= 0,
    ensures
        (n + UNIT) * s == n * s + UNIT * s,
        UNIT * s >= 0,
{
    assert((n + UNIT) * s == n * s + UNIT * s) by (nonlinear_arith);
    assert(UNIT * s >= 0) by (nonlinear_arith)
        requires s >= 0;
}

/// The walk takes grid-line crossings in order of distance along the ray:
/// after any number of steps, the last vertical line crossed lies no farther
/// than the next horizontal line, and the last horizontal line crossed no
/// farther than the next vertical line. So no cell the ray passes through
/// before the hit is skipped, and cells are visited in order of distance.
pub proof fn lemma_crossings_in_order(w: Walk, k: nat)
    requires
        !w.degenerate(),
        w.span_x >= 0,
        w.span_y >= 0,
    ensures
        w.steps(k).0 >= 1 ==> x_no_later(w, w.steps(k).0, w.steps(k).1 + 1),
        w.steps(k).1 >= 1 ==> y_no_later(w, w.steps(k).1, w.steps(k).0 + 1),
        w.steps(k).0 >= 0 && w.steps(k).1 >= 0,
        w.steps(k).0 + w.steps(k).1 == k,
        w.span_x == 0 ==> w.steps(k).0 == 0,
        w.span_y == 0 ==> w.steps(k).1 == 0,
    decreases k,
{
    if k > 0 {
        let km = (k - 1) as nat;
        lemma_crossings_in_order(w, km);
        let a = w.steps(km).0;
        let b = w.steps(km).1;
        let sx = w.span_x;
        let sy = w.span_y;
        let nxa = w.near_x + a * UNIT;
        let nyb = w.near_y + b * UNIT;
        assert(w.near_x + (a + 1 - 1) * UNIT == nxa);
        assert(w.near_y + (b + 1 - 1) * UNIT == nyb);
        assert(w.near_x + (a + 2 - 1) * UNIT == nxa + UNIT);
        assert(w.near_y + (b + 2 - 1) * UNIT == nyb + UNIT);
        lemma_mul_step(nxa, sy);
        lemma_mul_step(nyb, sx);
        if w.x_first(a, b) {
            assert(w.steps(k) == (a + 1, b));
            assert(x_no_later(w, a + 1, b + 1));
            if b >= 1 {
                assert(y_no_later(w, b, a + 1));
                assert(y_no_later(w, b, a + 2));
            }
        } else {
            assert(w.steps(k) == (a, b + 1));
            assert(sy > 0);
            assert(y_no_later(w, b + 1, a + 1));
            if a >= 1 {
                assert(x_no_later(w, a, b + 1));
                assert(x_no_later(w, a, b + 2));
            }
        }
    }
}

/// A ray along one axis never stalls: every step crosses a line of the
/// other family, moves the cell by one along that axis, and reports a
/// distance with a nonzero denominator that grows by a whole cell per step.
pub proof fn lemma_axis_aligned_walk(w: Walk, k: nat, width: int)
    requires
        w.span_x > 0 && w.span_y == 0 || w.span_x == 0 && w.span_y > 0,
        w.step_x != 0 <==> w.span_x > 0,
        w.step_y != 0 <==> w.span_y > 0,
        w.near_x >= 0,
        w.near_y >= 0,
        width > 0,
    ensures
        w.span_y == 0 ==> w.steps(k) == (k as int, 0int),
        w.span_x == 0 ==> w.steps(k) == (0int, k as int),
        k >= 1 ==> w.cell(k) != w.cell((k - 1) as nat),
        k >= 1 ==> w.perp_den(k) > 0 && w.perp_num(k, width) >= 0,
        k >= 2 ==> w.perp_num(k, width) >= UNIT * width,
    decreases k,
{
    if k > 0 {
        lemma_axis_aligned_walk(w, (k - 1) as nat, width);
        let m = k - 1;
        if w.span_y == 0 {
            assert(w.last_x(k));
            assert(w.near_x + m * UNIT >= 0) by (nonlinear_arith)
                requires w.near_x >= 0, m >= 0;
            assert((w.near_x + m * UNIT) * width >= 0) by (nonlinear_arith)
                requires w.near_x + m * UNIT >= 0, width > 0;
            if k >= 2 {
                assert((w.near_x + m * UNIT) * width >= UNIT * width) by (nonlinear_arith)
                    requires w.near_x >= 0, m >= 1, width > 0;
            }
        } else {
            assert(!w.last_x(k));
            assert(w.near_y + m * UNIT >= 0) by (nonlinear_arith)
                requires w.near_y >= 0, m >= 0;
            assert((w.near_y + m * UNIT) * width >= 0) by (nonlinear_arith)
                requires w.near_y + m * UNIT >= 0, width > 0;
            if k >= 2 {
                assert((w.near_y + m * UNIT) * width >= UNIT * width) by (nonlinear_arith)
                    requires w.near_y >= 0, m >= 1, width > 0;
            }
        }
    }
}

/// The on-screen height of a wall at perpendicular distance `num / den` on a
/// screen `screen_height` rows tall, capped at the screen's height.
pub open spec fn wall_height(num: int, den: int, screen_height: int) -> int {
    if num == 0 || den >= num { screen_height } else { screen_height * den / num }
}

/// The rows that the wall of `hit` covers, from `top` up to `bottom`
/// (exclusive), centred on the screen and clipped to it.
pub fn wall_span(hit: &RayHit, screen_height: u32) -> (r: (u32, u32))
    requires
        hit.dist_den < 0x4_0000_0000_0000_0000,
    ensures
        ({
            let h = wall_height(hit.dist_num as int, hit.dist_den as int, screen_height as int);
            &&& r.0 == (screen_height - h) / 2
            &&& r.1 == r.0 + h
            &&& r.1 <= screen_height
        }),
{
    let hs = screen_height as u128;
    let height: u32 = if hit.dist_num == 0 || hit.dist_den >= hit.dist_num {
        screen_height
    } else {
        assert(hs * hit.dist_den <= 0x1_0000_0000 * 0x4_0000_0000_0000_0000) by (nonlinear_arith)
            requires hs < 0x1_0000_0000, hit.dist_den < 0x4_0000_0000_0000_0000;
        let p = hs * hit.dist_den;
        let q = p / hit.dist_num;
        proof {
            let (pi, ni, qi, hi, di) = (p as int, hit.dist_num as int, q as int, hs as int, hit.dist_den as int);
            vstd::arithmetic::div_mod::lemma_fundamental_div_mod(pi, ni);
            vstd::arithmetic::div_mod::lemma_mod_pos_bound(pi, ni);
            assert(qi * ni <= pi) by (nonlinear_arith)
                requires pi == ni * (pi / ni) + pi % ni, pi % ni >= 0, qi == pi / ni;
            assert(pi <= hi * ni) by (nonlinear_arith)
                requires pi == hi * di, di < ni, hi >= 0;
            assert(qi <= hi) by (nonlinear_arith)
                requires qi * ni <= hi * ni, ni > 0;
        }
        q as u32
    };
    let top = (screen_height - height) / 2;
    (top, top + height)
}

/// The walk of the ray through `column` of a screen `width` columns wide.
pub open spec fn column_walk(cam: CameraState, column: u32, width: u32) -> Walk {
    walk_of(cam.pos, ray_of(cam, column as int, width as int))
}

/// `v` split into its cell and its offset inside the cell.
fn split_coord(v: i64) -> (r: (i64, i64))
    requires
        -POS_LIMIT <= v <= POS_LIMIT,
    ensures
        r.0 == v as int / UNIT as int,
        r.1 == v as int % UNIT as int,
        0 <= r.1 < UNIT,
{
    let u = UNIT as u64;
    if v >= 0 {
        let q = (v as u64) / u;
        let m = (v as u64) % u;
        (q as i64, m as i64)
    } else {
        let n = (-v) as u64;
        let q = n / u;
        let m = n % u;
        if m == 0 {
            proof {
                vstd::arithmetic::div_mod::lemma_fundamental_div_mod(n as int, UNIT as int);
                vstd::arithmetic::div_mod::lemma_fundamental_div_mod_converse(v as int, UNIT as int, -(q as int), 0);
            }
            (-(q as i64), 0)
        } else {
            proof {
                vstd::arithmetic::div_mod::lemma_fundamental_div_mod(n as int, UNIT as int);
                vstd::arithmetic::div_mod::lemma_fundamental_div_mod_converse(
                    v as int,
                    UNIT as int,
                    -(q as int) - 1,
                    UNIT - m,
                );
            }
            (-(q as i64) - 1, UNIT - (m as i64))
        }
    }
}

/// Casts the ray of `column` on a screen `width` columns wide and walks it
/// cell by cell, always across the nearer grid line, until it reaches a solid
/// tile (`Some`) or leaves the grid (`None`). A zero ray also gives `None`.
/// In a grid whose outer ring is solid, from a camera on an inner cell, a
/// ray always hits, within `width - 2` steps along x and `height - 2` along y.
pub fn cast_column(cam: &CameraState, grid: &OccupancyGrid, column: u32, width: u32) -> (r: Option<RayHit>)
    requires
        cam.wf(),
        grid.wf(),
        column < width,
    ensures
        r is None ==> column_walk(*cam, column, width).degenerate() || exists|n: nat|
            n >= 1 && column_walk(*cam, column, width).open_before(*grid, n) && !grid.inside(
                #[trigger] column_walk(*cam, column, width).cell(n).0,
                column_walk(*cam, column, width).cell(n).1,
            ),
        r matches Some(h) ==> column_walk(*cam, column, width).hit_matches(*grid, h, width as int),
        r matches Some(h) ==> h.dist_den < 0x4_0000_0000_0000_0000,
        grid.enclosed() && !column_walk(*cam, column, width).degenerate() && 1 <= column_walk(*cam, column, width).cell_x
            <= grid.width() - 2 && 1 <= column_walk(*cam, column, width).cell_y <= grid.height() - 2 ==> (r matches Some(
            h) && h.steps_x <= grid.width() - 2 && h.steps_y <= grid.height() - 2),
{
    let ghost w = column_walk(*cam, column, width);
    let ghost cols = grid.width();
    let ghost rows = grid.height();
    proof {
        lemma_coord_bound(cam.facing.x as int, cam.facing.y as int);
        lemma_coord_bound(cam.plane.x as int, cam.plane.y as int);
    }
    let wd = width as i128;
    let t = 2 * (column as i128) - wd;
    let fx = cam.facing.x as i128;
    let fy = cam.facing.y as i128;
    let px = cam.plane.x as i128;
    let py = cam.plane.y as i128;
    assert(-VEC_LIMIT * 0x1_0000_0000 <= fx * wd <= VEC_LIMIT * 0x1_0000_0000) by (nonlinear_arith)
        requires -VEC_LIMIT <= fx <= VEC_LIMIT, 0 <= wd < 0x1_0000_0000;
    assert(-VEC_LIMIT * 0x1_0000_0000 <= fy * wd <= VEC_LIMIT * 0x1_0000_0000) by (nonlinear_arith)
        requires -VEC_LIMIT <= fy <= VEC_LIMIT, 0 <= wd < 0x1_0000_0000;
    assert(-VEC_LIMIT * 0x1_0000_0000 <= px * t <= VEC_LIMIT * 0x1_0000_0000) by (nonlinear_arith)
        requires -VEC_LIMIT <= px <= VEC_LIMIT, -0x1_0000_0000 <= t <= 0x1_0000_0000;
    assert(-VEC_LIMIT * 0x1_0000_0000 <= py * t <= VEC_LIMIT * 0x1_0000_0000) by (nonlinear_arith)
        requires -VEC_LIMIT <= py <= VEC_LIMIT, -0x1_0000_0000 <= t <= 0x1_0000_0000;
    let rx = fx * wd + px * t;
    let ry = fy * wd + py * t;
    assert((rx as int, ry as int) == ray_of(*cam, column as int, width as int));
    if rx == 0 && ry == 0 {
        return None;
    }
    let (cx, ox) = split_coord(cam.pos.x);
    let (cy, oy) = split_coord(cam.pos.y);
    let u = UNIT as i128;
    let (sx, near_x, spx): (i64, i128, i128) = if rx < 0 {
        (-1, ox as i128, -rx)
    } else if rx > 0 {
        (1, u - ox as i128, rx)
    } else {
        (0, 0, 0)
    };
    let (sy, near_y, spy): (i64, i128, i128) = if ry < 0 {
        (-1, oy as i128, -ry)
    } else if ry > 0 {
        (1, u - oy as i128, ry)
    } else {
        (0, 0, 0)
    };
    assert(w.step_x == sx && w.near_x == near_x && w.span_x == spx);
    assert(w.step_y == sy && w.near_y == near_y && w.span_y == spy);
    assert(w.cell_x == cx && w.cell_y == cy);
    let ghost enclosed_start = grid.enclosed() && 1 <= cx <= cols - 2 && 1 <= cy <= rows - 2;
    let mut a: u64 = 0;
    let mut b: u64 = 0;
    let mut x: i64 = cx;
    let mut y: i64 = cy;
    let mut nx: i128 = near_x;
    let mut ny: i128 = near_y;
    loop
        invariant
            grid.wf(),
            w == column_walk(*cam, column, width),
            u == UNIT,
            column < width,
            cols == grid.width(),
            rows == grid.height(),
            !w.degenerate(),
            w.step_x == sx && w.near_x == near_x && w.span_x == spx,
            w.step_y == sy && w.near_y == near_y && w.span_y == spy,
            w.cell_x == cx && w.cell_y == cy,
            0 <= near_x <= UNIT,
            0 <= near_y <= UNIT,
            0 <= spx < 0x4_0000_0000_0000_0000,
            0 <= spy < 0x4_0000_0000_0000_0000,
            spx == 0 <==> sx == 0,
            spy == 0 <==> sy == 0,
            -1 <= sx <= 1,
            -1 <= sy <= 1,
            -POS_LIMIT <= cx <= POS_LIMIT,
            -POS_LIMIT <= cy <= POS_LIMIT,
            w.steps((a + b) as nat) == (a as int, b as int),
            x == advance(cx as int, a as int, sx as int),
            y == advance(cy as int, b as int, sy as int),
            nx == near_x + a * UNIT,
            ny == near_y + b * UNIT,
            sx == 0 ==> a == 0,
            sy == 0 ==> b == 0,
            w.open_before(*grid, (a + b + 1) as nat),
            a + b >= 1 ==> grid.inside(x as int, y as int),
            a + b >= 1 ==> -1 <= cx <= cols && -1 <= cy <= rows,
            a <= cols,
            b <= rows,
            enclosed_start <==> (grid.enclosed() && 1 <= cx <= cols - 2 && 1 <= cy <= rows - 2),
            enclosed_start ==> 1 <= x <= cols - 2 && 1 <= y <= rows - 2,
        decreases cols + rows - (a + b),
    {
        let ghost k = (a + b) as nat;
        assert(a * UNIT <= MAX_SIDE * UNIT && b * UNIT <= MAX_SIDE * UNIT) by (nonlinear_arith)
            requires a <= cols <= MAX_SIDE, b <= rows <= MAX_SIDE;
        assert(nx * spy <= 0x4_0000_0000 * 0x4_0000_0000_0000_0000) by (nonlinear_arith)
            requires 0 <= nx <= 0x4_0000_0000, 0 <= spy < 0x4_0000_0000_0000_0000;
        assert(ny * spx <= 0x4_0000_0000 * 0x4_0000_0000_0000_0000) by (nonlinear_arith)
            requires 0 <= ny <= 0x4_0000_0000, 0 <= spx < 0x4_0000_0000_0000_0000;
        assert(nx >= 0 && ny >= 0);
        let ghost x0 = x;
        let ghost y0 = y;
        let go_x = spx > 0 && (spy == 0 || nx * spy < ny * spx);
        assert(go_x == w.x_first(a as int, b as int));
        let side = if go_x {
            x = x + sx;
            nx = nx + u;
            a = a + 1;
            Side::X
        } else {
            y = y + sy;
            ny = ny + u;
            b = b + 1;
            Side::Y
        };
        assert(w.steps((k + 1) as nat) == (a as int, b as int));
        assert(w.cell((k + 1) as nat) == (x as int, y as int));
        assert(w.last_x((k + 1) as nat) == go_x);
        match grid.query(x, y) {
            None => {
                assert(w.open_before(*grid, (k + 1) as nat) && !grid.inside(
                    w.cell((k + 1) as nat).0,
                    w.cell((k + 1) as nat).1,
                ));
                proof {
                    if enclosed_start {
                        assert(1 <= x0 <= cols - 2 && 1 <= y0 <= rows - 2);
                        assert(0 <= x <= cols - 1 && 0 <= y <= rows - 1);
                        assert(grid.inside(x as int, y as int));
                    }
                }
                return None;
            },
            Some(tile) => {
                if tile > 0 {
                    assert(nx - u == near_x + (a - 1) * UNIT) by (nonlinear_arith)
                        requires nx == near_x + a * UNIT, u == UNIT;
                    assert(ny - u == near_y + (b - 1) * UNIT) by (nonlinear_arith)
                        requires ny == near_y + b * UNIT, u == UNIT;
                    proof {
                        if enclosed_start {
                            assert(a <= cols - 2);
                            assert(b <= rows - 2);
                        }
                    }
                    let (num, den) = if go_x {
                        assert((nx - u) * width <= 0x4_0000_0000 * 0x1_0000_0000) by (nonlinear_arith)
                            requires 0 <= nx - u <= 0x4_0000_0000, width < 0x1_0000_0000;
                        (((nx - u) as u128) * (width as u128), spx as u128)
                    } else {
                        assert((ny - u) * width <= 0x4_0000_0000 * 0x1_0000_0000) by (nonlinear_arith)
                            requires 0 <= ny - u <= 0x4_0000_0000, width < 0x1_0000_0000;
                        (((ny - u) as u128) * (width as u128), spy as u128)
                    };
                    return Some(
                        RayHit {
                            side,
                            cell_x: x,
                            cell_y: y,
                            steps_x: a,
                            steps_y: b,
                            dist_num: num,
                            dist_den: den,
                        },
                    );
                }
                assert(w.open_before(*grid, (k + 2) as nat));
            },
        }
    }
}

} // verus!
