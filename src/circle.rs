use vstd::prelude::*;
use crate::color::{default_color, Rgba};
use crate::geometry::{Resolution, WorldPoint};

verus! {

/// Fixed-point units per world unit for the circle's center and radius.
pub const UNITS_PER_WORLD: i64 = 10000;

/// Largest radius the controls offer, in fixed-point units (one world unit).
pub const MAX_RADIUS: u16 = 10000;

/// Initial center x, in fixed-point units.
pub const DEFAULT_CENTER_X: i16 = 0;

/// Initial center y, in fixed-point units.
pub const DEFAULT_CENTER_Y: i16 = 0;

/// Initial radius, in fixed-point units (0.3 world units).
pub const DEFAULT_RADIUS: u16 = 3000;

/// A circle in world coordinates. Center and radius are in units of
/// `1 / UNITS_PER_WORLD` world units.
#[derive(Clone, Copy, Debug, PartialEq, Eq, Structural)]
pub struct Circle {
    pub center_x: i16,
    pub center_y: i16,
    pub radius: u16,
    pub color: Rgba,
}

impl Circle {
    /// Squared distance from the world point `(xn / xd, yn / yd)` to the
    /// center, multiplied by `(UNITS_PER_WORLD * xd * yd)^2` so that it is an
    /// integer.
    pub open spec fn dist_sq_at(self, xn: int, xd: int, yn: int, yd: int) -> int {
        let dx = (xn * UNITS_PER_WORLD - self.center_x * xd) * yd;
        let dy = (yn * UNITS_PER_WORLD - self.center_y * yd) * xd;
        dx * dx + dy * dy
    }

    /// Squared radius, multiplied by the same factor as `dist_sq_at`.
    pub open spec fn radius_sq_at(self, xd: int, yd: int) -> int {
        let rr = self.radius * xd * yd;
        rr * rr
    }

    /// The world point `(xn / xd, yn / yd)`, for `xd, yd > 0`, lies within the
    /// circle: `(x - cx)^2 + (y - cy)^2 <= r^2`.
    pub open spec fn covers_at(self, xn: int, xd: int, yn: int, yd: int) -> bool {
        self.dist_sq_at(xn, xd, yn, yd) <= self.radius_sq_at(xd, yd)
    }

    pub open spec fn covers(self, p: WorldPoint) -> bool {
        self.covers_at(p.x_num as int, p.x_den as int, p.y_num as int, p.y_den as int)
    }

    /// The circle covers the world position of pixel `(i, j)` of `res`.
    pub open spec fn covers_pixel(self, res: Resolution, i: int, j: int) -> bool {
        self.covers_at(res.x_num(i), res.x_den(), res.y_num(j), res.y_den())
    }

    /// Scaled squared distance from the world position of pixel `(i, j)` to
    /// the center.
    pub open spec fn pixel_dist_sq(self, res: Resolution, i: int, j: int) -> int {
        self.dist_sq_at(res.x_num(i), res.x_den(), res.y_num(j), res.y_den())
    }

    /// Squared radius, on the same scale as `pixel_dist_sq` for `res`.
    pub open spec fn pixel_radius_sq(self, res: Resolution) -> int {
        self.radius_sq_at(res.x_den(), res.y_den())
    }

    /// The color of pixel `(i, j)` when the circle is drawn over `background`.
    pub open spec fn pixel_color(self, res: Resolution, background: Rgba, i: int, j: int) -> Rgba {
        if self.covers_pixel(res, i, j) {
            self.color
        } else {
            background
        }
    }

    /// The circle the application starts with.
    pub fn initial() -> (c: Circle)
        ensures
            c.center_x == DEFAULT_CENTER_X,
            c.center_y == DEFAULT_CENTER_Y,
            c.radius == DEFAULT_RADIUS,
            c.color == (Rgba { r: 255, g: 0, b: 0, a: 255 }),
    {
        Circle {
            center_x: DEFAULT_CENTER_X,
            center_y: DEFAULT_CENTER_Y,
            radius: DEFAULT_RADIUS,
            color: default_color(),
        }
    }

    /// Whether the world point `p` lies within the circle (boundary included).
    pub fn contains(&self, p: &WorldPoint) -> (r: bool)
        requires
            p.bounded(),
        ensures
            r == self.covers(*p),
    {
        let s = UNITS_PER_WORLD as i128;
        let xn = p.x_num as i128;
        let xd = p.x_den as i128;
        let yn = p.y_num as i128;
        let yd = p.y_den as i128;
        let cx = self.center_x as i128;
        let cy = self.center_y as i128;
        let rad = self.radius as i128;
        assert(-0x1_0000_0000 * 10000 < xn * s < 0x1_0000_0000 * 10000) by (nonlinear_arith)
            requires -0x1_0000_0000 < xn < 0x1_0000_0000, s == 10000;
        assert(-0x1_0000_0000 * 0x8000 <= cx * xd <= 0x1_0000_0000 * 0x8000) by (nonlinear_arith)
            requires 0 < xd < 0x1_0000_0000, -0x8000 <= cx < 0x8000;
        let ex = xn * s - cx * xd;
        assert(-0x1_0000_0000 * 0xa710 * 0x1_0000 < ex * yd < 0x1_0000_0000 * 0xa710 * 0x1_0000) by (nonlinear_arith)
            requires -0x1_0000_0000 * 0xa710 < ex < 0x1_0000_0000 * 0xa710, 0 < yd < 0x1_0000;
        let dx = ex * yd;
        assert(-0x1_0000 * 10000 < yn * s < 0x1_0000 * 10000) by (nonlinear_arith)
            requires -0x1_0000 < yn < 0x1_0000, s == 10000;
        assert(-0x1_0000 * 0x8000 <= cy * yd <= 0x1_0000 * 0x8000) by (nonlinear_arith)
            requires 0 < yd < 0x1_0000, -0x8000 <= cy < 0x8000;
        let ey = yn * s - cy * yd;
        assert(-0x1_0000 * 0xa710 * 0x1_0000_0000 < ey * xd < 0x1_0000 * 0xa710 * 0x1_0000_0000) by (nonlinear_arith)
            requires -0x1_0000 * 0xa710 < ey < 0x1_0000 * 0xa710, 0 < xd < 0x1_0000_0000;
        let dy = ey * xd;
        assert(0 <= rad * xd < 0x1_0000 * 0x1_0000_0000) by (nonlinear_arith)
            requires 0 <= rad < 0x1_0000, 0 < xd < 0x1_0000_0000;
        assert(0 <= (rad * xd) * yd < 0x1_0000 * 0x1_0000_0000 * 0x1_0000) by (nonlinear_arith)
            requires 0 <= rad * xd < 0x1_0000 * 0x1_0000_0000, 0 < yd < 0x1_0000;
        let rr = rad * xd * yd;
        let ax: u128 = if dx < 0 { (-dx) as u128 } else { dx as u128 };
        let ay: u128 = if dy < 0 { (-dy) as u128 } else { dy as u128 };
        let ar: u128 = rr as u128;
        assert(ax * ax < 0x1_0000_0000_0000_0000 * 0x1_0000_0000_0000_0000 && ax * ax == dx * dx) by (nonlinear_arith)
            requires ax < 0x1_0000_0000_0000_0000, ax == dx || ax == -dx;
        assert(ay * ay < 0x1_0000_0000_0000_0000 * 0x1_0000_0000_0000_0000 && ay * ay == dy * dy) by (nonlinear_arith)
            requires ay < 0x1_0000_0000_0000_0000, ay == dy || ay == -dy;
        assert(ar * ar < 0x1_0000_0000_0000_0000 * 0x1_0000_0000_0000_0000) by (nonlinear_arith)
            requires ar < 0x1_0000_0000_0000_0000;
        let ax2 = ax * ax;
        let ay2 = ay * ay;
        let ar2 = ar * ar;
        ax2 <= ar2 && ay2 <= ar2 - ax2
    }

    /// Whether the circle covers the world position of pixel `(i, j)`.
    pub fn contains_pixel(&self, res: &Resolution, i: u16, j: u16) -> (r: bool)
        requires
            res.wf(),
            res.in_range(i as int, j as int),
        ensures
            r == self.covers_pixel(*res, i as int, j as int),
    {
        let p = res.transform_screen_to_world(i, j);
        self.contains(&p)
    }

    /// Scaling a point's numerator and denominator by the same positive
    /// factor (per axis) does not change whether the circle covers it.
    pub proof fn lemma_covers_scaled(self, xn: int, xd: int, yn: int, yd: int, k: int, m: int)
        requires
            k > 0,
            m > 0,
        ensures
            self.covers_at(xn * k, xd * k, yn * m, yd * m) == self.covers_at(xn, xd, yn, yd),
    {
        let s = UNITS_PER_WORLD as int;
        let cx = self.center_x as int;
        let cy = self.center_y as int;
        let r = self.radius as int;
        let dx = (xn * s - cx * xd) * yd;
        let dy = (yn * s - cy * yd) * xd;
        let rr = r * xd * yd;
        let km = k * m;
        lemma_scaled_difference(xn, s, cx, xd, k);
        lemma_scaled_product(xn * s - cx * xd, yd, k, m);
        lemma_scaled_difference(yn, s, cy, yd, m);
        lemma_scaled_product(yn * s - cy * yd, xd, m, k);
        lemma_scaled_product(r * xd, yd, k, m);
        assert(r * (xd * k) == (r * xd) * k) by (nonlinear_arith);
        assert(m * k == km) by (nonlinear_arith)
            requires km == k * m;
        assert(km > 0) by (nonlinear_arith)
            requires k > 0, m > 0, km == k * m;
        let q = km * km;
        assert(q > 0) by (nonlinear_arith)
            requires km > 0, q == km * km;
        assert((km * dx) * (km * dx) + (km * dy) * (km * dy) == q * (dx * dx + dy * dy)) by (nonlinear_arith)
            requires q == km * km;
        assert((km * rr) * (km * rr) == q * (rr * rr)) by (nonlinear_arith)
            requires q == km * km;
        assert((q * (dx * dx + dy * dy) <= q * (rr * rr)) == (dx * dx + dy * dy <= rr * rr)) by (nonlinear_arith)
            requires q > 0;
    }

    /// Whether the circle covers a world point depends on the position alone,
    /// not on how its rational coordinates are written.
    pub proof fn lemma_covers_same_point(self, p: WorldPoint, q: WorldPoint)
        requires
            p.wf(),
            q.wf(),
            p.same_as(q),
        ensures
            self.covers(p) == self.covers(q),
    {
        self.lemma_covers_scaled(p.x_num as int, p.x_den as int, p.y_num as int, p.y_den as int, q.x_den as int, q.y_den as int);
        self.lemma_covers_scaled(q.x_num as int, q.x_den as int, q.y_num as int, q.y_den as int, p.x_den as int, p.y_den as int);
        assert(p.x_den * q.x_den == q.x_den * p.x_den) by (nonlinear_arith);
        assert(p.y_den * q.y_den == q.y_den * p.y_den) by (nonlinear_arith);
    }

    /// Drawing is resolution independent: two pixels of any two resolutions
    /// that sit at the same world position get the same color, so the circle
    /// keeps its world-space shape whatever the pixel grid.
    pub proof fn lemma_resolution_independent(
        self,
        background: Rgba,
        res1: Resolution,
        i1: int,
        j1: int,
        res2: Resolution,
        i2: int,
        j2: int,
    )
        requires
            res1.wf(),
            res2.wf(),
            res1.in_range(i1, j1),
            res2.in_range(i2, j2),
            res1.x_num(i1) * res2.x_den() == res2.x_num(i2) * res1.x_den(),
            res1.y_num(j1) * res2.y_den() == res2.y_num(j2) * res1.y_den(),
        ensures
            self.pixel_color(res1, background, i1, j1) == self.pixel_color(res2, background, i2, j2),
    {
        let (a, b, c, d) = (res1.x_num(i1), res1.x_den(), res1.y_num(j1), res1.y_den());
        let (e, f, g, h) = (res2.x_num(i2), res2.x_den(), res2.y_num(j2), res2.y_den());
        assert(b > 0 && f > 0) by (nonlinear_arith)
            requires res1.wf(), res2.wf(), b == res1.height * (res1.width - 1), f == res2.height * (res2.width - 1);
        self.lemma_covers_scaled(a, b, c, d, f, h);
        self.lemma_covers_scaled(e, f, g, h, b, d);
        assert(b * f == f * b) by (nonlinear_arith);
        assert(d * h == h * d) by (nonlinear_arith);
    }
}

/// `(a * k) * s - c * (b * k) == (a * s - c * b) * k`.
proof fn lemma_scaled_difference(a: int, s: int, c: int, b: int, k: int)
    ensures
        a * k * s - c * (b * k) == (a * s - c * b) * k,
{
    assert(a * k * s == (a * s) * k) by (nonlinear_arith);
    assert(c * (b * k) == (c * b) * k) by (nonlinear_arith);
    assert((a * s) * k - (c * b) * k == (a * s - c * b) * k) by (nonlinear_arith);
}

/// `(u * k) * (v * m) == (k * m) * (u * v)`.
proof fn lemma_scaled_product(u: int, v: int, k: int, m: int)
    ensures
        (u * k) * (v * m) == (k * m) * (u * v),
{
    assert((u * k) * (v * m) == (k * m) * (u * v)) by (nonlinear_arith);
}

} // verus!
