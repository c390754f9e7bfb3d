use vstd::prelude::*;

verus! {

/// Width of the canvas in pixels.
pub const MAX_RESOLUTION_X: u16 = 1280;

/// Height of the canvas in pixels.
pub const MAX_RESOLUTION_Y: u16 = 720;

/// Size of a pixel grid. Pixel columns run over `0..width`, rows over
/// `0..height`, row 0 at the top.
#[derive(Clone, Copy, Debug, PartialEq, Eq, Structural)]
pub struct Resolution {
    pub width: u16,
    pub height: u16,
}

/// A point of the world frame with exact rational coordinates
/// `x_num / x_den` and `y_num / y_den`.
#[derive(Clone, Copy, Debug, PartialEq, Eq, Structural)]
pub struct WorldPoint {
    pub x_num: i64,
    pub x_den: i64,
    pub y_num: i64,
    pub y_den: i64,
}

impl WorldPoint {
    /// Both denominators are positive.
    pub open spec fn wf(self) -> bool {
        self.x_den > 0 && self.y_den > 0
    }

    /// Numerators and denominators small enough for exact 128-bit distance
    /// tests. Every pixel position of every resolution is.
    pub open spec fn bounded(self) -> bool {
        &&& -0x1_0000_0000 < self.x_num < 0x1_0000_0000
        &&& 0 < self.x_den < 0x1_0000_0000
        &&& -0x1_0000 < self.y_num < 0x1_0000
        &&& 0 < self.y_den < 0x1_0000
    }

    /// Both points denote the same position (equal rationals).
    pub open spec fn same_as(self, other: WorldPoint) -> bool {
        &&& self.x_num * other.x_den == other.x_num * self.x_den
        &&& self.y_num * other.y_den == other.y_num * self.y_den
    }
}

impl Resolution {
    /// The transform needs at least two pixels along each axis.
    pub open spec fn wf(self) -> bool {
        self.width >= 2 && self.height >= 2
    }

    pub open spec fn in_range(self, i: int, j: int) -> bool {
        0 <= i < self.width && 0 <= j < self.height
    }

    /// World x of column `i` is `x_num(i) / x_den()`: the column range
    /// `[0, width-1]` maps linearly onto `[-aspect, +aspect]`, where
    /// `aspect = width / height`.
    pub open spec fn x_num(self, i: int) -> int {
        self.width * (2 * i - (self.width - 1))
    }

    pub open spec fn x_den(self) -> int {
        self.height * (self.width - 1)
    }

    /// World y of row `j` is `y_num(j) / y_den()`: the row range
    /// `[0, height-1]` maps linearly onto `[+1, -1]` (screen-down is world-down).
    pub open spec fn y_num(self, j: int) -> int {
        (self.height - 1) - 2 * j
    }

    pub open spec fn y_den(self) -> int {
        self.height - 1
    }

    /// `p` is the world position of pixel `(i, j)`.
    pub open spec fn is_world_of(self, p: WorldPoint, i: int, j: int) -> bool {
        &&& p.x_num * self.x_den() == self.x_num(i) * p.x_den
        &&& p.y_num * self.y_den() == self.y_num(j) * p.y_den
    }

    /// The pixel whose world position is `p`, if there is one.
    pub open spec fn screen_of_world(self, p: WorldPoint) -> Option<(int, int)> {
        if exists|i: int, j: int| self.in_range(i, j) && #[trigger] self.is_world_of(p, i, j) {
            let (i, j) = choose|i: int, j: int|
                self.in_range(i, j) && #[trigger] self.is_world_of(p, i, j);
            Some((i, j))
        } else {
            None
        }
    }

    /// The canvas resolution the application draws at.
    pub fn canvas() -> (r: Resolution)
        ensures
            r.wf(),
            r.width == MAX_RESOLUTION_X,
            r.height == MAX_RESOLUTION_Y,
    {
        Resolution { width: MAX_RESOLUTION_X, height: MAX_RESOLUTION_Y }
    }

    /// Maps pixel `(i, j)` to its exact world position.
    pub fn transform_screen_to_world(&self, i: u16, j: u16) -> (p: WorldPoint)
        requires
            self.wf(),
            self.in_range(i as int, j as int),
        ensures
            p.wf(),
            p.bounded(),
            p.x_num == self.x_num(i as int),
            p.x_den == self.x_den(),
            p.y_num == self.y_num(j as int),
            p.y_den == self.y_den(),
    {
        let w = self.width as i64;
        let h = self.height as i64;
        let ii = i as i64;
        let jj = j as i64;
        assert(0 < w * (w - 1) < 0x1_0000_0000) by (nonlinear_arith)
            requires 2 <= w <= 0xffff;
        assert(0 < h * (w - 1) < 0x1_0000_0000) by (nonlinear_arith)
            requires 2 <= w <= 0xffff, 2 <= h <= 0xffff;
        let xs = 2 * ii - (w - 1);
        assert(-0x1_0000_0000 < w * xs < 0x1_0000_0000) by (nonlinear_arith)
            requires 2 <= w <= 0xffff, -(w - 1) <= xs <= w - 1, 0 < w * (w - 1) < 0x1_0000_0000;
        WorldPoint { x_num: w * xs, x_den: h * (w - 1), y_num: (h - 1) - 2 * jj, y_den: h - 1 }
    }

    /// Maps a world position back to the pixel that has it; `None` where no
    /// pixel of this resolution lies exactly there.
    pub fn transform_world_to_screen(&self, p: &WorldPoint) -> (r: Option<(u16, u16)>)
        requires
            self.wf(),
            p.wf(),
        ensures
            r matches Some((i, j)) ==> self.screen_of_world(*p) == Some((i as int, j as int)),
            r is None ==> self.screen_of_world(*p) is None,
    {
        let w = self.width as i128;
        let h = self.height as i128;
        let xn = p.x_num as i128;
        let xd = p.x_den as i128;
        let yn = p.y_num as i128;
        let yd = p.y_den as i128;
        assert(-0x1_0000_0000_0000_0000_0000 < xn * h < 0x1_0000_0000_0000_0000_0000) by (nonlinear_arith)
            requires -0x8000_0000_0000_0000 <= xn < 0x8000_0000_0000_0000, 0 < h <= 0xffff;
        assert(0 < w * xd < 0x1_0000_0000_0000_0000_0000) by (nonlinear_arith)
            requires 0 < xd < 0x8000_0000_0000_0000, 0 < w <= 0xffff;
        let sx = xn * h + w * xd;
        assert(-0x10_0000_0000_0000_0000_0000_0000 < sx * (w - 1) < 0x10_0000_0000_0000_0000_0000_0000) by (nonlinear_arith)
            requires -0x2_0000_0000_0000_0000_0000 < sx < 0x2_0000_0000_0000_0000_0000, 0 < w - 1 < 0xffff;
        let nx = sx * (w - 1);
        assert(0 < 2 * w * xd < 0x2_0000_0000_0000_0000_0000) by (nonlinear_arith)
            requires 0 < w * xd < 0x1_0000_0000_0000_0000_0000, 0 < w;
        let dx = 2 * w * xd;
        let sy = yd - yn;
        assert(-0x1_0000_0000_0000_0000_0000 < sy * (h - 1) < 0x1_0000_0000_0000_0000_0000) by (nonlinear_arith)
            requires -0x1_0000_0000_0000_0000 < sy < 0x1_0000_0000_0000_0000, 0 < h - 1 < 0xffff;
        let ny = sy * (h - 1);
        let dy = 2 * yd;
        proof {
            self.lemma_x_criterion(*p);
            self.lemma_y_criterion(*p);
        }
        if nx < 0 || ny < 0 {
            proof {
                assert forall|i: int, j: int| self.in_range(i, j) implies !#[trigger] self.is_world_of(*p, i, j) by {
                    assert(i * dx >= 0 && j * dy >= 0) by (nonlinear_arith)
                        requires i >= 0, j >= 0, dx > 0, dy > 0;
                }
            }
            return None;
        }
        let ux = nx as u128;
        let udx = dx as u128;
        let uy = ny as u128;
        let udy = dy as u128;
        let qi = ux / udx;
        let qj = uy / udy;
        if ux % udx != 0 || uy % udy != 0 || qi >= w as u128 || qj >= h as u128 {
            proof {
                assert forall|i: int, j: int| self.in_range(i, j) implies !#[trigger] self.is_world_of(*p, i, j) by {
                    if self.is_world_of(*p, i, j) {
                        lemma_exact_quotient(nx as int, dx as int, i);
                        lemma_exact_quotient(ny as int, dy as int, j);
                    }
                }
            }
            return None;
        }
        proof {
            vstd::arithmetic::div_mod::lemma_fundamental_div_mod(ux as int, udx as int);
            vstd::arithmetic::div_mod::lemma_fundamental_div_mod(uy as int, udy as int);
            assert(nx == dx * qi);
            assert(ny == dy * qj);
            assert(self.is_world_of(*p, qi as int, qj as int));
            self.lemma_unique_pixel(*p, qi as int, qj as int);
        }
        Some((qi as u16, qj as u16))
    }

    /// The x half of `is_world_of` as one linear equation in `i`.
    proof fn lemma_x_criterion(self, p: WorldPoint)
        requires
            self.wf(),
            p.wf(),
        ensures
            forall|i: int|
                #![trigger self.x_num(i)]
                (p.x_num * self.x_den() == self.x_num(i) * p.x_den) <==> ((p.x_num * self.height
                    + self.width * p.x_den) * (self.width - 1) == i * (2 * self.width * p.x_den)),
    {
        assert forall|i: int|
            #![trigger self.x_num(i)]
            (p.x_num * self.x_den() == self.x_num(i) * p.x_den) <==> ((p.x_num * self.height
                + self.width * p.x_den) * (self.width - 1) == i * (2 * self.width * p.x_den)) by {
            let w = self.width as int;
            let h = self.height as int;
            let a = p.x_num as int;
            let d = p.x_den as int;
            assert((a * h + w * d) * (w - 1) - i * (2 * w * d) == a * (h * (w - 1)) - (w * (2 * i
                - (w - 1))) * d) by (nonlinear_arith);
        }
    }

    /// The y half of `is_world_of` as one linear equation in `j`.
    proof fn lemma_y_criterion(self, p: WorldPoint)
        requires
            self.wf(),
            p.wf(),
        ensures
            forall|j: int|
                #![trigger self.y_num(j)]
                (p.y_num * self.y_den() == self.y_num(j) * p.y_den) <==> ((p.y_den - p.y_num) * (
                self.height - 1) == j * (2 * p.y_den)),
    {
        assert forall|j: int|
            #![trigger self.y_num(j)]
            (p.y_num * self.y_den() == self.y_num(j) * p.y_den) <==> ((p.y_den - p.y_num) * (
            self.height - 1) == j * (2 * p.y_den)) by {
            let h = self.height as int;
            let b = p.y_num as int;
            let e = p.y_den as int;
            assert((e - b) * (h - 1) - j * (2 * e) == ((h - 1) - 2 * j) * e - b * (h - 1))
                by (nonlinear_arith);
        }
    }

    /// At most one pixel has a given world position.
    proof fn lemma_unique_pixel(self, p: WorldPoint, i: int, j: int)
        requires
            self.wf(),
            p.wf(),
            self.in_range(i, j),
            self.is_world_of(p, i, j),
        ensures
            self.screen_of_world(p) == Some((i, j)),
    {
        self.lemma_x_criterion(p);
        self.lemma_y_criterion(p);
        assert(self.in_range(i, j) && self.is_world_of(p, i, j));
        let (a, b) = choose|a: int, b: int| self.in_range(a, b) && #[trigger] self.is_world_of(p, a, b);
        assert(self.is_world_of(p, a, b));
        assert(self.is_world_of(p, i, j));
        let dx = 2 * self.width * p.x_den;
        let dy = 2 * p.y_den;
        assert(dx > 0) by (nonlinear_arith)
            requires dx == 2 * self.width * p.x_den, self.width >= 2, p.x_den > 0;
        assert(a * dx == i * dx);
        assert(b * dy == j * dy);
        vstd::arithmetic::mul::lemma_mul_is_commutative(a, dx);
        vstd::arithmetic::mul::lemma_mul_is_commutative(i, dx);
        vstd::arithmetic::mul::lemma_mul_is_commutative(b, dy);
        vstd::arithmetic::mul::lemma_mul_is_commutative(j, dy);
        vstd::arithmetic::mul::lemma_mul_equality_converse(dx, a, i);
        vstd::arithmetic::mul::lemma_mul_equality_converse(dy, b, j);
    }

    /// Mapping a pixel to the world and back gives the same pixel; and a
    /// world position that maps back to a pixel is that pixel's position.
    pub proof fn lemma_round_trip(self, i: int, j: int, p: WorldPoint)
        requires
            self.wf(),
            p.wf(),
        ensures
            self.in_range(i, j) && p.x_num == self.x_num(i) && p.x_den == self.x_den() && p.y_num
                == self.y_num(j) && p.y_den == self.y_den() ==> self.screen_of_world(p) == Some(
                (i, j)),
            self.screen_of_world(p) == Some((i, j)) ==> self.in_range(i, j) && self.is_world_of(
                p,
                i,
                j,
            ),
    {
        if self.in_range(i, j) && p.x_num == self.x_num(i) && p.x_den == self.x_den() && p.y_num
            == self.y_num(j) && p.y_den == self.y_den() {
            self.lemma_unique_pixel(p, i, j);
        }
    }
}

/// `n` is an exact non-negative multiple `k * d` of `d > 0` only for
/// `k == n / d`, with no remainder.
proof fn lemma_exact_quotient(n: int, d: int, k: int)
    requires
        d > 0,
        n >= 0,
        n == k * d,
    ensures
        n % d == 0,
        n / d == k,
{
    vstd::arithmetic::div_mod::lemma_div_multiples_vanish(k, d);
    vstd::arithmetic::mul::lemma_mul_is_commutative(k, d);
    vstd::arithmetic::div_mod::lemma_mod_multiples_basic(k, d);
}

} // verus!
