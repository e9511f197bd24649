//! Geometry primitives: points, vectors, axis-aligned rectangles, circles,
//! and the circle/rectangle collision classification together with the
//! collision-response vector algebra.
//!
//! Coordinates are exact fixed-point integers (thousandths of a world
//! unit).  Rectangles tolerate either corner ordering: the `left`, `right`,
//! `top` and `bottom` accessors always resolve via min/max.

use vstd::prelude::*;

verus! {

use crate::fixed::div_floor_i64;
use crate::fixed::div_floor_i128;
use crate::fixed::sin_fp;
use crate::fixed::cos_fp;
use crate::fixed::spec_sin_fp;
use crate::fixed::spec_cos_fp;
use crate::fixed::lemma_div_floor_bounds;

/// Largest coordinate magnitude the squared-distance tests accept:
/// squares of differences of such coordinates still fit in 64 bits.
pub const COORD_LIMIT: i64 = 1_000_000_000;

/// Largest vector component magnitude the dot-product and reflection
/// operations accept.
pub const VEC_LIMIT: i64 = 2_000_000_000;

/// Largest surface-normal component magnitude the reflection and
/// collision-response operations accept; wide enough for a rotated
/// contact normal.
pub const NORMAL_LIMIT: i64 = 20_000_000_000;

pub open spec fn spec_abs(a: int) -> int {
    if a >= 0 {
        a
    } else {
        -a
    }
}

/// Magnitude `|a| <= |b|` squares to `a * a <= b * b`.
pub proof fn lemma_sq_le(a: int, b: int)
    requires
        -b <= a <= b,
    ensures
        a * a <= b * b,
{
    assert(a * a <= b * b) by (nonlinear_arith)
        requires
            -b <= a <= b,
    {}
}

#[derive(Clone, Copy, Debug, PartialEq, Eq, Structural)]
pub struct Rectangle {
    pub x1: i64,
    pub y1: i64,
    pub x2: i64,
    pub y2: i64,
}

pub open spec fn spec_left(r: Rectangle) -> i64 {
    if r.x1 <= r.x2 {
        r.x1
    } else {
        r.x2
    }
}

pub open spec fn spec_right(r: Rectangle) -> i64 {
    if r.x1 >= r.x2 {
        r.x1
    } else {
        r.x2
    }
}

pub open spec fn spec_top(r: Rectangle) -> i64 {
    if r.y1 >= r.y2 {
        r.y1
    } else {
        r.y2
    }
}

pub open spec fn spec_bottom(r: Rectangle) -> i64 {
    if r.y1 <= r.y2 {
        r.y1
    } else {
        r.y2
    }
}

/// Whichever way the corners are stored, the accessors come back ordered:
/// the left side is never to the right of the right side, and the bottom
/// is never above the top.
pub proof fn lemma_rectangle_sides_ordered(r: Rectangle)
    ensures
        spec_left(r) <= spec_right(r),
        spec_bottom(r) <= spec_top(r),
{
}

impl Rectangle {
    pub fn make_by_coords(x1: i64, y1: i64, x2: i64, y2: i64) -> (r: Rectangle)
        ensures
            r == (Rectangle { x1, y1, x2, y2 }),
    {
        Rectangle { x1, y1, x2, y2 }
    }

    pub fn make_by_size(left: i64, bottom: i64, width: i64, height: i64) -> (r: Rectangle)
        requires
            i64::MIN <= left + width <= i64::MAX,
            i64::MIN <= bottom + height <= i64::MAX,
        ensures
            r.x1 == left,
            r.y1 == bottom,
            r.x2 == left + width,
            r.y2 == bottom + height,
    {
        Rectangle { x1: left, y1: bottom, x2: left + width, y2: bottom + height }
    }

    pub fn advance(&self, vector: &FVector2d) -> (r: Rectangle)
        requires
            i64::MIN <= self.x1 + vector.x <= i64::MAX,
            i64::MIN <= self.x2 + vector.x <= i64::MAX,
            i64::MIN <= self.y1 + vector.y <= i64::MAX,
            i64::MIN <= self.y2 + vector.y <= i64::MAX,
        ensures
            r.x1 == self.x1 + vector.x,
            r.y1 == self.y1 + vector.y,
            r.x2 == self.x2 + vector.x,
            r.y2 == self.y2 + vector.y,
    {
        Rectangle {
            x1: self.x1 + vector.x,
            y1: self.y1 + vector.y,
            x2: self.x2 + vector.x,
            y2: self.y2 + vector.y,
        }
    }

    pub fn with_left_at(&self, new_left: i64) -> (r: Rectangle)
        requires
            i64::MIN < self.x1 - self.x2 <= i64::MAX,
            i64::MIN <= new_left + spec_abs(self.x1 - self.x2) <= i64::MAX,
        ensures
            r.x1 == new_left,
            r.y1 == self.y1,
            r.x2 == new_left + spec_abs(self.x1 - self.x2),
            r.y2 == self.y2,
    {
        let width = if self.x1 >= self.x2 {
            self.x1 - self.x2
        } else {
            self.x2 - self.x1
        };
        Rectangle { x1: new_left, y1: self.y1, x2: new_left + width, y2: self.y2 }
    }

    pub fn with_right_at(&self, new_right: i64) -> (r: Rectangle)
        requires
            i64::MIN < self.x1 - self.x2 <= i64::MAX,
            i64::MIN <= new_right - spec_abs(self.x1 - self.x2) <= i64::MAX,
        ensures
            r.x1 == new_right - spec_abs(self.x1 - self.x2),
            r.y1 == self.y1,
            r.x2 == new_right,
            r.y2 == self.y2,
    {
        let width = if self.x1 >= self.x2 {
            self.x1 - self.x2
        } else {
            self.x2 - self.x1
        };
        Rectangle { x1: new_right - width, y1: self.y1, x2: new_right, y2: self.y2 }
    }

    /// Grows the horizontal extent by `delta` on each side.  The vertical
    /// corners deliberately come back swapped (`y1` holds the raised top,
    /// `y2` the lowered bottom), mirroring the world-to-render coordinate
    /// flip; the accessors tolerate the swap.
    pub fn grow(&self, delta: i64) -> (r: Rectangle)
        requires
            i64::MIN <= spec_left(*self) - delta <= i64::MAX,
            i64::MIN <= spec_right(*self) + delta <= i64::MAX,
            i64::MIN <= spec_top(*self) + delta <= i64::MAX,
            i64::MIN <= spec_bottom(*self) - delta <= i64::MAX,
        ensures
            r.x1 == spec_left(*self) - delta,
            r.y1 == spec_top(*self) + delta,
            r.x2 == spec_right(*self) + delta,
            r.y2 == spec_bottom(*self) - delta,
    {
        Rectangle {
            x1: self.left() - delta,
            y1: self.top() + delta,
            x2: self.right() + delta,
            y2: self.bottom() - delta,
        }
    }

    pub fn left(&self) -> (r: i64)
        ensures
            r == spec_left(*self),
    {
        if self.x1 <= self.x2 {
            self.x1
        } else {
            self.x2
        }
    }

    pub fn right(&self) -> (r: i64)
        ensures
            r == spec_right(*self),
    {
        if self.x1 >= self.x2 {
            self.x1
        } else {
            self.x2
        }
    }

    pub fn top(&self) -> (r: i64)
        ensures
            r == spec_top(*self),
    {
        if self.y1 >= self.y2 {
            self.y1
        } else {
            self.y2
        }
    }

    pub fn bottom(&self) -> (r: i64)
        ensures
            r == spec_bottom(*self),
    {
        if self.y1 <= self.y2 {
            self.y1
        } else {
            self.y2
        }
    }

    pub fn top_left(&self) -> (r: FPoint)
        ensures
            r == (FPoint { x: spec_left(*self), y: spec_top(*self) }),
    {
        FPoint::new(self.left(), self.top())
    }

    pub fn top_right(&self) -> (r: FPoint)
        ensures
            r == (FPoint { x: spec_right(*self), y: spec_top(*self) }),
    {
        FPoint::new(self.right(), self.top())
    }

    pub fn bottom_left(&self) -> (r: FPoint)
        ensures
            r == (FPoint { x: spec_left(*self), y: spec_bottom(*self) }),
    {
        FPoint::new(self.left(), self.bottom())
    }

    pub fn bottom_right(&self) -> (r: FPoint)
        ensures
            r == (FPoint { x: spec_right(*self), y: spec_bottom(*self) }),
    {
        FPoint::new(self.right(), self.bottom())
    }

    pub fn mutable_set(&mut self, rect: Rectangle)
        ensures
            *final(self) == rect,
    {
        self.x1 = rect.x1;
        self.y1 = rect.y1;
        self.x2 = rect.x2;
        self.y2 = rect.y2;
    }
}

/// A window size in whole pixels.
#[derive(Clone, Copy, Debug, PartialEq, Eq, Structural)]
pub struct ISize {
    pub h: i32,
    pub w: i32,
}

#[derive(Clone, Copy, Debug, PartialEq, Eq, Structural)]
pub struct FPoint {
    pub x: i64,
    pub y: i64,
}

pub open spec fn spec_within(x: int, y: int, rectangle: Rectangle) -> bool {
    x >= spec_left(rectangle) && x <= spec_right(rectangle) && y >= spec_bottom(rectangle)
        && y <= spec_top(rectangle)
}

pub open spec fn spec_sq_dist_coords(x1: int, y1: int, x2: int, y2: int) -> int {
    (x1 - x2) * (x1 - x2) + (y1 - y2) * (y1 - y2)
}

pub open spec fn spec_sq_dist(point1: FPoint, point2: FPoint) -> int {
    spec_sq_dist_coords(point1.x as int, point1.y as int, point2.x as int, point2.y as int)
}

impl FPoint {
    pub fn zero() -> (r: FPoint)
        ensures
            r == (FPoint { x: 0i64, y: 0i64 }),
    {
        FPoint { x: 0, y: 0 }
    }

    pub fn new(x: i64, y: i64) -> (r: FPoint)
        ensures
            r == (FPoint { x, y }),
    {
        FPoint { x, y }
    }

    pub fn add(&self, other: FVector2d) -> (r: FPoint)
        requires
            i64::MIN <= self.x + other.x <= i64::MAX,
            i64::MIN <= self.y + other.y <= i64::MAX,
        ensures
            r.x == self.x + other.x,
            r.y == self.y + other.y,
    {
        FPoint { x: self.x + other.x, y: self.y + other.y }
    }

    pub fn within_rectangle(&self, rectangle: &Rectangle) -> (r: bool)
        ensures
            r == spec_within(self.x as int, self.y as int, *rectangle),
    {
        self.x >= rectangle.left() && self.x <= rectangle.right() && self.y >= rectangle.bottom()
            && self.y <= rectangle.top()
    }

    pub fn sq_dist(point1: &FPoint, point2: &FPoint) -> (r: i64)
        requires
            -COORD_LIMIT <= point1.x <= COORD_LIMIT,
            -COORD_LIMIT <= point1.y <= COORD_LIMIT,
            -COORD_LIMIT <= point2.x <= COORD_LIMIT,
            -COORD_LIMIT <= point2.y <= COORD_LIMIT,
        ensures
            r == spec_sq_dist(*point1, *point2),
            r >= 0,
    {
        let dx = point1.x - point2.x;
        let dy = point1.y - point2.y;
        proof {
            assert(0 <= dx * dx <= 4_000_000_000_000_000_000) by (nonlinear_arith)
                requires
                    -2_000_000_000 <= dx <= 2_000_000_000,
            {}
            assert(0 <= dy * dy <= 4_000_000_000_000_000_000) by (nonlinear_arith)
                requires
                    -2_000_000_000 <= dy <= 2_000_000_000,
            {}
        }
        dx * dx + dy * dy
    }

    pub fn is_same(&self, point2: &FPoint, error_margin: i64) -> (r: bool)
        requires
            i64::MIN < self.x - point2.x <= i64::MAX,
            i64::MIN < self.y - point2.y <= i64::MAX,
        ensures
            r == (spec_abs(self.x - point2.x) < error_margin && spec_abs(self.y - point2.y)
                < error_margin),
    {
        let dx = self.x - point2.x;
        let dy = self.y - point2.y;
        let adx = if dx >= 0 {
            dx
        } else {
            -dx
        };
        let ady = if dy >= 0 {
            dy
        } else {
            -dy
        };
        adx < error_margin && ady < error_margin
    }
}

#[derive(Clone, Copy, Debug, PartialEq, Eq, Structural)]
pub struct FVector2d {
    pub x: i64,
    pub y: i64,
}

pub open spec fn spec_dot(a: FVector2d, b: FVector2d) -> int {
    a.x * b.x + a.y * b.y
}

pub open spec fn spec_length_square(v: FVector2d) -> int {
    v.x * v.x + v.y * v.y
}

/// Specular reflection of `v` off a surface with (un-normalized) normal
/// `n`: each component of `2 (v . n) n / (n . n)` is subtracted with its
/// own floor-rounded division.  A zero normal deflects nothing.
pub open spec fn spec_reflect(v: FVector2d, n: FVector2d) -> FVector2d {
    let nn = spec_length_square(n);
    if nn == 0 {
        v
    } else {
        let s = spec_dot(v, n);
        FVector2d {
            x: (v.x - (2 * s * n.x) / nn) as i64,
            y: (v.y - (2 * s * n.y) / nn) as i64,
        }
    }
}

/// Clockwise rotation in fixed point: the components are combined with
/// the scaled sine and cosine of the negated angle and divided back by
/// the trigonometric scale.
pub open spec fn spec_rotate_cw(v: FVector2d, clockwise_angle: int) -> FVector2d {
    let sn = spec_sin_fp(-clockwise_angle);
    let cs = spec_cos_fp(-clockwise_angle);
    FVector2d {
        x: ((v.x * cs - v.y * sn) / 1_000_000) as i64,
        y: ((v.x * sn + v.y * cs) / 1_000_000) as i64,
    }
}

impl FVector2d {
    pub fn new(x: i64, y: i64) -> (r: FVector2d)
        ensures
            r == (FVector2d { x, y }),
    {
        FVector2d { x, y }
    }

    pub fn zero() -> (r: FVector2d)
        ensures
            r == (FVector2d { x: 0i64, y: 0i64 }),
    {
        FVector2d::new(0, 0)
    }

    pub fn between(from: &FPoint, to: &FPoint) -> (r: FVector2d)
        requires
            i64::MIN <= to.x - from.x <= i64::MAX,
            i64::MIN <= to.y - from.y <= i64::MAX,
        ensures
            r.x == to.x - from.x,
            r.y == to.y - from.y,
    {
        FVector2d::new(to.x - from.x, to.y - from.y)
    }

    pub fn get_normal(&self) -> (r: FVector2d)
        requires
            i64::MIN < self.x <= i64::MAX,
        ensures
            r.x == self.y,
            r.y == -self.x,
    {
        FVector2d::new(self.y, -self.x)
    }

    pub fn length_square(&self) -> (r: i64)
        requires
            -VEC_LIMIT <= self.x <= VEC_LIMIT,
            -VEC_LIMIT <= self.y <= VEC_LIMIT,
        ensures
            r == spec_length_square(*self),
            0 <= r <= 8_000_000_000_000_000_000,
    {
        proof {
            assert(0 <= self.x * self.x <= 4_000_000_000_000_000_000) by (nonlinear_arith)
                requires
                    -2_000_000_000 <= self.x <= 2_000_000_000,
            {}
            assert(0 <= self.y * self.y <= 4_000_000_000_000_000_000) by (nonlinear_arith)
                requires
                    -2_000_000_000 <= self.y <= 2_000_000_000,
            {}
        }
        self.x * self.x + self.y * self.y
    }

    /// Floor of the Euclidean length: the unique `r >= 0` whose square is
    /// at most the squared length, while `(r + 1)^2` exceeds it.
    pub fn length(&self) -> (r: i64)
        requires
            -VEC_LIMIT <= self.x <= VEC_LIMIT,
            -VEC_LIMIT <= self.y <= VEC_LIMIT,
        ensures
            r >= 0,
            r * r <= spec_length_square(*self),
            spec_length_square(*self) < (r + 1) * (r + 1),
    {
        let ls = self.length_square();
        let root = isqrt(ls as u64);
        root as i64
    }

    pub fn invert(self) -> (r: FVector2d)
        requires
            i64::MIN < self.x <= i64::MAX,
            i64::MIN < self.y <= i64::MAX,
        ensures
            r.x == -self.x,
            r.y == -self.y,
    {
        FVector2d { x: -self.x, y: -self.y }
    }

    pub fn plus(self, other: &FVector2d) -> (r: FVector2d)
        requires
            i64::MIN <= self.x + other.x <= i64::MAX,
            i64::MIN <= self.y + other.y <= i64::MAX,
        ensures
            r.x == self.x + other.x,
            r.y == self.y + other.y,
    {
        FVector2d { x: self.x + other.x, y: self.y + other.y }
    }

    pub fn minus(self, other: &FVector2d) -> (r: FVector2d)
        requires
            i64::MIN <= self.x - other.x <= i64::MAX,
            i64::MIN <= self.y - other.y <= i64::MAX,
        ensures
            r.x == self.x - other.x,
            r.y == self.y - other.y,
    {
        FVector2d { x: self.x - other.x, y: self.y - other.y }
    }

    pub fn mul_scalar(self, scalar: i64) -> (r: FVector2d)
        requires
            i64::MIN <= self.x * scalar <= i64::MAX,
            i64::MIN <= self.y * scalar <= i64::MAX,
        ensures
            r.x == self.x * scalar,
            r.y == self.y * scalar,
    {
        FVector2d { x: self.x * scalar, y: self.y * scalar }
    }

    pub fn dot_product(&self, other: &FVector2d) -> (r: i64)
        requires
            -VEC_LIMIT <= self.x <= VEC_LIMIT,
            -VEC_LIMIT <= self.y <= VEC_LIMIT,
            -VEC_LIMIT <= other.x <= VEC_LIMIT,
            -VEC_LIMIT <= other.y <= VEC_LIMIT,
        ensures
            r == spec_dot(*self, *other),
    {
        proof {
            assert(-4_000_000_000_000_000_000 <= self.x * other.x <= 4_000_000_000_000_000_000)
                by (nonlinear_arith)
                requires
                    -2_000_000_000 <= self.x <= 2_000_000_000,
                    -2_000_000_000 <= other.x <= 2_000_000_000,
            {}
            assert(-4_000_000_000_000_000_000 <= self.y * other.y <= 4_000_000_000_000_000_000)
                by (nonlinear_arith)
                requires
                    -2_000_000_000 <= self.y <= 2_000_000_000,
                    -2_000_000_000 <= other.y <= 2_000_000_000,
            {}
        }
        self.x * other.x + self.y * other.y
    }

    /// Scales each component down by the floor of the Euclidean length
    /// (rounding toward negative infinity); the zero vector stays as it is.
    pub fn normalize(self) -> (r: FVector2d)
        requires
            -VEC_LIMIT <= self.x <= VEC_LIMIT,
            -VEC_LIMIT <= self.y <= VEC_LIMIT,
        ensures
            spec_length_square(self) == 0 ==> r == self,
            forall|len: int|
                0 < len && #[trigger] (len * len) <= spec_length_square(self)
                    && spec_length_square(self) < (len + 1) * (len + 1) ==> (r.x == self.x as int
                    / len && r.y == self.y as int / len),
    {
        let length = self.length();
        if length != 0 {
            proof {
                if spec_length_square(self) == 0 {
                    assert(length * length <= 0);
                    assert(length >= 1);
                    assert(length * length >= length) by (nonlinear_arith)
                        requires
                            length >= 1,
                    {}
                }
            }
            let r = FVector2d {
                x: div_floor_i64(self.x, length),
                y: div_floor_i64(self.y, length),
            };
            proof {
                assert forall|len: int|
                    0 < len && #[trigger] (len * len) <= spec_length_square(self)
                        && spec_length_square(self) < (len + 1) * (len + 1) implies (r.x
                    == self.x as int / len && r.y == self.y as int / len) by {
                    lemma_isqrt_unique(spec_length_square(self), len, length as int);
                }
            }
            r
        } else {
            proof {
                assert(spec_length_square(self) < (0int + 1) * (0int + 1));
                assert(spec_length_square(self) < 1);
                assert forall|len: int|
                    0 < len && #[trigger] (len * len) <= spec_length_square(self)
                        && spec_length_square(self) < (len + 1) * (len + 1) implies false by {
                    assert(len * len >= len) by (nonlinear_arith)
                        requires
                            len >= 1,
                    {}
                }
            }
            self
        }
    }

    /// Specular reflection off `surface_normal`; see `spec_reflect`.
    pub fn reflect(ray: &FVector2d, surface_normal: &FVector2d) -> (r: FVector2d)
        requires
            -VEC_LIMIT <= ray.x <= VEC_LIMIT,
            -VEC_LIMIT <= ray.y <= VEC_LIMIT,
            -NORMAL_LIMIT <= surface_normal.x <= NORMAL_LIMIT,
            -NORMAL_LIMIT <= surface_normal.y <= NORMAL_LIMIT,
        ensures
            r == spec_reflect(*ray, *surface_normal),
    {
        let nx = surface_normal.x as i128;
        let ny = surface_normal.y as i128;
        proof {
            lemma_mul_bounds(nx as int, nx as int, 20_000_000_000, 20_000_000_000);
            lemma_mul_bounds(ny as int, ny as int, 20_000_000_000, 20_000_000_000);
        }
        let nn = nx * nx + ny * ny;
        if nn == 0 {
            *ray
        } else {
            let vx = ray.x as i128;
            let vy = ray.y as i128;
            proof {
                lemma_mul_bounds(vx as int, nx as int, 2_000_000_000, 20_000_000_000);
                lemma_mul_bounds(vy as int, ny as int, 2_000_000_000, 20_000_000_000);
            }
            let s = vx * nx + vy * ny;
            proof {
                lemma_reflect_quotient_bounds(*ray, *surface_normal);
                lemma_mul_bounds(
                    2 * (s as int),
                    nx as int,
                    200_000_000_000_000_000_000,
                    20_000_000_000,
                );
                lemma_mul_bounds(
                    2 * (s as int),
                    ny as int,
                    200_000_000_000_000_000_000,
                    20_000_000_000,
                );
            }
            let tx = 2 * s * nx;
            let ty = 2 * s * ny;
            let qx = div_floor_i128(tx, nn);
            let qy = div_floor_i128(ty, nn);
            FVector2d { x: (vx - qx) as i64, y: (vy - qy) as i64 }
        }
    }

    /// Fixed-point rotation by a clockwise angle in microradians; see
    /// `spec_rotate_cw`.
    pub fn rotate_clockwise(self, clockwise_angle: i64) -> (r: FVector2d)
        requires
            -VEC_LIMIT <= self.x <= VEC_LIMIT,
            -VEC_LIMIT <= self.y <= VEC_LIMIT,
            -2_000_000 <= clockwise_angle <= 2_000_000,
        ensures
            r == spec_rotate_cw(self, clockwise_angle as int),
            -16_000_000_001 <= r.x <= 16_000_000_001,
            -16_000_000_001 <= r.y <= 16_000_000_001,
    {
        let sn = sin_fp(-clockwise_angle);
        let cs = cos_fp(-clockwise_angle);
        proof {
            assert(-8_000_000_000_000_000 <= self.x as int * cs as int <= 8_000_000_000_000_000)
                by (nonlinear_arith)
                requires
                    -2_000_000_000 <= self.x <= 2_000_000_000,
                    -4_000_000 <= cs <= 4_000_000,
            {}
            assert(-8_000_000_000_000_000 <= self.y as int * sn as int <= 8_000_000_000_000_000)
                by (nonlinear_arith)
                requires
                    -2_000_000_000 <= self.y <= 2_000_000_000,
                    -4_000_000 <= sn <= 4_000_000,
            {}
            assert(-8_000_000_000_000_000 <= self.x as int * sn as int <= 8_000_000_000_000_000)
                by (nonlinear_arith)
                requires
                    -2_000_000_000 <= self.x <= 2_000_000_000,
                    -4_000_000 <= sn <= 4_000_000,
            {}
            assert(-8_000_000_000_000_000 <= self.y as int * cs as int <= 8_000_000_000_000_000)
                by (nonlinear_arith)
                requires
                    -2_000_000_000 <= self.y <= 2_000_000_000,
                    -4_000_000 <= cs <= 4_000_000,
            {}
        }
        let numer_x = (self.x as i128) * (cs as i128) - (self.y as i128) * (sn as i128);
        let numer_y = (self.x as i128) * (sn as i128) + (self.y as i128) * (cs as i128);
        proof {
            lemma_div_floor_bounds(numer_x as int, 1_000_000, 16_000_000_001);
            lemma_div_floor_bounds(numer_y as int, 1_000_000, 16_000_000_001);
        }
        let rx = div_floor_i128(numer_x, 1_000_000);
        let ry = div_floor_i128(numer_y, 1_000_000);
        FVector2d { x: rx as i64, y: ry as i64 }
    }

    pub fn is_zero(&self) -> (r: bool)
        ensures
            r == (self.x == 0 && self.y == 0),
    {
        self.x == 0 && self.y == 0
    }
}

/// The quotients of the reflection formula are bounded by twice the sum
/// of the magnitudes of the reflected vector's components.
proof fn lemma_reflect_quotient_bounds(v: FVector2d, n: FVector2d)
    requires
        spec_length_square(n) != 0,
    ensures
        spec_length_square(n) > 0,
        -(2 * (spec_abs(v.x as int) + spec_abs(v.y as int))) <= (2 * spec_dot(v, n) * n.x)
            / spec_length_square(n) <= 2 * (spec_abs(v.x as int) + spec_abs(v.y as int)),
        -(2 * (spec_abs(v.x as int) + spec_abs(v.y as int))) <= (2 * spec_dot(v, n) * n.y)
            / spec_length_square(n) <= 2 * (spec_abs(v.x as int) + spec_abs(v.y as int)),
{
    let nn = spec_length_square(n);
    let s = spec_dot(v, n);
    let ax = spec_abs(v.x as int);
    let ay = spec_abs(v.y as int);
    let anx = spec_abs(n.x as int);
    let any = spec_abs(n.y as int);
    let b = 2 * (ax + ay);
    let big = ax * anx + ay * any;
    assert(nn > 0) by (nonlinear_arith)
        requires
            nn == n.x * n.x + n.y * n.y,
            nn != 0,
    {}
    lemma_mul_bounds(v.x as int, n.x as int, ax, anx);
    lemma_mul_bounds(v.y as int, n.y as int, ay, any);
    assert(-big <= s <= big);
    lemma_mul_bounds(s, n.x as int, big, anx);
    lemma_mul_bounds(s, n.y as int, big, any);
    assert(anx * anx <= nn && any * any <= nn && anx * any <= nn && any * anx <= nn)
        by (nonlinear_arith)
        requires
            nn == n.x * n.x + n.y * n.y,
            anx == spec_abs(n.x as int),
            any == spec_abs(n.y as int),
            spec_abs(n.x as int) == if n.x >= 0 { n.x as int } else { -(n.x as int) },
            spec_abs(n.y as int) == if n.y >= 0 { n.y as int } else { -(n.y as int) },
    {}
    assert(big * anx <= (ax + ay) * nn && big * any <= (ax + ay) * nn) by (nonlinear_arith)
        requires
            big == ax * anx + ay * any,
            anx * anx <= nn,
            any * any <= nn,
            anx * any <= nn,
            any * anx <= nn,
            ax >= 0,
            ay >= 0,
            anx >= 0,
            any >= 0,
            nn > 0,
    {}
    assert(-(b * nn) <= 2 * s * n.x <= b * nn) by (nonlinear_arith)
        requires
            -(big * anx) <= s * n.x <= big * anx,
            big * anx <= (ax + ay) * nn,
            b == 2 * (ax + ay),
            nn > 0,
    {}
    assert(-(b * nn) <= 2 * s * n.y <= b * nn) by (nonlinear_arith)
        requires
            -(big * any) <= s * n.y <= big * any,
            big * any <= (ax + ay) * nn,
            b == 2 * (ax + ay),
            nn > 0,
    {}
    lemma_div_floor_bounds(2 * s * n.x, nn, b);
    lemma_div_floor_bounds(2 * s * n.y, nn, b);
}

/// Products of bounded factors are bounded by the product of the bounds.
pub proof fn lemma_mul_bounds(x: int, y: int, bx: int, by2: int)
    requires
        -bx <= x <= bx,
        -by2 <= y <= by2,
    ensures
        -(bx * by2) <= x * y <= bx * by2,
{
    assert(-(bx * by2) <= x * y <= bx * by2) by (nonlinear_arith)
        requires
            -bx <= x <= bx,
            -by2 <= y <= by2,
    {}
}

/// Two nonnegative integers bracketing the same value by consecutive
/// squares are equal.
proof fn lemma_isqrt_unique(n: int, a: int, b: int)
    requires
        a >= 0,
        b >= 0,
        a * a <= n < (a + 1) * (a + 1),
        b * b <= n < (b + 1) * (b + 1),
    ensures
        a == b,
{
    assert(a == b) by (nonlinear_arith)
        requires
            a >= 0,
            b >= 0,
            a * a <= n < (a + 1) * (a + 1),
            b * b <= n < (b + 1) * (b + 1),
    {}
}

/// Floor of the square root, by bisection.
fn isqrt(n: u64) -> (r: u64)
    requires
        n <= 8_000_000_000_000_000_000,
    ensures
        r * r <= n < (r + 1) * (r + 1),
        r <= 3_000_000_000,
{
    if n == 0 {
        return 0;
    }
    let mut lo: u64 = 0;
    let mut hi: u64 = 3_000_000_000;
    proof {
        assert(n < hi * hi) by (nonlinear_arith)
            requires
                n <= 8_000_000_000_000_000_000int,
                hi == 3_000_000_000int,
        {}
    }
    while lo + 1 < hi
        invariant
            lo < hi,
            hi <= 3_000_000_000,
            lo * lo <= n,
            n < hi * hi,
        decreases hi - lo,
    {
        let mid = lo + (hi - lo) / 2;
        proof {
            assert(mid * mid <= 9_000_000_000_000_000_000) by (nonlinear_arith)
                requires
                    0 <= mid <= 3_000_000_000int,
            {}
        }
        if mid * mid <= n {
            lo = mid;
        } else {
            hi = mid;
        }
    }
    lo
}

#[derive(Clone, Copy, Debug, PartialEq, Eq, Structural)]
pub struct Circle {
    pub center: FPoint,
    pub radius: i64,
}

impl Circle {
    pub fn new(center: FPoint, radius: i64) -> (r: Circle)
        requires
            radius > 0,
        ensures
            r == (Circle { center, radius }),
    {
        Circle { center, radius }
    }
}

/// A contact: the point touched and an outward normal pointing from the
/// contact point toward the circle's center (possibly of zero length when
/// the center lies exactly on the boundary).
#[derive(Clone, Copy, Debug, PartialEq, Eq, Structural)]
pub struct Collision {
    pub point: FPoint,
    pub normal: FVector2d,
}

pub open spec fn spec_collision_at(px: i64, py: i64, circle: Circle) -> Collision {
    Collision {
        point: FPoint { x: px, y: py },
        normal: FVector2d {
            x: (circle.center.x - px) as i64,
            y: (circle.center.y - py) as i64,
        },
    }
}

/// Classification of a circle against an axis-aligned rectangle, in
/// priority order: the four axis extensions of the circle are tested for
/// membership (right, left, up, down), each hit yielding a flat-edge
/// contact on the rectangle boundary; after that the four corners are
/// tested against the squared radius, each hit yielding a corner contact.
/// The first test that succeeds decides.
pub open spec fn spec_circle_rectangle_collision(circle: Circle, rectangle: Rectangle) -> Option<
    Collision,
> {
    let cx = circle.center.x as int;
    let cy = circle.center.y as int;
    let rad = circle.radius as int;
    if spec_within(cx + rad, cy, rectangle) {
        Some(spec_collision_at(spec_left(rectangle), circle.center.y, circle))
    } else if spec_within(cx - rad, cy, rectangle) {
        Some(spec_collision_at(spec_right(rectangle), circle.center.y, circle))
    } else if spec_within(cx, cy + rad, rectangle) {
        Some(spec_collision_at(circle.center.x, spec_bottom(rectangle), circle))
    } else if spec_within(cx, cy - rad, rectangle) {
        Some(spec_collision_at(circle.center.x, spec_top(rectangle), circle))
    } else if spec_sq_dist_coords(cx, cy, spec_left(rectangle) as int, spec_bottom(rectangle) as int)
        < rad * rad {
        Some(spec_collision_at(spec_left(rectangle), spec_bottom(rectangle), circle))
    } else if spec_sq_dist_coords(
        cx,
        cy,
        spec_right(rectangle) as int,
        spec_bottom(rectangle) as int,
    ) < rad * rad {
        Some(spec_collision_at(spec_right(rectangle), spec_bottom(rectangle), circle))
    } else if spec_sq_dist_coords(cx, cy, spec_left(rectangle) as int, spec_top(rectangle) as int)
        < rad * rad {
        Some(spec_collision_at(spec_left(rectangle), spec_top(rectangle), circle))
    } else if spec_sq_dist_coords(cx, cy, spec_right(rectangle) as int, spec_top(rectangle) as int)
        < rad * rad {
        Some(spec_collision_at(spec_right(rectangle), spec_top(rectangle), circle))
    } else {
        None
    }
}

/// Circle-versus-rectangle contact test; see
/// `spec_circle_rectangle_collision`.
pub fn circle_rectangle_collision(circle: &Circle, rectangle: &Rectangle) -> (r: Option<Collision>)
    requires
        -COORD_LIMIT <= circle.center.x <= COORD_LIMIT,
        -COORD_LIMIT <= circle.center.y <= COORD_LIMIT,
        0 <= circle.radius <= COORD_LIMIT,
        -COORD_LIMIT <= rectangle.x1 <= COORD_LIMIT,
        -COORD_LIMIT <= rectangle.y1 <= COORD_LIMIT,
        -COORD_LIMIT <= rectangle.x2 <= COORD_LIMIT,
        -COORD_LIMIT <= rectangle.y2 <= COORD_LIMIT,
    ensures
        r == spec_circle_rectangle_collision(*circle, *rectangle),
{
    let radius_sq = {
        proof {
            assert(0 <= circle.radius * circle.radius <= 1_000_000_000_000_000_000)
                by (nonlinear_arith)
                requires
                    0 <= circle.radius <= 1_000_000_000,
            {}
        }
        circle.radius * circle.radius
    };
    let collision_point_opt: Option<FPoint> = if FPoint::new(
        circle.center.x + circle.radius,
        circle.center.y,
    ).within_rectangle(rectangle) {
        Some(FPoint::new(rectangle.left(), circle.center.y))
    } else if FPoint::new(circle.center.x - circle.radius, circle.center.y).within_rectangle(
        rectangle,
    ) {
        Some(FPoint::new(rectangle.right(), circle.center.y))
    } else if FPoint::new(circle.center.x, circle.center.y + circle.radius).within_rectangle(
        rectangle,
    ) {
        Some(FPoint::new(circle.center.x, rectangle.bottom()))
    } else if FPoint::new(circle.center.x, circle.center.y - circle.radius).within_rectangle(
        rectangle,
    ) {
        Some(FPoint::new(circle.center.x, rectangle.top()))
    } else if FPoint::sq_dist(&circle.center, &rectangle.bottom_left()) < radius_sq {
        Some(rectangle.bottom_left())
    } else if FPoint::sq_dist(&circle.center, &rectangle.bottom_right()) < radius_sq {
        Some(rectangle.bottom_right())
    } else if FPoint::sq_dist(&circle.center, &rectangle.top_left()) < radius_sq {
        Some(rectangle.top_left())
    } else if FPoint::sq_dist(&circle.center, &rectangle.top_right()) < radius_sq {
        Some(rectangle.top_right())
    } else {
        None
    };

    match collision_point_opt {
        Some(point) => {
            let normal = FVector2d::between(&point, &circle.center);
            Some(Collision { point, normal })
        },
        None => None,
    }
}

/// Every contact the classification reports lies on the rectangle's own
/// boundary box, and its normal is the exact vector from the contact
/// point to the circle's center.
pub proof fn lemma_collision_point_in_rect(circle: Circle, rectangle: Rectangle)
    requires
        -COORD_LIMIT <= circle.center.x <= COORD_LIMIT,
        -COORD_LIMIT <= circle.center.y <= COORD_LIMIT,
        0 <= circle.radius <= COORD_LIMIT,
        -COORD_LIMIT <= rectangle.x1 <= COORD_LIMIT,
        -COORD_LIMIT <= rectangle.y1 <= COORD_LIMIT,
        -COORD_LIMIT <= rectangle.x2 <= COORD_LIMIT,
        -COORD_LIMIT <= rectangle.y2 <= COORD_LIMIT,
        spec_circle_rectangle_collision(circle, rectangle) is Some,
    ensures
        ({
            let col = spec_circle_rectangle_collision(circle, rectangle)->Some_0;
            &&& spec_left(rectangle) <= col.point.x <= spec_right(rectangle)
            &&& spec_bottom(rectangle) <= col.point.y <= spec_top(rectangle)
            &&& col.normal.x == circle.center.x - col.point.x
            &&& col.normal.y == circle.center.y - col.point.y
        }),
{
    lemma_rectangle_sides_ordered(rectangle);
}

/// Velocity of a circle after a contact.  When the circle is already
/// moving away from (or along) the surface, the other body's velocity is
/// simply absorbed; otherwise the incident vector is reflected off the
/// contact normal.
pub open spec fn spec_new_vector_after_circle_collision(
    circle_movement_vector: FVector2d,
    collision: Collision,
    other_movement_vector: FVector2d,
) -> FVector2d {
    let nn = spec_length_square(collision.normal);
    let s = spec_dot(circle_movement_vector, collision.normal);
    if nn == 0 || s >= 0 {
        FVector2d {
            x: (circle_movement_vector.x + other_movement_vector.x) as i64,
            y: (circle_movement_vector.y + other_movement_vector.y) as i64,
        }
    } else {
        spec_reflect(circle_movement_vector, collision.normal)
    }
}

/// Collision response; see `spec_new_vector_after_circle_collision`.
pub fn new_vector_after_circle_collision(
    circle_movement_vector: &FVector2d,
    collision: &Collision,
    other_movement_vector: &FVector2d,
) -> (r: FVector2d)
    requires
        -VEC_LIMIT <= circle_movement_vector.x <= VEC_LIMIT,
        -VEC_LIMIT <= circle_movement_vector.y <= VEC_LIMIT,
        -NORMAL_LIMIT <= collision.normal.x <= NORMAL_LIMIT,
        -NORMAL_LIMIT <= collision.normal.y <= NORMAL_LIMIT,
        -VEC_LIMIT <= other_movement_vector.x <= VEC_LIMIT,
        -VEC_LIMIT <= other_movement_vector.y <= VEC_LIMIT,
    ensures
        r == spec_new_vector_after_circle_collision(
            *circle_movement_vector,
            *collision,
            *other_movement_vector,
        ),
{
    let nx = collision.normal.x as i128;
    let ny = collision.normal.y as i128;
    let vx = circle_movement_vector.x as i128;
    let vy = circle_movement_vector.y as i128;
    proof {
        lemma_mul_bounds(nx as int, nx as int, 20_000_000_000, 20_000_000_000);
        lemma_mul_bounds(ny as int, ny as int, 20_000_000_000, 20_000_000_000);
        lemma_mul_bounds(vx as int, nx as int, 2_000_000_000, 20_000_000_000);
        lemma_mul_bounds(vy as int, ny as int, 2_000_000_000, 20_000_000_000);
    }
    let nn = nx * nx + ny * ny;
    let s = vx * nx + vy * ny;
    if nn == 0 || s >= 0 {
        (*circle_movement_vector).plus(other_movement_vector)
    } else {
        FVector2d::reflect(circle_movement_vector, &collision.normal)
    }
}

pub open spec fn spec_clamp(x: int, lo: int, hi: int) -> int {
    if x < lo {
        lo
    } else if x > hi {
        hi
    } else {
        x
    }
}

proof fn lemma_abs_sq(z: int)
    ensures
        spec_abs(z) * spec_abs(z) == z * z,
{
    assert(spec_abs(z) * spec_abs(z) == z * z) by (nonlinear_arith)
        requires
            spec_abs(z) == if z >= 0 { z } else { -z },
    {}
}

/// Along one axis, clamping into an interval gets at least as close to
/// the reference coordinate as any point of the interval.
proof fn lemma_clamp_axis(c: int, lo: int, hi: int, k: int)
    requires
        lo <= hi,
        lo <= k <= hi,
    ensures
        (c - spec_clamp(c, lo, hi)) * (c - spec_clamp(c, lo, hi)) <= (c - k) * (c - k),
{
    let p = spec_clamp(c, lo, hi);
    let e = spec_abs(c - k);
    lemma_abs_sq(c - k);
    if c < lo {
        lemma_sq_le(c - p, e);
    } else if c > hi {
        lemma_sq_le(c - p, e);
    } else {
        lemma_sq_le(0, e);
    }
}

/// A circle whose center lies farther from the rectangle than its radius
/// touches nothing: when the squared distance from the center to the
/// nearest point of the rectangle (the center clamped into the rectangle)
/// exceeds the squared radius, the classification reports no contact.
pub proof fn lemma_separated_circle_misses(circle: Circle, rectangle: Rectangle)
    requires
        circle.radius >= 0,
        spec_sq_dist_coords(
            circle.center.x as int,
            circle.center.y as int,
            spec_clamp(circle.center.x as int, spec_left(rectangle) as int, spec_right(rectangle) as int),
            spec_clamp(circle.center.y as int, spec_bottom(rectangle) as int, spec_top(rectangle) as int),
        ) > circle.radius * circle.radius,
    ensures
        spec_circle_rectangle_collision(circle, rectangle) is None,
{
    let cx = circle.center.x as int;
    let cy = circle.center.y as int;
    let rad = circle.radius as int;
    let l = spec_left(rectangle) as int;
    let r = spec_right(rectangle) as int;
    let bo = spec_bottom(rectangle) as int;
    let t = spec_top(rectangle) as int;
    let px = spec_clamp(cx, l, r);
    let py = spec_clamp(cy, bo, t);
    let d = spec_sq_dist_coords(cx, cy, px, py);
    lemma_sq_le(0, rad);
    assert(!spec_within(cx + rad, cy, rectangle)) by {
        if spec_within(cx + rad, cy, rectangle) {
            assert(py == cy);
            if cx < l {
                lemma_sq_le(cx - px, rad);
            } else {
                assert(px == cx);
            }
            assert(d <= rad * rad);
        }
    }
    assert(!spec_within(cx - rad, cy, rectangle)) by {
        if spec_within(cx - rad, cy, rectangle) {
            assert(py == cy);
            if cx > r {
                lemma_sq_le(cx - px, rad);
            } else {
                assert(px == cx);
            }
            assert(d <= rad * rad);
        }
    }
    assert(!spec_within(cx, cy + rad, rectangle)) by {
        if spec_within(cx, cy + rad, rectangle) {
            assert(px == cx);
            if cy < bo {
                lemma_sq_le(cy - py, rad);
            } else {
                assert(py == cy);
            }
            assert(d <= rad * rad);
        }
    }
    assert(!spec_within(cx, cy - rad, rectangle)) by {
        if spec_within(cx, cy - rad, rectangle) {
            assert(px == cx);
            if cy > t {
                lemma_sq_le(cy - py, rad);
            } else {
                assert(py == cy);
            }
            assert(d <= rad * rad);
        }
    }
    assert(spec_sq_dist_coords(cx, cy, l, bo) >= rad * rad) by {
        lemma_clamp_axis(cx, l, r, l);
        lemma_clamp_axis(cy, bo, t, bo);
    }
    assert(spec_sq_dist_coords(cx, cy, r, bo) >= rad * rad) by {
        lemma_clamp_axis(cx, l, r, r);
        lemma_clamp_axis(cy, bo, t, bo);
    }
    assert(spec_sq_dist_coords(cx, cy, l, t) >= rad * rad) by {
        lemma_clamp_axis(cx, l, r, l);
        lemma_clamp_axis(cy, bo, t, t);
    }
    assert(spec_sq_dist_coords(cx, cy, r, t) >= rad * rad) by {
        lemma_clamp_axis(cx, l, r, r);
        lemma_clamp_axis(cy, bo, t, t);
    }
}

/// When the divisor is nonzero and divides exactly, multiplying the
/// quotient back recovers the dividend.
proof fn lemma_div_exact(a: int, d: int)
    requires
        d != 0,
        a % d == 0,
    ensures
        d * (a / d) == a,
{
    vstd::arithmetic::div_mod::lemma_fundamental_div_mod(a, d);
}

/// Reflecting reverses the component of the motion along the normal:
/// whenever the two floor divisions of the reflection formula are exact,
/// the reflected vector's dot product with the normal is the exact
/// negation of the incident one.
pub proof fn lemma_reflect_reverses_normal_dot(v: FVector2d, n: FVector2d)
    requires
        -100_000_000 <= v.x <= 100_000_000,
        -100_000_000 <= v.y <= 100_000_000,
        -100_000_000 <= n.x <= 100_000_000,
        -100_000_000 <= n.y <= 100_000_000,
        spec_length_square(n) != 0,
        (2 * spec_dot(v, n) * n.x) % spec_length_square(n) == 0,
        (2 * spec_dot(v, n) * n.y) % spec_length_square(n) == 0,
    ensures
        spec_reflect(v, n).x == v.x - (2 * spec_dot(v, n) * n.x) / spec_length_square(n),
        spec_reflect(v, n).y == v.y - (2 * spec_dot(v, n) * n.y) / spec_length_square(n),
        spec_dot(spec_reflect(v, n), n) == -spec_dot(v, n),
{
    let nn = spec_length_square(n);
    let s = spec_dot(v, n);
    let qx = (2 * s * n.x) / nn;
    let qy = (2 * s * n.y) / nn;
    lemma_reflect_quotient_bounds(v, n);
    lemma_div_exact(2 * s * n.x, nn);
    lemma_div_exact(2 * s * n.y, nn);
    assert(qx * n.x + qy * n.y == 2 * s) by (nonlinear_arith)
        requires
            nn * qx == 2 * s * n.x,
            nn * qy == 2 * s * n.y,
            nn == n.x * n.x + n.y * n.y,
            s == v.x * n.x + v.y * n.y,
            nn != 0,
    {}
    let rfl = spec_reflect(v, n);
    assert(rfl.x == v.x - qx && rfl.y == v.y - qy);
    assert((v.x - qx) * n.x + (v.y - qy) * n.y == s - (qx * n.x + qy * n.y))
        by (nonlinear_arith)
        requires
            s == v.x * n.x + v.y * n.y,
    {}
}

/// Reflecting twice off the same normal gives back the original vector,
/// whenever the two floor divisions of the reflection formula are exact
/// (they always are for an axis-aligned normal).
pub proof fn lemma_reflect_involution(v: FVector2d, n: FVector2d)
    requires
        -100_000_000 <= v.x <= 100_000_000,
        -100_000_000 <= v.y <= 100_000_000,
        -100_000_000 <= n.x <= 100_000_000,
        -100_000_000 <= n.y <= 100_000_000,
        spec_length_square(n) != 0,
        (2 * spec_dot(v, n) * n.x) % spec_length_square(n) == 0,
        (2 * spec_dot(v, n) * n.y) % spec_length_square(n) == 0,
    ensures
        spec_reflect(spec_reflect(v, n), n) == v,
{
    let nn = spec_length_square(n);
    let s = spec_dot(v, n);
    let qx = (2 * s * n.x) / nn;
    let qy = (2 * s * n.y) / nn;
    lemma_reflect_reverses_normal_dot(v, n);
    lemma_reflect_quotient_bounds(v, n);
    lemma_div_exact(2 * s * n.x, nn);
    lemma_div_exact(2 * s * n.y, nn);
    let rfl = spec_reflect(v, n);
    assert(spec_dot(rfl, n) == -s);
    assert(nn > 0);
    assert(2 * -s * n.x == nn * -qx) by (nonlinear_arith)
        requires
            nn * qx == 2 * s * n.x,
    {}
    assert(2 * -s * n.y == nn * -qy) by (nonlinear_arith)
        requires
            nn * qy == 2 * s * n.y,
    {}
    vstd::arithmetic::div_mod::lemma_div_multiples_vanish(-qx, nn);
    vstd::arithmetic::div_mod::lemma_div_multiples_vanish(-qy, nn);
    assert((2 * spec_dot(rfl, n) * n.x) / nn == -qx);
    assert((2 * spec_dot(rfl, n) * n.y) / nn == -qy);
    assert(spec_reflect(rfl, n).x == v.x);
    assert(spec_reflect(rfl, n).y == v.y);
}

/// When the circle is moving away from (or along) the contact surface, or
/// the normal is degenerate, the response simply absorbs the other body's
/// velocity.
pub proof fn lemma_response_absorbs(v: FVector2d, col: Collision, other: FVector2d)
    requires
        spec_length_square(col.normal) == 0 || spec_dot(v, col.normal) >= 0,
    ensures
        spec_new_vector_after_circle_collision(v, col, other) == (FVector2d {
            x: (v.x + other.x) as i64,
            y: (v.y + other.y) as i64,
        }),
{
}

/// When the circle is moving into the surface, the response mirrors the
/// approach: the new velocity's component along the normal is the exact
/// negation of the incident one, whenever the two floor divisions of the
/// reflection formula are exact.
pub proof fn lemma_response_mirrors_approach(v: FVector2d, col: Collision, other: FVector2d)
    requires
        -100_000_000 <= v.x <= 100_000_000,
        -100_000_000 <= v.y <= 100_000_000,
        -100_000_000 <= col.normal.x <= 100_000_000,
        -100_000_000 <= col.normal.y <= 100_000_000,
        spec_length_square(col.normal) != 0,
        spec_dot(v, col.normal) < 0,
        (2 * spec_dot(v, col.normal) * col.normal.x) % spec_length_square(col.normal) == 0,
        (2 * spec_dot(v, col.normal) * col.normal.y) % spec_length_square(col.normal) == 0,
    ensures
        spec_dot(spec_new_vector_after_circle_collision(v, col, other), col.normal)
            == -spec_dot(v, col.normal),
{
    lemma_reflect_reverses_normal_dot(v, col.normal);
}

} // verus!
