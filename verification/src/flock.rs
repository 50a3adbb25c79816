//! Boid steering arithmetic: the magnitude-capping helpers every steering
//! force runs through, the toroidal screen wrap with its overscan margin,
//! and the torus-aware distance between two positions.

use vstd::prelude::*;

verus! {

use crate::vec2::Vec2;
use crate::vec2::sqrt_floor;
use crate::vec2::div_tz;
use crate::vec2::isqrt;
use crate::vec2::div_to_zero;
use crate::vec2::lemma_div_tz_bounds;

/// Bound on the dimensions and every tunable the flock works with.
pub const FLOCK_LIMIT: i64 = 1_000_000;

/// Bound on the vectors the steering helpers accept.
pub const VEC_LIMIT: i64 = 10_000_000;

/// Overscan margin of the toroidal screen wrap, so entities drift visibly
/// off one edge before re-entering at the other.
pub const EDGE_MARGIN: i64 = 11;

/// Both components within `[-b, b]`.
pub open spec fn vec_ok(v: Vec2, b: int) -> bool {
    &&& -b <= v.x <= b
    &&& -b <= v.y <= b
}

/// A vector rescaled to magnitude `m`, in integer arithmetic: each
/// component is multiplied by `m` and divided (toward zero) by the floor
/// of the current magnitude. The zero vector stays zero.
pub open spec fn set_mag_spec(m: int, vx: int, vy: int) -> (int, int) {
    if vx == 0 && vy == 0 {
        (0, 0)
    } else {
        let c = sqrt_floor(vx * vx + vy * vy);
        (div_tz(vx * m, c), div_tz(vy * m, c))
    }
}

/// A vector clamped to magnitude `cap`: rescaled exactly when its
/// magnitude exceeds the cap, else untouched.
pub open spec fn limit_spec(vx: int, vy: int, cap: int) -> (int, int) {
    if vx * vx + vy * vy > cap * cap {
        set_mag_spec(cap, vx, vy)
    } else {
        (vx, vy)
    }
}

/// One coordinate after the toroidal screen wrap: past the far overscan
/// edge re-enter at the near one and vice versa; anywhere between stays.
pub open spec fn wrap_coord(v: int, dim: int) -> int {
    if v > dim + EDGE_MARGIN {
        -EDGE_MARGIN as int
    } else {
        if v < -EDGE_MARGIN {
            dim + EDGE_MARGIN
        } else {
            v
        }
    }
}

/// Torus-aware distance floor: each axis difference is folded back by the
/// grid dimension when it exceeds it, then the Euclidean magnitude floor
/// is taken.
pub open spec fn wrapped_distance_spec(a: Vec2, b: Vec2, w: int, h: int) -> int {
    let dx0 = if a.x >= b.x {
        a.x - b.x
    } else {
        b.x - a.x
    };
    let dy0 = if a.y >= b.y {
        a.y - b.y
    } else {
        b.y - a.y
    };
    let dx = if dx0 > w {
        w - dx0
    } else {
        dx0
    };
    let dy = if dy0 > h {
        h - dy0
    } else {
        dy0
    };
    sqrt_floor(dx * dx + dy * dy)
}

/// One component of an integer rescale: dividing `v * m` by the magnitude
/// floor `c` keeps the square between `(v^2 m^2 - 2 c^2 m) / c^2` and
/// `v^2 m^2 / c^2`.
proof fn lemma_scale_component(v: int, m: int, c: int, r: int)
    requires
        c >= 1,
        m >= 0,
        -c <= v <= c,
        r == div_tz(v * m, c),
    ensures
        (c * c) * (r * r) <= (v * v) * (m * m),
        (c * c) * (r * r) >= (v * v) * (m * m) - 2 * ((c * c) * m),
{
    lemma_div_tz_bounds(v * m, c);
    let a = c * r;
    let b = v * m;
    assert(-(c * m) <= b <= c * m) by (nonlinear_arith)
        requires
            b == v * m,
            -c <= v <= c,
            m >= 0,
    ;
    if b >= 0 {
        assert(a * a <= b * b) by (nonlinear_arith)
            requires
                0 <= a <= b,
        ;
    } else {
        assert(a * a <= b * b) by (nonlinear_arith)
            requires
                b <= a <= 0,
        ;
    }
    assert(a * a >= b * b - 2 * ((c * c) * m)) by (nonlinear_arith)
        requires
            b - (c - 1) <= a <= b + (c - 1),
            -(c * m) <= b <= c * m,
            c >= 1,
            m >= 0,
    ;
    assert(a * a == (c * c) * (r * r)) by (nonlinear_arith)
        requires
            a == c * r,
    ;
    assert(b * b == (v * v) * (m * m)) by (nonlinear_arith)
        requires
            b == v * m,
    ;
}

/// Error bounds of the integer rescale: the squared magnitude never
/// exceeds three times the target square, never exceeds `(m+1)^2` when the
/// vector already reached magnitude `m`, and never falls below
/// `m^2 - 4m`.
proof fn lemma_scale_bounds(vx: int, vy: int, m: int, c: int, rx: int, ry: int)
    requires
        c >= 1,
        m >= 0,
        c * c <= vx * vx + vy * vy,
        vx * vx + vy * vy < (c + 1) * (c + 1),
        rx == div_tz(vx * m, c),
        ry == div_tz(vy * m, c),
    ensures
        rx * rx + ry * ry <= 3 * (m * m),
        c >= m ==> rx * rx + ry * ry <= (m + 1) * (m + 1),
        rx * rx + ry * ry >= m * m - 4 * m,
{
    let msq = vx * vx + vy * vy;
    assert(-c <= vx <= c && -c <= vy <= c) by (nonlinear_arith)
        requires
            c >= 0,
            vx * vx + vy * vy < (c + 1) * (c + 1),
    ;
    lemma_scale_component(vx, m, c, rx);
    lemma_scale_component(vy, m, c, ry);
    let s = rx * rx + ry * ry;
    assert((c * c) * s == (c * c) * (rx * rx) + (c * c) * (ry * ry)) by (nonlinear_arith)
        requires
            s == rx * rx + ry * ry,
    ;
    assert(msq * (m * m) == (vx * vx) * (m * m) + (vy * vy) * (m * m)) by (nonlinear_arith)
        requires
            msq == vx * vx + vy * vy,
    ;
    assert((c * c) * s <= msq * (m * m));
    assert(msq <= c * c + 2 * c) by (nonlinear_arith)
        requires
            msq < (c + 1) * (c + 1),
    ;
    assert(msq * (m * m) <= (c * c + 2 * c) * (m * m)) by (nonlinear_arith)
        requires
            msq <= c * c + 2 * c,
    ;
    assert((c * c + 2 * c) * (m * m) <= (c * c) * (3 * (m * m))) by (nonlinear_arith)
        requires
            c >= 1,
    ;
    assert(s <= 3 * (m * m)) by (nonlinear_arith)
        requires
            (c * c) * s <= (c * c) * (3 * (m * m)),
            c >= 1,
    ;
    if c >= m {
        assert((c * c + 2 * c) * (m * m) <= (c * c) * ((m + 1) * (m + 1))) by (nonlinear_arith)
            requires
                0 <= m <= c,
        ;
        assert(s <= (m + 1) * (m + 1)) by (nonlinear_arith)
            requires
                (c * c) * s <= (c * c) * ((m + 1) * (m + 1)),
                c >= 1,
        ;
    }
    assert((c * c) * s >= msq * (m * m) - 4 * ((c * c) * m));
    assert(msq * (m * m) >= (c * c) * (m * m)) by (nonlinear_arith)
        requires
            msq >= c * c,
    ;
    assert((c * c) * (m * m) - 4 * ((c * c) * m) == (c * c) * (m * m - 4 * m)) by (nonlinear_arith);
    assert(s >= m * m - 4 * m) by (nonlinear_arith)
        requires
            (c * c) * s >= (c * c) * (m * m - 4 * m),
            c >= 1,
    ;
}

/// One member of the flock, with its per-boid tunables and stable identity.
#[derive(Clone, Copy, Debug, PartialEq, Eq, Structural)]
pub struct Boid {
    pub position: Vec2,
    pub velocity: Vec2,
    pub acceleration: Vec2,
    pub alignment_force: i64,
    pub cohesion_force: i64,
    pub seperation_force: i64,
    pub perception_size: i64,
    pub max_speed: i64,
    pub index: usize,
}

impl Boid {
    /// Rescale a vector to exactly the target magnitude, up to the integer
    /// floor; the zero vector stays zero.
    #[allow(non_snake_case)]
    pub fn setMag(&self, mag: i64, vec: &Vec2) -> (r: Vec2)
        requires
            0 <= mag <= FLOCK_LIMIT,
            vec_ok(*vec, VEC_LIMIT as int),
        ensures
            r.x as int == set_mag_spec(mag as int, vec.x as int, vec.y as int).0,
            r.y as int == set_mag_spec(mag as int, vec.x as int, vec.y as int).1,
            (r.x as int) * (r.x as int) + (r.y as int) * (r.y as int) <= 3 * ((mag as int) * (
            mag as int)),
            (vec.x as int) * (vec.x as int) + (vec.y as int) * (vec.y as int) >= (mag as int) * (
            mag as int) ==> (r.x as int) * (r.x as int) + (r.y as int) * (r.y as int) <= ((
            mag as int) + 1) * ((mag as int) + 1),
            !(vec.x == 0 && vec.y == 0) ==> (r.x as int) * (r.x as int) + (r.y as int) * (
            r.y as int) >= (mag as int) * (mag as int) - 4 * (mag as int),
    {
        proof {
            assert(0 <= (vec.x as int) * (vec.x as int) <= 100_000_000_000_000 && 0 <= (
            vec.y as int) * (vec.y as int) <= 100_000_000_000_000) by (nonlinear_arith)
                requires
                    -10_000_000 <= vec.x as int <= 10_000_000,
                    -10_000_000 <= vec.y as int <= 10_000_000,
            ;
        }
        let msq = vec.x * vec.x + vec.y * vec.y;
        if msq == 0 {
            proof {
                assert(vec.x == 0 && vec.y == 0) by (nonlinear_arith)
                    requires
                        (vec.x as int) * (vec.x as int) + (vec.y as int) * (vec.y as int) == 0,
                ;
                assert((mag as int) * (mag as int) >= 0) by (nonlinear_arith);
            }
            Vec2 { x: 0, y: 0 }
        } else {
            let cu = isqrt(msq as u64);
            proof {
                assert(cu as int <= 20_000_000) by (nonlinear_arith)
                    requires
                        (cu as int) * (cu as int) <= 200_000_000_000_000,
                ;
            }
            let c = cu as i64;
            proof {
                crate::vec2::lemma_sqrt_floor_bounds(msq as int);
                assert(cu as int >= 1) by (nonlinear_arith)
                    requires
                        ((msq as u64) as int) < (cu as int + 1) * (cu as int + 1),
                        ((msq as u64) as int) >= 1,
                ;
                assert(c >= 1);
                assert(-10_000_000_000_000 <= (vec.x as int) * (mag as int) <= 10_000_000_000_000
                    && -10_000_000_000_000 <= (vec.y as int) * (mag as int)
                    <= 10_000_000_000_000) by (nonlinear_arith)
                    requires
                        -10_000_000 <= vec.x as int <= 10_000_000,
                        -10_000_000 <= vec.y as int <= 10_000_000,
                        0 <= mag as int <= 1_000_000,
                ;
            }
            let r = Vec2 { x: div_to_zero(vec.x * mag, c), y: div_to_zero(vec.y * mag, c) };
            proof {
                lemma_scale_bounds(
                    vec.x as int,
                    vec.y as int,
                    mag as int,
                    c as int,
                    r.x as int,
                    r.y as int,
                );
                assert((msq as int) >= (mag as int) * (mag as int) ==> c as int >= mag as int)
                    by (nonlinear_arith)
                    requires
                        (msq as int) < (c as int + 1) * (c as int + 1),
                        c as int >= 0,
                        mag as int >= 0,
                ;
            }
            r
        }
    }

    /// Clamp a vector to the given magnitude cap, leaving it untouched when
    /// already within it.
    pub fn limit(&self, vec: &Vec2, speed: i64) -> (r: Vec2)
        requires
            0 <= speed <= FLOCK_LIMIT,
            vec_ok(*vec, VEC_LIMIT as int),
        ensures
            r.x as int == limit_spec(vec.x as int, vec.y as int, speed as int).0,
            r.y as int == limit_spec(vec.x as int, vec.y as int, speed as int).1,
            (r.x as int) * (r.x as int) + (r.y as int) * (r.y as int) <= ((speed as int) + 1) * ((
            speed as int) + 1),
    {
        proof {
            assert(0 <= (vec.x as int) * (vec.x as int) <= 100_000_000_000_000 && 0 <= (
            vec.y as int) * (vec.y as int) <= 100_000_000_000_000 && 0 <= (speed as int) * (
            speed as int) <= 1_000_000_000_000) by (nonlinear_arith)
                requires
                    -10_000_000 <= vec.x as int <= 10_000_000,
                    -10_000_000 <= vec.y as int <= 10_000_000,
                    0 <= speed as int <= 1_000_000,
            ;
        }
        if vec.x * vec.x + vec.y * vec.y > speed * speed {
            self.setMag(speed, vec)
        } else {
            proof {
                assert((speed as int) * (speed as int) <= ((speed as int) + 1) * ((speed as int)
                    + 1)) by (nonlinear_arith)
                    requires
                        speed as int >= 0,
                ;
            }
            *vec
        }
    }

    /// Toroidal screen wrap of the position, with the overscan margin, so
    /// a boid drifts visibly past an edge before re-entering opposite.
    pub fn edges(&mut self, width: i64, height: i64)
        requires
            0 <= width <= FLOCK_LIMIT,
            0 <= height <= FLOCK_LIMIT,
            vec_ok(old(self).position, VEC_LIMIT as int),
        ensures
            final(self).position.x as int == wrap_coord(old(self).position.x as int, width as int),
            final(self).position.y as int == wrap_coord(old(self).position.y as int, height as int),
            final(self).velocity == old(self).velocity,
            final(self).acceleration == old(self).acceleration,
            final(self).alignment_force == old(self).alignment_force,
            final(self).cohesion_force == old(self).cohesion_force,
            final(self).seperation_force == old(self).seperation_force,
            final(self).perception_size == old(self).perception_size,
            final(self).max_speed == old(self).max_speed,
            final(self).index == old(self).index,
    {
        if self.position.x > width + EDGE_MARGIN {
            self.position = Vec2 { x: -EDGE_MARGIN, y: self.position.y };
        } else if self.position.x < -EDGE_MARGIN {
            self.position = Vec2 { x: width + EDGE_MARGIN, y: self.position.y };
        }
        if self.position.y > height + EDGE_MARGIN {
            self.position = Vec2 { x: self.position.x, y: -EDGE_MARGIN };
        } else if self.position.y < -EDGE_MARGIN {
            self.position = Vec2 { x: self.position.x, y: height + EDGE_MARGIN };
        }
    }
}

/// The torus-aware distance between two positions, used when weighing a
/// neighbor against a perception radius.
pub fn wrapped_distance(vec1: Vec2, vec2: Vec2, width: u32, height: u32) -> (r: i64)
    requires
        vec_ok(vec1, VEC_LIMIT as int),
        vec_ok(vec2, VEC_LIMIT as int),
        width <= FLOCK_LIMIT,
        height <= FLOCK_LIMIT,
    ensures
        r as int == wrapped_distance_spec(vec1, vec2, width as int, height as int),
        0 <= r <= 3 * VEC_LIMIT,
{
    let dx0 = if vec1.x >= vec2.x {
        vec1.x - vec2.x
    } else {
        vec2.x - vec1.x
    };
    let dy0 = if vec1.y >= vec2.y {
        vec1.y - vec2.y
    } else {
        vec2.y - vec1.y
    };
    let dx = if dx0 > width as i64 {
        width as i64 - dx0
    } else {
        dx0
    };
    let dy = if dy0 > height as i64 {
        height as i64 - dy0
    } else {
        dy0
    };
    proof {
        assert(0 <= (dx as int) * (dx as int) <= 400_000_000_000_000 && 0 <= (dy as int) * (
        dy as int) <= 400_000_000_000_000) by (nonlinear_arith)
            requires
                -20_000_000 <= dx as int <= 20_000_000,
                -20_000_000 <= dy as int <= 20_000_000,
        ;
    }
    let du = isqrt((dx * dx + dy * dy) as u64);
    proof {
        assert(du as int <= 30_000_000) by (nonlinear_arith)
            requires
                (du as int) * (du as int) <= 800_000_000_000_000,
        ;
    }
    du as i64
}

} // verus!
