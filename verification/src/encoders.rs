//! Coordinate encoders: mappings between 2-D grid coordinates and linear
//! storage indices under three addressing policies — toroidal (wrapping),
//! bounded (out-of-range reads as absent), and screen-space (viewport
//! tracking; the float remap itself lives with the renderer).

use vstd::prelude::*;

verus! {

/// Addressing policy between grid coordinates and linear indices. Each
/// implementation fixes what its two methods return through the two spec
/// methods, so callers through the trait get the same exact contracts.
pub trait CoordinateEncoder {
    /// The pair `decode` returns.
    spec fn decoded(&self, index: usize) -> (u32, u32);

    /// The index `encode` returns, if any.
    spec fn encoded(&self, x: i32, y: i32) -> Option<usize>;

    fn decode(&self, index: usize) -> (r: (u32, u32))
        ensures
            r == self.decoded(index),
    ;

    fn encode(&self, x: i32, y: i32) -> (r: Option<usize>)
        ensures
            r == self.encoded(x, y),
    ;
}

/// Toroidal encoder: coordinates wrap around the grid edges.
pub struct LoopingEncoder {
    pub dimensions: (u32, u32),
}

/// One negative step below zero re-enters at the far edge; non-negative `x`
/// wraps modulo the width.
pub open spec fn wrap_coord_x(x: int, w: int) -> int {
    if x < 0 {
        w + x
    } else {
        x % w
    }
}

/// One negative step below zero re-enters at the far edge; non-negative `y`
/// wraps modulo the height.
pub open spec fn wrap_coord_y(y: int, h: int) -> int {
    if y < 0 {
        h + y
    } else {
        y % h
    }
}

/// The linear index a toroidal grid stores cell `(x, y)` at.
pub open spec fn looping_index(x: int, y: int, w: int, h: int) -> int {
    (wrap_coord_y(y, h) * w + wrap_coord_x(x, w)) % (w * h)
}

impl LoopingEncoder {
    pub open spec fn width(self) -> int {
        self.dimensions.0 as int
    }

    pub open spec fn height(self) -> int {
        self.dimensions.1 as int
    }

    pub fn decode(&self, index: usize) -> (r: (u32, u32))
        requires
            self.width() >= 1,
            index <= u32::MAX,
        ensures
            r.0 as int == (index as int) % self.width(),
            r.1 as int == (index as int) / self.width(),
    {
        (index as u32 % self.dimensions.0, index as u32 / self.dimensions.0)
    }

    pub fn encode(&self, x: i32, y: i32) -> (r: Option<usize>)
        requires
            1 <= self.width() <= i32::MAX,
            1 <= self.height() <= i32::MAX,
            -self.width() <= x,
            -self.height() <= y,
            self.width() * self.height() <= u32::MAX,
        ensures
            r == Some(looping_index(x as int, y as int, self.width(), self.height()) as usize),
    {
        let w = self.dimensions.0;
        let h = self.dimensions.1;
        let xw: u32 = if x < 0 {
            (w as i32 + x) as u32
        } else {
            (x as u32) % w
        };
        let yw: u32 = if y < 0 {
            (h as i32 + y) as u32
        } else {
            (y as u32) % h
        };
        proof {
            assert((yw as int) * (w as int) + (xw as int) < (w as int) * (h as int) && (w as int)
                * (h as int) >= 1) by (nonlinear_arith)
                requires
                    (yw as int) < (h as int),
                    (xw as int) < (w as int),
                    w as int >= 1,
                    h as int >= 1,
            ;
        }
        Some(((yw * w + xw) % (w * h)) as usize)
    }
}

impl CoordinateEncoder for LoopingEncoder {
    open spec fn decoded(&self, index: usize) -> (u32, u32) {
        if self.width() >= 1 && index <= u32::MAX {
            (((index as int) % self.width()) as u32, ((index as int) / self.width()) as u32)
        } else {
            (0, 0)
        }
    }

    open spec fn encoded(&self, x: i32, y: i32) -> Option<usize> {
        if 1 <= self.width() <= i32::MAX && 1 <= self.height() <= i32::MAX && -self.width() <= x
            && -self.height() <= y && self.height() <= (u32::MAX as int) / self.width() {
            Some(looping_index(x as int, y as int, self.width(), self.height()) as usize)
        } else {
            None
        }
    }

    fn decode(&self, index: usize) -> (u32, u32) {
        if self.dimensions.0 >= 1 && index <= u32::MAX as usize {
            LoopingEncoder::decode(self, index)
        } else {
            (0, 0)
        }
    }

    fn encode(&self, x: i32, y: i32) -> Option<usize> {
        let w = self.dimensions.0;
        let h = self.dimensions.1;
        if 1 <= w && w <= i32::MAX as u32 && 1 <= h && h <= i32::MAX as u32 && -(w as i32) <= x
            && -(h as i32) <= y && h <= u32::MAX / w {
            proof {
                assert((h as int) * (w as int) <= u32::MAX as int) by (nonlinear_arith)
                    requires
                        (h as int) <= (u32::MAX as int) / (w as int),
                        w as int >= 1,
                ;
            }
            LoopingEncoder::encode(self, x, y)
        } else {
            None
        }
    }
}

impl Clone for LoopingEncoder {
    fn clone(&self) -> (r: LoopingEncoder)
        ensures
            r.dimensions == self.dimensions,
    {
        LoopingEncoder { dimensions: self.dimensions }
    }
}

/// Bounded encoder: out-of-range coordinates have no index at all.
pub struct FlatEncoder {
    pub dimensions: (u32, u32),
}

/// Whether `(x, y)` lies on a `w` by `h` grid.
pub open spec fn flat_in_bounds(x: int, y: int, w: int, h: int) -> bool {
    0 <= x < w && 0 <= y < h
}

impl FlatEncoder {
    pub open spec fn width(self) -> int {
        self.dimensions.0 as int
    }

    pub open spec fn height(self) -> int {
        self.dimensions.1 as int
    }

    /// The index `encode` yields on in-bounds coordinates.
    pub open spec fn index_of(self, x: int, y: int) -> int {
        y * self.width() + x
    }

    pub fn decode(&self, index: usize) -> (r: (u32, u32))
        requires
            self.width() >= 1,
            index <= u32::MAX,
        ensures
            r.0 as int == (index as int) % self.width(),
            r.1 as int == (index as int) / self.width(),
    {
        (index as u32 % self.dimensions.0, index as u32 / self.dimensions.0)
    }

    pub fn encode(&self, x: i32, y: i32) -> (r: Option<usize>)
        requires
            self.width() * self.height() <= u32::MAX,
        ensures
            flat_in_bounds(x as int, y as int, self.width(), self.height()) ==> r == Some(
                self.index_of(x as int, y as int) as usize,
            ),
            !flat_in_bounds(x as int, y as int, self.width(), self.height()) ==> r is None,
    {
        if x >= 0 && (x as u32) < self.dimensions.0 && y >= 0 && (y as u32) < self.dimensions.1 {
            proof {
                assert((y as int) * self.width() + (x as int) < self.width() * self.height())
                    by (nonlinear_arith)
                    requires
                        0 <= (x as int) && (x as int) < self.width(),
                        0 <= (y as int) && (y as int) < self.height(),
                ;
            }
            Some(((y as u32) * self.dimensions.0 + (x as u32)) as usize)
        } else {
            None
        }
    }
}

impl CoordinateEncoder for FlatEncoder {
    open spec fn decoded(&self, index: usize) -> (u32, u32) {
        if self.width() >= 1 && index <= u32::MAX {
            (((index as int) % self.width()) as u32, ((index as int) / self.width()) as u32)
        } else {
            (0, 0)
        }
    }

    open spec fn encoded(&self, x: i32, y: i32) -> Option<usize> {
        if (self.height() == 0 || self.width() <= (u32::MAX as int) / self.height())
            && flat_in_bounds(x as int, y as int, self.width(), self.height()) {
            Some(self.index_of(x as int, y as int) as usize)
        } else {
            None
        }
    }

    fn decode(&self, index: usize) -> (u32, u32) {
        if self.dimensions.0 >= 1 && index <= u32::MAX as usize {
            FlatEncoder::decode(self, index)
        } else {
            (0, 0)
        }
    }

    fn encode(&self, x: i32, y: i32) -> Option<usize> {
        let w = self.dimensions.0;
        let h = self.dimensions.1;
        if h == 0 || w <= u32::MAX / h {
            proof {
                assert((w as int) * (h as int) <= u32::MAX as int) by (nonlinear_arith)
                    requires
                        h as int == 0 || w as int <= (u32::MAX as int) / (h as int),
                        h as int >= 0,
                        w as int >= 0,
                ;
            }
            FlatEncoder::encode(self, x, y)
        } else {
            None
        }
    }
}

impl Clone for FlatEncoder {
    fn clone(&self) -> (r: FlatEncoder)
        ensures
            r.dimensions == self.dimensions,
    {
        FlatEncoder { dimensions: self.dimensions }
    }
}

/// Tracks the viewport a renderer maps simulation coordinates into; the
/// affine remap to the normalized device range is the renderer's concern.
#[derive(Clone, Copy)]
pub struct ScreenSpaceEncoder {
    pub dimensions: (u32, u32),
}

impl ScreenSpaceEncoder {
    #[allow(non_snake_case)]
    pub fn updateDimensions(&mut self, width: u32, height: u32)
        ensures
            final(self).dimensions == (width, height),
    {
        self.dimensions = (width, height);
    }
}

} // verus!
