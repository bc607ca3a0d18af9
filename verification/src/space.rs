use vstd::prelude::*;

verus! {

/// A 2d integer vector.
#[derive(Copy, Clone, Eq, PartialEq, Debug, Hash, Default, Structural)]
pub struct IVec2 {
    pub x: i32,
    pub y: i32,
}

/// A 3d integer vector.
#[derive(Copy, Clone, Eq, PartialEq, Debug, Hash, Default, Structural)]
pub struct IVec3 {
    pub x: i32,
    pub y: i32,
    pub z: i32,
}

/// Shorthand for an `IVec2` literal.
pub fn ivec2(x: i32, y: i32) -> (r: IVec2)
    ensures
        r.x == x,
        r.y == y,
{
    IVec2 { x, y }
}

/// Shorthand for an `IVec3` literal.
pub fn ivec3(x: i32, y: i32, z: i32) -> (r: IVec3)
    ensures
        r.x == x,
        r.y == y,
        r.z == z,
{
    IVec3 { x, y, z }
}

impl IVec2 {
    /// A vector with both components equal to v.
    pub fn splat(v: i32) -> (r: IVec2)
        ensures
            r.x == v,
            r.y == v,
    {
        IVec2 { x: v, y: v }
    }
}

impl IVec3 {
    /// The X and Z components.
    pub fn xz(&self) -> (r: IVec2)
        ensures
            r.x == self.x,
            r.y == self.z,
    {
        IVec2 { x: self.x, y: self.z }
    }

    /// This vector with its Y component replaced.
    pub fn with_y(&self, y: i32) -> (r: IVec3)
        ensures
            r.x == self.x,
            r.y == y,
            r.z == self.z,
    {
        IVec3 { x: self.x, y, z: self.z }
    }
}

/// The absolute value of `m`.
pub open spec fn abs(m: int) -> int {
    if m >= 0 {
        m
    } else {
        -m
    }
}

/// The Euclidean remainder of a by m: the value in 0..|m| congruent to a.
pub fn rem_euclid(a: i32, m: i32) -> (r: i32)
    requires
        m != 0,
    ensures
        r as int == (a as int) % abs(m as int),
        0 <= r < abs(m as int),
{
    let q: i64 = if m > 0 {
        m as i64
    } else {
        -(m as i64)
    };
    let r: i64 = if a >= 0 {
        (a as i64) % q
    } else {
        let t = (-(a as i64)) % q;
        if t == 0 {
            0
        } else {
            q - t
        }
    };
    proof {
        let ai = a as int;
        let qi = q as int;
        if a < 0 {
            let b = -ai;
            let t = b % qi;
            let k = b / qi;
            vstd::arithmetic::div_mod::lemma_fundamental_div_mod(b, qi);
            if t == 0 {
                assert(ai == (-k) * qi + 0) by (nonlinear_arith)
                    requires
                        b == qi * k + t,
                        t == 0,
                        ai == -b,
                ;
                vstd::arithmetic::div_mod::lemma_fundamental_div_mod_converse(ai, qi, -k, 0);
            } else {
                assert(ai == (-k - 1) * qi + (qi - t)) by (nonlinear_arith)
                    requires
                        b == qi * k + t,
                        ai == -b,
                ;
                vstd::arithmetic::div_mod::lemma_fundamental_div_mod_converse(ai, qi, -k - 1, qi - t);
            }
        }
    }
    r as i32
}

/// A 2d Area with an inclusive minimum and exclusive maximum.
#[derive(Copy, Clone, Eq, PartialEq, Debug, Hash, Default, Structural)]
pub struct IArea {
    /// Inclusive Minimum
    pub min: IVec2,
    /// Exclusive Maximum
    pub max: IVec2,
}

/// A 3d Volume with an inclusive minimum and exclusive maximum.
#[derive(Copy, Clone, Eq, PartialEq, Debug, Hash, Default, Structural)]
pub struct IVolume {
    pub min: IVec3,
    pub max: IVec3,
}

impl IVolume {
    pub fn new(min: IVec3, max: IVec3) -> (r: IVolume)
        ensures
            r.min == min,
            r.max == max,
    {
        IVolume { min, max }
    }

    /// The area covered on the X and Z axes.
    pub fn xz(&self) -> (r: IArea)
        ensures
            r.min == (IVec2 { x: self.min.x, y: self.min.z }),
            r.max == (IVec2 { x: self.max.x, y: self.max.z }),
    {
        IArea { min: IVec2 { x: self.min.x, y: self.min.z }, max: IVec2 { x: self.max.x, y: self.max.z } }
    }

    /// The area covered on the X and Y axes.
    pub fn xy(&self) -> (r: IArea)
        ensures
            r.min == (IVec2 { x: self.min.x, y: self.min.y }),
            r.max == (IVec2 { x: self.max.x, y: self.max.y }),
    {
        IArea { min: IVec2 { x: self.min.x, y: self.min.y }, max: IVec2 { x: self.max.x, y: self.max.y } }
    }
}

/// The spec of `IArea::intersection`.
pub open spec fn spec_intersection(a: IArea, b: IArea) -> Option<IArea> {
    let min = IVec2 {
        x: if a.min.x >= b.min.x { a.min.x } else { b.min.x },
        y: if a.min.y >= b.min.y { a.min.y } else { b.min.y },
    };
    let max = IVec2 {
        x: if a.max.x <= b.max.x { a.max.x } else { b.max.x },
        y: if a.max.y <= b.max.y { a.max.y } else { b.max.y },
    };
    if min.x < max.x && min.y < max.y {
        Some(IArea { min, max })
    } else {
        None
    }
}

/// Whether an area holds a point.
pub open spec fn spec_contains(a: IArea, p: IVec2) -> bool {
    a.min.x <= p.x < a.max.x && a.min.y <= p.y < a.max.y
}

/// Powers of two that cells can have as their size.
pub open spec fn is_pow2(n: int) -> bool {
    n == 1 || n == 2 || n == 4 || n == 8 || n == 16 || n == 32 || n == 64 || n == 128 || n == 256
        || n == 512 || n == 1024 || n == 2048 || n == 4096 || n == 8192 || n == 16384 || n == 32768
        || n == 65536
}

impl IArea {
    pub fn new(min: IVec2, max: IVec2) -> (r: IArea)
        ensures
            r.min == min,
            r.max == max,
    {
        IArea { min, max }
    }

    /// Create an IArea from a center point and half-extents.
    pub fn from_center_extents(center: IVec2, extents: IVec2) -> (r: IArea)
        requires
            i32::MIN <= center.x - extents.x <= i32::MAX,
            i32::MIN <= center.y - extents.y <= i32::MAX,
            extents.x < i32::MAX,
            extents.y < i32::MAX,
            i32::MIN <= center.x + extents.x + 1 <= i32::MAX,
            i32::MIN <= center.y + extents.y + 1 <= i32::MAX,
        ensures
            r.min.x == center.x - extents.x,
            r.min.y == center.y - extents.y,
            r.max.x == center.x + extents.x + 1,
            r.max.y == center.y + extents.y + 1,
    {
        IArea {
            min: IVec2 { x: center.x - extents.x, y: center.y - extents.y },
            max: IVec2 { x: center.x + (extents.x + 1), y: center.y + (extents.y + 1) },
        }
    }

    /// The square from -size (inclusive) to size + 1 (exclusive) on both axes.
    pub fn from_size(size: i32) -> (r: IArea)
        requires
            size > i32::MIN,
            size < i32::MAX,
        ensures
            r.min.x == -size && r.min.y == -size,
            r.max.x == size + 1 && r.max.y == size + 1,
    {
        IArea { min: IVec2 { x: -size, y: -size }, max: IVec2 { x: size + 1, y: size + 1 } }
    }

    /// The portion of self that is also in other, if it is not empty.
    pub fn intersection(&self, other: &IArea) -> (r: Option<IArea>)
        ensures
            r == spec_intersection(*self, *other),
    {
        let min = IVec2 {
            x: if self.min.x >= other.min.x { self.min.x } else { other.min.x },
            y: if self.min.y >= other.min.y { self.min.y } else { other.min.y },
        };
        let max = IVec2 {
            x: if self.max.x <= other.max.x { self.max.x } else { other.max.x },
            y: if self.max.y <= other.max.y { self.max.y } else { other.max.y },
        };
        if min.x < max.x && min.y < max.y {
            Some(IArea { min, max })
        } else {
            None
        }
    }

    /// Whether self and other share a point.
    pub fn intersects(&self, other: &IArea) -> (r: bool)
        ensures
            r == spec_intersection(*self, *other).is_some(),
    {
        self.intersection(other).is_some()
    }

    /// The X and Y extent (size).
    pub fn extents(&self) -> (r: IVec2)
        requires
            i32::MIN <= self.max.x - self.min.x <= i32::MAX,
            i32::MIN <= self.max.y - self.min.y <= i32::MAX,
        ensures
            r.x == self.max.x - self.min.x,
            r.y == self.max.y - self.min.y,
    {
        IVec2 { x: self.max.x - self.min.x, y: self.max.y - self.min.y }
    }

    /// The X extent.
    pub fn width(&self) -> (r: i32)
        requires
            i32::MIN <= self.max.x - self.min.x <= i32::MAX,
        ensures
            r == self.max.x - self.min.x,
    {
        self.max.x - self.min.x
    }

    /// The Y extent.
    pub fn height(&self) -> (r: i32)
        requires
            i32::MIN <= self.max.y - self.min.y <= i32::MAX,
        ensures
            r == self.max.y - self.min.y,
    {
        self.max.y - self.min.y
    }

    /// The Y extent, for when Y stands for Z.
    pub fn depth(&self) -> (r: i32)
        requires
            i32::MIN <= self.max.y - self.min.y <= i32::MAX,
        ensures
            r == self.max.y - self.min.y,
    {
        self.height()
    }

    pub fn contains_x(&self, x: i32) -> (r: bool)
        ensures
            r == (self.min.x <= x < self.max.x),
    {
        x >= self.min.x && x < self.max.x
    }

    pub fn contains_y(&self, y: i32) -> (r: bool)
        ensures
            r == (self.min.y <= y < self.max.y),
    {
        y >= self.min.y && y < self.max.y
    }

    pub fn contains(&self, pt: IVec2) -> (r: bool)
        ensures
            r == spec_contains(*self, pt),
    {
        self.contains_x(pt.x) && self.contains_y(pt.y)
    }

    /// Extend to an IVolume by setting the area's Y value to the volume's Z value.
    pub fn extend_y(self, y: i32, height: i32) -> (r: IVolume)
        requires
            i32::MIN <= y + height <= i32::MAX,
        ensures
            r.min == (IVec3 { x: self.min.x, y, z: self.min.y }),
            r.max == (IVec3 { x: self.max.x, y: (y + height) as i32, z: self.max.y }),
    {
        IVolume {
            min: IVec3 { x: self.min.x, y, z: self.min.y },
            max: IVec3 { x: self.max.x, y: y + height, z: self.max.y },
        }
    }

    /// Extend to an IVolume by adding a Z coordinate.
    pub fn extend_z(self, z: i32, depth: i32) -> (r: IVolume)
        requires
            i32::MIN <= z + depth <= i32::MAX,
        ensures
            r.min == (IVec3 { x: self.min.x, y: self.min.y, z }),
            r.max == (IVec3 { x: self.max.x, y: self.max.y, z: (z + depth) as i32 }),
    {
        IVolume {
            min: IVec3 { x: self.min.x, y: self.min.y, z },
            max: IVec3 { x: self.max.x, y: self.max.y, z: z + depth },
        }
    }

    /// Round the min down to a multiple of the powers of two `x` and `y`, and the max up,
    /// by masking off the low bits.
    pub fn round_up_to_pow2(&mut self, x: i32, y: i32)
        requires
            is_pow2(x as int),
            is_pow2(y as int),
            old(self).max.x + x - 1 <= i32::MAX,
            old(self).max.y + y - 1 <= i32::MAX,
        ensures
            final(self).min.x == old(self).min.x & !((x - 1) as i32),
            final(self).min.y == old(self).min.y & !((y - 1) as i32),
            final(self).max.x == ((old(self).max.x + x - 1) as i32) & !((x - 1) as i32),
            final(self).max.y == ((old(self).max.y + y - 1) as i32) & !((y - 1) as i32),
    {
        let fx = x - 1;
        let fy = y - 1;
        self.min.x = self.min.x & !fx;
        self.min.y = self.min.y & !fy;
        self.max.x = (self.max.x + fx) & !fx;
        self.max.y = (self.max.y + fy) & !fy;
    }

    /// This area with its min rounded down and its max rounded up to multiples of the
    /// powers of two `x` and `y`.
    pub fn rounded_up_to_pow2(self, x: i32, y: i32) -> (r: IArea)
        requires
            is_pow2(x as int),
            is_pow2(y as int),
            self.max.x + x - 1 <= i32::MAX,
            self.max.y + y - 1 <= i32::MAX,
        ensures
            r.min.x == self.min.x & !((x - 1) as i32),
            r.min.y == self.min.y & !((y - 1) as i32),
            r.max.x == ((self.max.x + x - 1) as i32) & !((x - 1) as i32),
            r.max.y == ((self.max.y + y - 1) as i32) & !((y - 1) as i32),
    {
        let mut a = self;
        a.round_up_to_pow2(x, y);
        a
    }

    /// Round the min down to a previous multiple, and the max up to the next multiple.
    pub fn round_up_to(&mut self, multiples: IVec2)
        requires
            multiples.x != 0,
            multiples.y != 0,
            i32::MIN <= old(self).min.x - (old(self).min.x as int) % abs(multiples.x as int),
            i32::MIN <= old(self).min.y - (old(self).min.y as int) % abs(multiples.y as int),
            old(self).max.x + ((multiples.x - (old(self).max.x as int) % abs(multiples.x as int)) % abs(multiples.x as int)) <= i32::MAX,
            old(self).max.y + ((multiples.y - (old(self).max.y as int) % abs(multiples.y as int)) % abs(multiples.y as int)) <= i32::MAX,
            i32::MIN <= multiples.x - (old(self).max.x as int) % abs(multiples.x as int) <= i32::MAX,
            i32::MIN <= multiples.y - (old(self).max.y as int) % abs(multiples.y as int) <= i32::MAX,
        ensures
            final(self).min.x == old(self).min.x - (old(self).min.x as int) % abs(multiples.x as int),
            final(self).min.y == old(self).min.y - (old(self).min.y as int) % abs(multiples.y as int),
            final(self).max.x == old(self).max.x + ((multiples.x - (old(self).max.x as int) % abs(multiples.x as int)) % abs(multiples.x as int)),
            final(self).max.y == old(self).max.y + ((multiples.y - (old(self).max.y as int) % abs(multiples.y as int)) % abs(multiples.y as int)),
    {
        let rx = rem_euclid(self.min.x, multiples.x);
        let ry = rem_euclid(self.min.y, multiples.y);
        self.min.x = self.min.x - rx;
        self.min.y = self.min.y - ry;
        let ax = multiples.x - rem_euclid(self.max.x, multiples.x);
        let ay = multiples.y - rem_euclid(self.max.y, multiples.y);
        self.max.x = self.max.x + rem_euclid(ax, multiples.x);
        self.max.y = self.max.y + rem_euclid(ay, multiples.y);
    }

    /// This area with its min rounded down and its max rounded up to the next multiples.
    pub fn rounded_up_to(self, multiples: IVec2) -> (r: IArea)
        requires
            multiples.x != 0,
            multiples.y != 0,
            i32::MIN <= self.min.x - (self.min.x as int) % abs(multiples.x as int),
            i32::MIN <= self.min.y - (self.min.y as int) % abs(multiples.y as int),
            self.max.x + ((multiples.x - (self.max.x as int) % abs(multiples.x as int)) % abs(multiples.x as int)) <= i32::MAX,
            self.max.y + ((multiples.y - (self.max.y as int) % abs(multiples.y as int)) % abs(multiples.y as int)) <= i32::MAX,
            i32::MIN <= multiples.x - (self.max.x as int) % abs(multiples.x as int) <= i32::MAX,
            i32::MIN <= multiples.y - (self.max.y as int) % abs(multiples.y as int) <= i32::MAX,
        ensures
            r.min.x == self.min.x - (self.min.x as int) % abs(multiples.x as int),
            r.min.y == self.min.y - (self.min.y as int) % abs(multiples.y as int),
            r.max.x == self.max.x + ((multiples.x - (self.max.x as int) % abs(multiples.x as int)) % abs(multiples.x as int)),
            r.max.y == self.max.y + ((multiples.y - (self.max.y as int) % abs(multiples.y as int)) % abs(multiples.y as int)),
    {
        let mut a = self;
        a.round_up_to(multiples);
        a
    }
}

/// Iterator state over the points of an area, X-major, from the min and from the max.
#[derive(Copy, Clone)]
pub struct IAreaIter {
    pub area: IArea,
    pub next: IVec2,
    pub back: IVec2,
    pub stride: i32,
}

/// Stepping by `stride` from any position the iterator can reach stays within `i32`.
pub open spec fn steps_fit(area: IArea, stride: i32) -> bool {
    &&& stride > 0
    &&& area.min.x + stride <= i32::MAX
    &&& area.max.x + stride <= i32::MAX + 1
    &&& area.max.y + stride <= i32::MAX + 1
    &&& area.min.x - stride >= i32::MIN
    &&& area.min.y - stride >= i32::MIN
    &&& area.max.x - 1 - stride >= i32::MIN
    &&& area.max.y - 1 >= i32::MIN
}

impl IAreaIter {
    pub open spec fn wf(&self) -> bool {
        &&& steps_fit(self.area, self.stride)
        &&& (self.next.x == self.area.min.x || self.next.x < self.area.max.x)
        &&& (self.back.x == self.area.max.x - 1 || self.back.x >= self.area.min.x)
        &&& (self.next.y < self.area.max.y ==> self.next.y + self.stride <= i32::MAX)
        &&& (self.back.y >= self.area.min.y ==> self.back.y - self.stride >= i32::MIN)
    }

    /// The same iterator with another stride.
    pub fn with_stride(self, stride: i32) -> (r: IAreaIter)
        requires
            stride > 0,
            self.wf(),
            steps_fit(self.area, stride),
            self.next.y < self.area.max.y ==> self.next.y + stride <= i32::MAX,
            self.back.y >= self.area.min.y ==> self.back.y - stride >= i32::MIN,
        ensures
            r == (IAreaIter { stride, ..self }),
            r.wf(),
    {
        IAreaIter { stride, ..self }
    }

    /// The next point from the min, X-major, or None past the last row.
    pub fn next(&mut self) -> (r: Option<IVec2>)
        requires
            old(self).wf(),
        ensures
            final(self).wf(),
            final(self).area == old(self).area,
            final(self).stride == old(self).stride,
            final(self).back == old(self).back,
            old(self).next.y >= old(self).area.max.y ==> r is None && *final(self) == *old(self),
            old(self).next.y < old(self).area.max.y ==> r == Some(old(self).next) && final(self).next == (if old(self).next.x + old(self).stride >= old(self).area.max.x {
                IVec2 { x: old(self).area.min.x, y: (old(self).next.y + old(self).stride) as i32 }
            } else {
                IVec2 { x: (old(self).next.x + old(self).stride) as i32, y: old(self).next.y }
            }),
    {
        if self.next.y >= self.area.max.y {
            return None;
        }
        let result = self.next;
        self.next.x = self.next.x + self.stride;
        if self.next.x >= self.area.max.x {
            self.next.x = self.area.min.x;
            self.next.y = self.next.y + self.stride;
        }
        Some(result)
    }

    /// The next point from the max, in reverse X-major order, or None before the first row.
    pub fn next_back(&mut self) -> (r: Option<IVec2>)
        requires
            old(self).wf(),
        ensures
            final(self).wf(),
            final(self).area == old(self).area,
            final(self).stride == old(self).stride,
            final(self).next == old(self).next,
            old(self).back.y < old(self).area.min.y ==> r is None && *final(self) == *old(self),
            old(self).back.y >= old(self).area.min.y ==> r == Some(old(self).back) && final(self).back == (if old(self).back.x - old(self).stride < old(self).area.min.x {
                IVec2 { x: (old(self).area.max.x - 1) as i32, y: (old(self).back.y - old(self).stride) as i32 }
            } else {
                IVec2 { x: (old(self).back.x - old(self).stride) as i32, y: old(self).back.y }
            }),
    {
        if self.back.y < self.area.min.y {
            return None;
        }
        let result = self.back;
        self.back.x = self.back.x - self.stride;
        if self.back.x < self.area.min.x {
            self.back.x = self.area.max.x - 1;
            self.back.y = self.back.y - self.stride;
        }
        Some(result)
    }
}

/// Iterator state over square cells covering an area, X-major. Exclusive on the max.
#[derive(Copy, Clone)]
pub struct ICells2d {
    pub area: IArea,
    pub next: IVec2,
    pub back: IVec2,
    pub stride: i32,
}

impl ICells2d {
    pub open spec fn wf(&self) -> bool {
        &&& steps_fit(self.area, self.stride)
        &&& (self.next.x == self.area.min.x || self.next.x < self.area.max.x)
        &&& (self.next.y < self.area.max.y ==> self.next.y + self.stride <= i32::MAX)
    }

    /// The next cell, or None past the last row of cells.
    pub fn next(&mut self) -> (r: Option<IArea>)
        requires
            old(self).wf(),
        ensures
            final(self).wf(),
            final(self).area == old(self).area,
            final(self).stride == old(self).stride,
            final(self).back == old(self).back,
            old(self).next.y >= old(self).area.max.y ==> r is None && *final(self) == *old(self),
            old(self).next.y < old(self).area.max.y ==> r == Some(
                IArea {
                    min: old(self).next,
                    max: IVec2 {
                        x: (old(self).next.x + old(self).stride) as i32,
                        y: (old(self).next.y + old(self).stride) as i32,
                    },
                },
            ) && final(self).next == (if old(self).next.x + old(self).stride >= old(self).area.max.x {
                IVec2 { x: old(self).area.min.x, y: (old(self).next.y + old(self).stride) as i32 }
            } else {
                IVec2 { x: (old(self).next.x + old(self).stride) as i32, y: old(self).next.y }
            }),
    {
        if self.next.y >= self.area.max.y {
            return None;
        }
        let result = self.next;
        self.next.x = self.next.x + self.stride;
        if self.next.x >= self.area.max.x {
            self.next.x = self.area.min.x;
            self.next.y = self.next.y + self.stride;
        }
        Some(IArea { min: result, max: IVec2 { x: result.x + self.stride, y: result.y + self.stride } })
    }
}

impl IArea {
    /// An iterator over the points of this area, X-major, stepping by `stride`.
    pub fn iter(&self, stride: i32) -> (r: IAreaIter)
        requires
            stride > 0,
            steps_fit(*self, stride),
            self.min.y < self.max.y ==> self.min.y + stride <= i32::MAX,
            self.max.y - 1 >= self.min.y ==> self.max.y - 1 - stride >= i32::MIN,
        ensures
            r.wf(),
            r.area == *self,
            r.next == self.min,
            r.back == (IVec2 { x: (self.max.x - 1) as i32, y: (self.max.y - 1) as i32 }),
            r.stride == stride,
    {
        IAreaIter {
            area: *self,
            next: self.min,
            back: IVec2 { x: self.max.x - 1, y: self.max.y - 1 },
            stride,
        }
    }

    /// An iterator over the points of this area with a stride of 1.
    pub fn into_iter(self) -> (r: IAreaIter)
        requires
            steps_fit(self, 1),
        ensures
            r.wf(),
            r.area == self,
            r.next == self.min,
            r.back == (IVec2 { x: (self.max.x - 1) as i32, y: (self.max.y - 1) as i32 }),
            r.stride == 1,
    {
        self.iter(1)
    }

    /// All square cells of size `size` that this area overlaps, found by rounding the min
    /// down to the previous multiple of `size` and the max up to the next one.
    pub fn cells(&self, size: i32) -> (r: ICells2d)
        requires
            size > 0,
            ({
                let m = size as int;
                &&& i32::MIN <= self.min.x - (self.min.x as int) % m
                &&& i32::MIN <= self.min.y - (self.min.y as int) % m
                &&& self.max.x + ((m - (self.max.x as int) % m) % m) + m <= i32::MAX + 1
                &&& self.max.y + ((m - (self.max.y as int) % m) % m) + m <= i32::MAX + 1
                &&& self.min.x - (self.min.x as int) % m - m >= i32::MIN
                &&& self.min.y - (self.min.y as int) % m - m >= i32::MIN
                &&& self.min.x + m <= i32::MAX
                &&& self.min.y + m <= i32::MAX
                &&& self.max.x - 1 - m >= i32::MIN
                &&& self.max.y - 1 - m >= i32::MIN
            }),
        ensures
            r.wf(),
            r.area == self.rounded_up_to_spec(size),
            r.next == r.area.min,
            r.stride == size,
    {
        let rounded = self.rounded_up_to(IVec2 { x: size, y: size });
        proof {
            assert(rounded == self.rounded_up_to_spec(size));
            let m = size as int;
            assert(0 <= (self.min.x as int) % m < m && 0 <= (self.max.x as int) % m < m);
            assert(0 <= (self.min.y as int) % m < m && 0 <= (self.max.y as int) % m < m);
        }
        ICells2d {
            area: rounded,
            next: rounded.min,
            back: IVec2 { x: rounded.max.x - 1, y: rounded.max.y - 1 },
            stride: size,
        }
    }

    /// The area that `rounded_up_to` gives for a square multiple of `size`.
    pub open spec fn rounded_up_to_spec(self, size: i32) -> IArea {
        let m = size as int;
        IArea {
            min: IVec2 {
                x: (self.min.x - (self.min.x as int) % m) as i32,
                y: (self.min.y - (self.min.y as int) % m) as i32,
            },
            max: IVec2 {
                x: (self.max.x + ((m - (self.max.x as int) % m) % m)) as i32,
                y: (self.max.y + ((m - (self.max.y as int) % m) % m)) as i32,
            },
        }
    }

    /// All square cells of the power of two size `size` that this area overlaps.
    pub fn cells_pow2(&self, size: i32) -> (r: ICells2d)
        requires
            is_pow2(size as int),
            self.max.x + 2 * size - 1 <= i32::MAX + 1,
            self.max.y + 2 * size - 1 <= i32::MAX + 1,
            self.min.x - 2 * size >= i32::MIN,
            self.min.y - 2 * size >= i32::MIN,
            self.min.x + size <= i32::MAX,
            self.min.y + size <= i32::MAX,
            self.max.x - 1 - size >= i32::MIN,
            self.max.y - 1 - size >= i32::MIN,
        ensures
            r.area == self.rounded_up_to_pow2_spec(size),
            r.next == r.area.min,
            r.stride == size,
            r.wf(),
    {
        let rounded = self.rounded_up_to_pow2(size, size);
        proof {
            let m = (size - 1) as i32;
            let (a, b, c, d) = (self.min.x, self.min.y, self.max.x, self.max.y);
            assert((a & !m) <= a && (a & !m) > a - size && (b & !m) <= b && (b & !m) > b - size
                && (((c + m) as i32) & !m) >= c && (((c + m) as i32) & !m) <= c + m
                && (((d + m) as i32) & !m) >= d && (((d + m) as i32) & !m) <= d + m) by (bit_vector)
                requires
                    is_pow2(size as int),
                    m == size - 1,
                    c + m <= i32::MAX,
                    d + m <= i32::MAX,
            ;
        }
        ICells2d {
            area: rounded,
            next: rounded.min,
            back: IVec2 { x: rounded.max.x - 1, y: rounded.max.y - 1 },
            stride: size,
        }
    }

    /// The area that `rounded_up_to_pow2` gives for a square power of two `size`.
    pub open spec fn rounded_up_to_pow2_spec(self, size: i32) -> IArea {
        let m = (size - 1) as i32;
        IArea {
            min: IVec2 { x: self.min.x & !m, y: self.min.y & !m },
            max: IVec2 {
                x: ((self.max.x + size - 1) as i32) & !m,
                y: ((self.max.y + size - 1) as i32) & !m,
            },
        }
    }
}

/// Intersection does not depend on the order of its operands.
pub proof fn lemma_intersection_commutative(a: IArea, b: IArea)
    ensures
        spec_intersection(a, b) == spec_intersection(b, a),
{
}

/// The intersection holds exactly the points that both areas hold.
pub proof fn lemma_intersection_points(a: IArea, b: IArea, p: IVec2)
    ensures
        spec_contains(a, p) && spec_contains(b, p) <==> (spec_intersection(a, b) matches Some(c)
            && spec_contains(c, p)),
{
}

} // verus!
