use vstd::prelude::*;

verus! {

/// The value that stands for an unbounded length.
pub const UNBOUNDED: u64 = 0xffff_ffff_ffff_ffff;

/// The two directions along which a layout can be measured.
#[derive(Clone, Copy, Debug, PartialEq, Eq, Structural)]
pub enum Axis {
    Horizontal,
    Vertical,
}

impl Axis {
    /// The other axis.
    pub fn invert(self) -> (r: Axis)
        ensures
            r == self.invert_spec(),
            r != self,
    {
        match self {
            Axis::Horizontal => Axis::Vertical,
            Axis::Vertical => Axis::Horizontal,
        }
    }
}

/// A two-dimensional extent or point, in whole device units.
#[derive(Clone, Copy, Debug, PartialEq, Eq, Structural)]
pub struct Vector2I {
    pub x: u64,
    pub y: u64,
}

impl Vector2I {
    pub fn new(x: u64, y: u64) -> (r: Vector2I)
        ensures
            r.x == x,
            r.y == y,
    {
        Vector2I { x, y }
    }

    pub open spec fn spec_zero() -> Vector2I {
        Vector2I { x: 0, y: 0 }
    }

    pub fn zero() -> (r: Vector2I)
        ensures
            r == Vector2I::spec_zero(),
    {
        Vector2I { x: 0, y: 0 }
    }

    pub open spec fn spec_along(self, axis: Axis) -> u64 {
        match axis {
            Axis::Horizontal => self.x,
            Axis::Vertical => self.y,
        }
    }

    /// The component of this vector that lies along `axis`.
    pub fn along(self, axis: Axis) -> (r: u64)
        ensures
            r == self.spec_along(axis),
    {
        match axis {
            Axis::Horizontal => self.x,
            Axis::Vertical => self.y,
        }
    }
}

/// `v` brought into `[lo, hi]`; when `lo > hi` the lower bound wins.
pub open spec fn clamp(v: u64, lo: u64, hi: u64) -> u64 {
    if v < lo {
        lo
    } else if v > hi {
        hi
    } else {
        v
    }
}

/// The smallest and largest size that a layout may produce.
#[derive(Clone, Copy, Debug, PartialEq, Eq, Structural)]
pub struct SizeConstraint {
    pub min: Vector2I,
    pub max: Vector2I,
}

impl SizeConstraint {
    pub fn new(min: Vector2I, max: Vector2I) -> (r: SizeConstraint)
        ensures
            r.min == min,
            r.max == max,
    {
        SizeConstraint { min, max }
    }

    /// A constraint that admits exactly `size`.
    pub fn strict(size: Vector2I) -> (r: SizeConstraint)
        ensures
            r.min == size,
            r.max == size,
    {
        SizeConstraint { min: size, max: size }
    }

    /// A constraint that fixes `axis` at `max` and leaves the other axis
    /// anywhere from zero to unbounded.
    pub fn strict_along(axis: Axis, max: u64) -> (r: SizeConstraint)
        ensures
            r.min.spec_along(axis) == max,
            r.max.spec_along(axis) == max,
            r.min.spec_along(axis.invert_spec()) == 0,
            r.max.spec_along(axis.invert_spec()) == UNBOUNDED,
    {
        match axis {
            Axis::Horizontal => SizeConstraint {
                min: Vector2I { x: max, y: 0 },
                max: Vector2I { x: max, y: UNBOUNDED },
            },
            Axis::Vertical => SizeConstraint {
                min: Vector2I { x: 0, y: max },
                max: Vector2I { x: UNBOUNDED, y: max },
            },
        }
    }

    pub fn max_along(&self, axis: Axis) -> (r: u64)
        ensures
            r == self.max.spec_along(axis),
    {
        self.max.along(axis)
    }

    pub fn min_along(&self, axis: Axis) -> (r: u64)
        ensures
            r == self.min.spec_along(axis),
    {
        self.min.along(axis)
    }

    pub open spec fn spec_constrain(self, size: Vector2I) -> Vector2I {
        Vector2I {
            x: clamp(size.x, self.min.x, self.max.x),
            y: clamp(size.y, self.min.y, self.max.y),
        }
    }

    /// `size` brought within this constraint, one axis at a time.
    pub fn constrain(&self, size: Vector2I) -> (r: Vector2I)
        ensures
            r == self.spec_constrain(size),
    {
        Vector2I { x: clamp_exec(size.x, self.min.x, self.max.x), y: clamp_exec(size.y, self.min.y, self.max.y) }
    }
}

fn clamp_exec(v: u64, lo: u64, hi: u64) -> (r: u64)
    ensures
        r == clamp(v, lo, hi),
{
    if v < lo {
        lo
    } else if v > hi {
        hi
    } else {
        v
    }
}

impl Axis {
    pub open spec fn invert_spec(self) -> Axis {
        match self {
            Axis::Horizontal => Axis::Vertical,
            Axis::Vertical => Axis::Horizontal,
        }
    }
}

} // verus!
