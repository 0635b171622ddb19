use vstd::prelude::*;

verus! {

/// The homogeneous coordinate of a tuple: `Point` stands for w = 1,
/// `Vector` for w = 0.  Adding and subtracting tuples combines their
/// kinds by the rules below; the coordinate arithmetic itself lives with
/// the floating-point tuples that carry a `W`.
#[derive(Debug, Clone, Copy, PartialEq, Eq, Structural)]
pub enum W {
    Point,
    Vector,
}

impl W {
    /// Kind of the sum of two tuples: point + vector and vector + point
    /// are points, vector + vector is a vector.  Point + point has no
    /// meaning and is excluded.
    pub fn add(self, other: W) -> (r: W)
        requires
            !(self == W::Point && other == W::Point),
        ensures
            r == (if self == W::Vector && other == W::Vector {
                W::Vector
            } else {
                W::Point
            }),
    {
        if self == W::Vector && other == W::Vector {
            W::Vector
        } else {
            W::Point
        }
    }

    /// Kind of the difference of two tuples: point - point is a vector,
    /// point - vector is a point, vector - vector is a vector.
    /// Vector - point has no meaning and is excluded.
    pub fn sub(self, other: W) -> (r: W)
        requires
            !(self == W::Vector && other == W::Point),
        ensures
            r == (if other == W::Vector {
                self
            } else {
                W::Vector
            }),
    {
        if other == W::Vector {
            self
        } else {
            W::Vector
        }
    }

    /// Builds the kind from its numeric w value: 0 is a vector, 1 a point;
    /// every other value is rejected.
    pub fn from_int(float: isize) -> (r: W)
        requires
            float == 0 || float == 1,
        ensures
            r == (if float == 0 {
                W::Vector
            } else {
                W::Point
            }),
    {
        if float == 0 {
            W::Vector
        } else {
            W::Point
        }
    }

    /// The numeric w value of the kind: a vector is 0, a point is 1.
    pub fn to_int(w: W) -> (r: isize)
        ensures
            r == (if w == W::Vector {
                0int
            } else {
                1int
            }),
    {
        match w {
            W::Vector => 0,
            W::Point => 1,
        }
    }
}

} // verus!
