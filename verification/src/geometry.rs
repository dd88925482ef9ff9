//! Integer vectors and the six face directions of a block.

use vstd::prelude::*;

verus! {

/// A point or vector of the integer lattice, as specifications see it.
pub struct Point3 {
    pub x: int,
    pub y: int,
    pub z: int,
}

/// A vector of three integers: a corner position in half units, or a normal.
#[derive(Clone, Copy, Debug, PartialEq, Eq, Structural)]
pub struct IVec3 {
    pub x: i32,
    pub y: i32,
    pub z: i32,
}

impl View for IVec3 {
    type V = Point3;

    open spec fn view(&self) -> Point3 {
        Point3 { x: self.x as int, y: self.y as int, z: self.z as int }
    }
}

impl IVec3 {
    /// The vector with the given coordinates.
    pub fn new(x: i32, y: i32, z: i32) -> (v: IVec3)
        ensures
            v == (IVec3 { x, y, z }),
    {
        IVec3 { x, y, z }
    }
}

/// One of the three coordinate axes.
#[derive(Clone, Copy, Debug, PartialEq, Eq, Structural)]
pub enum Axis {
    X,
    Y,
    Z,
}

impl Point3 {
    /// The coordinate of this point along `axis`.
    pub open spec fn along(self, axis: Axis) -> int {
        match axis {
            Axis::X => self.x,
            Axis::Y => self.y,
            Axis::Z => self.z,
        }
    }

    /// The difference of two vectors.
    pub open spec fn minus(self, other: Point3) -> Point3 {
        Point3 { x: self.x - other.x, y: self.y - other.y, z: self.z - other.z }
    }

    /// The sum of two vectors.
    pub open spec fn plus(self, other: Point3) -> Point3 {
        Point3 { x: self.x + other.x, y: self.y + other.y, z: self.z + other.z }
    }

    /// The scalar product of two vectors.
    pub open spec fn dot(self, other: Point3) -> int {
        self.x * other.x + self.y * other.y + self.z * other.z
    }

    /// The vector product of two vectors.
    pub open spec fn cross(self, other: Point3) -> Point3 {
        Point3 {
            x: self.y * other.z - self.z * other.y,
            y: self.z * other.x - self.x * other.z,
            z: self.x * other.y - self.y * other.x,
        }
    }
}

/// One of the six directions in which a block has a face.
#[derive(Clone, Copy, Debug, PartialEq, Eq, Structural)]
pub enum Direction {
    PlusX,
    MinusX,
    PlusY,
    MinusY,
    PlusZ,
    MinusZ,
}

impl Direction {
    /// The axis along which this direction points.
    pub open spec fn axis(self) -> Axis {
        match self {
            Direction::PlusX | Direction::MinusX => Axis::X,
            Direction::PlusY | Direction::MinusY => Axis::Y,
            Direction::PlusZ | Direction::MinusZ => Axis::Z,
        }
    }

    /// `1` for a direction that points up its axis, `-1` for one that points down.
    pub open spec fn sign(self) -> int {
        match self {
            Direction::PlusX | Direction::PlusY | Direction::PlusZ => 1,
            Direction::MinusX | Direction::MinusY | Direction::MinusZ => -1,
        }
    }

    /// The coordinate of `p` across the plane of a face with this direction.
    pub open spec fn w_of(self, p: Point3) -> int {
        p.along(self.axis())
    }

    /// The coordinate of `p`, within the plane of a face with this direction,
    /// that grows from the first corner of the face to the second.
    pub open spec fn u_of(self, p: Point3) -> int {
        match self {
            Direction::PlusX => p.y,
            Direction::MinusX => -p.z,
            Direction::PlusY => -p.x,
            Direction::MinusY => p.x,
            Direction::PlusZ => p.x,
            Direction::MinusZ => p.x,
        }
    }

    /// The coordinate of `p`, within the plane of a face with this direction,
    /// that grows from the first corner of the face to the fourth.
    pub open spec fn v_of(self, p: Point3) -> int {
        match self {
            Direction::PlusX => p.z,
            Direction::MinusX => -p.y,
            Direction::PlusY => p.z,
            Direction::MinusY => p.z,
            Direction::PlusZ => p.y,
            Direction::MinusZ => -p.y,
        }
    }

    /// The unit vector that points out of a face with this direction.
    pub open spec fn normal_point(self) -> Point3 {
        match self {
            Direction::PlusX => Point3 { x: 1, y: 0, z: 0 },
            Direction::MinusX => Point3 { x: -1, y: 0, z: 0 },
            Direction::PlusY => Point3 { x: 0, y: 1, z: 0 },
            Direction::MinusY => Point3 { x: 0, y: -1, z: 0 },
            Direction::PlusZ => Point3 { x: 0, y: 0, z: 1 },
            Direction::MinusZ => Point3 { x: 0, y: 0, z: -1 },
        }
    }

    /// The place of this direction in the fixed order in which faces are
    /// looked at: `+X, -X, +Y, -Y, +Z, -Z`.
    pub open spec fn spec_index(self) -> int {
        match self {
            Direction::PlusX => 0,
            Direction::MinusX => 1,
            Direction::PlusY => 2,
            Direction::MinusY => 3,
            Direction::PlusZ => 4,
            Direction::MinusZ => 5,
        }
    }

    /// The direction at place `i` of that order.
    pub open spec fn at(i: int) -> Direction {
        if i == 0 {
            Direction::PlusX
        } else if i == 1 {
            Direction::MinusX
        } else if i == 2 {
            Direction::PlusY
        } else if i == 3 {
            Direction::MinusY
        } else if i == 4 {
            Direction::PlusZ
        } else {
            Direction::MinusZ
        }
    }

    /// The unit normal of a face with this direction.
    pub fn normal(self) -> (n: IVec3)
        ensures
            n@ == self.normal_point(),
    {
        match self {
            Direction::PlusX => IVec3 { x: 1, y: 0, z: 0 },
            Direction::MinusX => IVec3 { x: -1, y: 0, z: 0 },
            Direction::PlusY => IVec3 { x: 0, y: 1, z: 0 },
            Direction::MinusY => IVec3 { x: 0, y: -1, z: 0 },
            Direction::PlusZ => IVec3 { x: 0, y: 0, z: 1 },
            Direction::MinusZ => IVec3 { x: 0, y: 0, z: -1 },
        }
    }

    /// The place of this direction in the fixed order.
    pub fn index(self) -> (i: usize)
        ensures
            i == self.spec_index(),
            i < 6,
    {
        match self {
            Direction::PlusX => 0,
            Direction::MinusX => 1,
            Direction::PlusY => 2,
            Direction::MinusY => 3,
            Direction::PlusZ => 4,
            Direction::MinusZ => 5,
        }
    }

    /// The direction at place `i` of the fixed order, if `i` is below six.
    pub fn from_index(i: usize) -> (d: Option<Direction>)
        ensures
            i < 6 ==> d == Some(Direction::at(i as int)),
            i >= 6 ==> d.is_none(),
    {
        match i {
            0 => Some(Direction::PlusX),
            1 => Some(Direction::MinusX),
            2 => Some(Direction::PlusY),
            3 => Some(Direction::MinusY),
            4 => Some(Direction::PlusZ),
            5 => Some(Direction::MinusZ),
            _ => None,
        }
    }
}

} // verus!
