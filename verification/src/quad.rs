//! Faces of blocks: quads with four corners and a direction.

use crate::geometry::{Axis, Direction, IVec3, Point3};
use vstd::prelude::*;

verus! {

/// The largest block coordinate whose corners still fit a 32-bit position.
pub const MAX_COORD: usize = 0x3fff_ffff;

/// A quad as specifications see it: four corners in half units, in the order
/// in which they are wound, and the direction that the quad faces.
pub struct QuadModel {
    pub c0: Point3,
    pub c1: Point3,
    pub c2: Point3,
    pub c3: Point3,
    pub normal: Direction,
}

/// A rectangular surface patch: one face of a block, or several merged.
#[derive(Clone, Copy, Debug, PartialEq, Eq, Structural)]
pub struct Quad {
    pub c0: IVec3,
    pub c1: IVec3,
    pub c2: IVec3,
    pub c3: IVec3,
    pub normal: Direction,
}

impl View for Quad {
    type V = QuadModel;

    open spec fn view(&self) -> QuadModel {
        QuadModel {
            c0: self.c0@,
            c1: self.c1@,
            c2: self.c2@,
            c3: self.c3@,
            normal: self.normal,
        }
    }
}

/// The quads that a buffer holds, as specifications see them.
pub open spec fn quads_of(s: Seq<Quad>) -> Seq<QuadModel> {
    Seq::new(s.len(), |i: int| s[i]@)
}

/// Taking the view of a buffer commutes with appending a quad to it.
pub proof fn lemma_quads_of_push(s: Seq<Quad>, q: Quad)
    ensures
        quads_of(s.push(q)) == quads_of(s).push(q@),
{
}

/// Where corner `k` of a face with direction `d` lies, seen from the centre of
/// its block, in half units. The corners go round the face anticlockwise for
/// someone who looks at it from outside the block.
pub open spec fn corner_offset(d: Direction, k: int) -> Point3 {
    match d {
        Direction::PlusX => if k == 0 {
            Point3 { x: 1, y: -1, z: -1 }
        } else if k == 1 {
            Point3 { x: 1, y: 1, z: -1 }
        } else if k == 2 {
            Point3 { x: 1, y: 1, z: 1 }
        } else {
            Point3 { x: 1, y: -1, z: 1 }
        },
        Direction::MinusX => if k == 0 {
            Point3 { x: -1, y: 1, z: 1 }
        } else if k == 1 {
            Point3 { x: -1, y: 1, z: -1 }
        } else if k == 2 {
            Point3 { x: -1, y: -1, z: -1 }
        } else {
            Point3 { x: -1, y: -1, z: 1 }
        },
        Direction::PlusY => if k == 0 {
            Point3 { x: 1, y: 1, z: -1 }
        } else if k == 1 {
            Point3 { x: -1, y: 1, z: -1 }
        } else if k == 2 {
            Point3 { x: -1, y: 1, z: 1 }
        } else {
            Point3 { x: 1, y: 1, z: 1 }
        },
        Direction::MinusY => if k == 0 {
            Point3 { x: -1, y: -1, z: -1 }
        } else if k == 1 {
            Point3 { x: 1, y: -1, z: -1 }
        } else if k == 2 {
            Point3 { x: 1, y: -1, z: 1 }
        } else {
            Point3 { x: -1, y: -1, z: 1 }
        },
        Direction::PlusZ => if k == 0 {
            Point3 { x: -1, y: -1, z: 1 }
        } else if k == 1 {
            Point3 { x: 1, y: -1, z: 1 }
        } else if k == 2 {
            Point3 { x: 1, y: 1, z: 1 }
        } else {
            Point3 { x: -1, y: 1, z: 1 }
        },
        Direction::MinusZ => if k == 0 {
            Point3 { x: -1, y: 1, z: -1 }
        } else if k == 1 {
            Point3 { x: 1, y: 1, z: -1 }
        } else if k == 2 {
            Point3 { x: 1, y: -1, z: -1 }
        } else {
            Point3 { x: -1, y: -1, z: -1 }
        },
    }
}

/// Corner `k` of the face that the block at `(x, y, z)` has in direction `d`.
pub open spec fn face_corner(x: int, y: int, z: int, d: Direction, k: int) -> Point3 {
    Point3 { x: 2 * x, y: 2 * y, z: 2 * z }.plus(corner_offset(d, k))
}

/// The face that the block at `(x, y, z)` has in direction `d`.
pub open spec fn unit_face(x: int, y: int, z: int, d: Direction) -> QuadModel {
    QuadModel {
        c0: face_corner(x, y, z, d, 0),
        c1: face_corner(x, y, z, d, 1),
        c2: face_corner(x, y, z, d, 2),
        c3: face_corner(x, y, z, d, 3),
        normal: d,
    }
}

/// The faces of the block at `(x, y, z)` in the directions `dirs`, in that order.
pub open spec fn cube_faces(x: int, y: int, z: int, dirs: Seq<Direction>) -> Seq<QuadModel> {
    Seq::new(dirs.len(), |k: int| unit_face(x, y, z, dirs[k]))
}

impl QuadModel {
    /// How far the quad reaches from its first corner to its second, in half units.
    pub open spec fn width(self) -> int {
        self.normal.u_of(self.c1) - self.normal.u_of(self.c0)
    }

    /// How far the quad reaches from its first corner to its fourth, in half units.
    pub open spec fn height(self) -> int {
        self.normal.v_of(self.c3) - self.normal.v_of(self.c0)
    }

    /// Four times the area of the quad: its corners are in half units.
    pub open spec fn area4(self) -> int {
        self.width() * self.height()
    }

    /// The quad is a rectangle in a plane across its normal, with sides along
    /// the axes, wound anticlockwise for someone who looks against the normal.
    pub open spec fn is_rectangle(self) -> bool {
        let d = self.normal;
        &&& d.w_of(self.c0) == d.w_of(self.c1) == d.w_of(self.c2) == d.w_of(self.c3)
        &&& d.u_of(self.c0) == d.u_of(self.c3)
        &&& d.u_of(self.c1) == d.u_of(self.c2)
        &&& d.v_of(self.c0) == d.v_of(self.c1)
        &&& d.v_of(self.c3) == d.v_of(self.c2)
        &&& self.width() > 0
        &&& self.height() > 0
    }

    /// Corner `k` of the quad, for `k` from 0 to 3.
    pub open spec fn corner(self, k: int) -> Point3 {
        if k == 0 {
            self.c0
        } else if k == 1 {
            self.c1
        } else if k == 2 {
            self.c2
        } else {
            self.c3
        }
    }
}

/// The face of one block in one direction.
pub fn face_of(x: usize, y: usize, z: usize, d: Direction) -> (q: Quad)
    requires
        x <= MAX_COORD,
        y <= MAX_COORD,
        z <= MAX_COORD,
    ensures
        q@ == unit_face(x as int, y as int, z as int, d),
{
    let cx: i32 = 2 * (x as i32);
    let cy: i32 = 2 * (y as i32);
    let cz: i32 = 2 * (z as i32);
    let (xl, xh): (i32, i32) = (cx - 1, cx + 1);
    let (yl, yh): (i32, i32) = (cy - 1, cy + 1);
    let (zl, zh): (i32, i32) = (cz - 1, cz + 1);
    match d {
        Direction::PlusX => Quad {
            c0: IVec3 { x: xh, y: yl, z: zl },
            c1: IVec3 { x: xh, y: yh, z: zl },
            c2: IVec3 { x: xh, y: yh, z: zh },
            c3: IVec3 { x: xh, y: yl, z: zh },
            normal: d,
        },
        Direction::MinusX => Quad {
            c0: IVec3 { x: xl, y: yh, z: zh },
            c1: IVec3 { x: xl, y: yh, z: zl },
            c2: IVec3 { x: xl, y: yl, z: zl },
            c3: IVec3 { x: xl, y: yl, z: zh },
            normal: d,
        },
        Direction::PlusY => Quad {
            c0: IVec3 { x: xh, y: yh, z: zl },
            c1: IVec3 { x: xl, y: yh, z: zl },
            c2: IVec3 { x: xl, y: yh, z: zh },
            c3: IVec3 { x: xh, y: yh, z: zh },
            normal: d,
        },
        Direction::MinusY => Quad {
            c0: IVec3 { x: xl, y: yl, z: zl },
            c1: IVec3 { x: xh, y: yl, z: zl },
            c2: IVec3 { x: xh, y: yl, z: zh },
            c3: IVec3 { x: xl, y: yl, z: zh },
            normal: d,
        },
        Direction::PlusZ => Quad {
            c0: IVec3 { x: xl, y: yl, z: zh },
            c1: IVec3 { x: xh, y: yl, z: zh },
            c2: IVec3 { x: xh, y: yh, z: zh },
            c3: IVec3 { x: xl, y: yh, z: zh },
            normal: d,
        },
        Direction::MinusZ => Quad {
            c0: IVec3 { x: xl, y: yh, z: zl },
            c1: IVec3 { x: xh, y: yh, z: zl },
            c2: IVec3 { x: xh, y: yl, z: zl },
            c3: IVec3 { x: xl, y: yl, z: zl },
            normal: d,
        },
    }
}

/// Appends the faces of the block at `(x, y, z)` in the directions `vfaces`,
/// in the order in which `vfaces` lists them.
pub fn generate_cube(faces: &mut Vec<Quad>, vfaces: &Vec<Direction>, x: usize, y: usize, z: usize)
    requires
        x <= MAX_COORD,
        y <= MAX_COORD,
        z <= MAX_COORD,
    ensures
        quads_of(final(faces)@) == quads_of(old(faces)@) + cube_faces(
            x as int,
            y as int,
            z as int,
            vfaces@,
        ),
{
    let ghost before = faces@;
    let mut k: usize = 0;
    while k < vfaces.len()
        invariant
            k <= vfaces.len(),
            x <= MAX_COORD,
            y <= MAX_COORD,
            z <= MAX_COORD,
            quads_of(faces@) == quads_of(before) + cube_faces(
                x as int,
                y as int,
                z as int,
                vfaces@.take(k as int),
            ),
        decreases vfaces.len() - k,
    {
        let ghost shorter = faces@;
        let q = face_of(x, y, z, vfaces[k]);
        faces.push(q);
        proof {
            lemma_quads_of_push(shorter, q);
            assert(cube_faces(x as int, y as int, z as int, vfaces@.take(k + 1)) == cube_faces(
                x as int,
                y as int,
                z as int,
                vfaces@.take(k as int),
            ).push(q@));
        }
        k += 1;
    }
    assert(vfaces@.take(k as int) == vfaces@);
}

/// The face of a block is a rectangle one unit wide and one unit high.
pub proof fn lemma_unit_face_is_rectangle(x: int, y: int, z: int, d: Direction)
    ensures
        unit_face(x, y, z, d).is_rectangle(),
        unit_face(x, y, z, d).width() == 2,
        unit_face(x, y, z, d).height() == 2,
        unit_face(x, y, z, d).area4() == 4,
{
}

/// The products of two vectors, written out in their coordinates.
proof fn lemma_edge_products(u: Point3, v: Point3, ux: int, uy: int, uz: int, vx: int, vy: int, vz: int)
    requires
        u == (Point3 { x: ux, y: uy, z: uz }),
        v == (Point3 { x: vx, y: vy, z: vz }),
    ensures
        u.dot(u) == ux * ux + uy * uy + uz * uz,
        v.dot(v) == vx * vx + vy * vy + vz * vz,
        u.dot(v) == ux * vx + uy * vy + uz * vz,
        u.cross(v) == (Point3 {
            x: uy * vz - uz * vy,
            y: uz * vx - ux * vz,
            z: ux * vy - uy * vx,
        }),
{
}

/// Every face of a block is a unit square in the plane of that face: its
/// corners all lie half a unit from the block's centre along the face's
/// axis, on the side that the direction names, and half a unit to either side
/// along the two other axes; the two edges that leave the first corner are one
/// unit long and at right angles, the third corner lies across from the
/// first, and the edges turn anticlockwise round the normal.
pub proof fn lemma_unit_face_is_unit_square(x: int, y: int, z: int, d: Direction)
    ensures
        ({
            let q = unit_face(x, y, z, d);
            let centre = Point3 { x: 2 * x, y: 2 * y, z: 2 * z };
            let u = q.c1.minus(q.c0);
            let v = q.c3.minus(q.c0);
            &&& q.normal == d
            &&& forall|k: int|
                0 <= k < 4 ==> (#[trigger] q.corner(k)).along(d.axis()) == centre.along(d.axis())
                    + d.sign()
            &&& forall|k: int, a: Axis|
                0 <= k < 4 && a != d.axis() ==> {
                    ||| (#[trigger] q.corner(k).along(a)) == centre.along(a) - 1
                    ||| q.corner(k).along(a) == centre.along(a) + 1
                }
            &&& u.dot(u) == 4
            &&& v.dot(v) == 4
            &&& u.dot(v) == 0
            &&& q.c2 == q.c0.plus(u).plus(v)
            &&& u.cross(v) == Point3 {
                x: 4 * d.normal_point().x,
                y: 4 * d.normal_point().y,
                z: 4 * d.normal_point().z,
            }
        }),
{
    let q = unit_face(x, y, z, d);
    assert(q.corner(0) == q.c0 && q.corner(1) == q.c1 && q.corner(2) == q.c2 && q.corner(3)
        == q.c3);
    let u = q.c1.minus(q.c0);
    let v = q.c3.minus(q.c0);
    match d {
        Direction::PlusX => {
            lemma_edge_products(u, v, 0, 2, 0, 0, 0, 2);
        },
        Direction::MinusX => {
            lemma_edge_products(u, v, 0, 0, -2, 0, -2, 0);
        },
        Direction::PlusY => {
            lemma_edge_products(u, v, -2, 0, 0, 0, 0, 2);
        },
        Direction::MinusY => {
            lemma_edge_products(u, v, 2, 0, 0, 0, 0, 2);
        },
        Direction::PlusZ => {
            lemma_edge_products(u, v, 2, 0, 0, 0, 2, 0);
        },
        Direction::MinusZ => {
            lemma_edge_products(u, v, 2, 0, 0, 0, -2, 0);
        },
    }
}

} // verus!
