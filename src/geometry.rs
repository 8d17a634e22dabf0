//! Points, directions, texture coordinates and the six fixed face templates.
use vstd::prelude::*;

verus! {

/// A vertex position in half units: the world coordinate is each field divided by two.
#[derive(Clone, Copy, Debug, PartialEq, Eq, Structural)]
pub struct Point {
    pub x: i64,
    pub y: i64,
    pub z: i64,
}

/// A unit axis direction (a face normal), in whole units.
#[derive(Clone, Copy, Debug, PartialEq, Eq, Structural)]
pub struct Normal {
    pub x: i8,
    pub y: i8,
    pub z: i8,
}

/// A texture coordinate on the unit square, in whole units.
#[derive(Clone, Copy, Debug, PartialEq, Eq, Structural)]
pub struct Uv {
    pub u: u8,
    pub v: u8,
}

/// Face facing +y.
pub const TOP: usize = 0;
/// Face facing -y.
pub const BOTTOM: usize = 1;
/// Face facing +x.
pub const RIGHT: usize = 2;
/// Face facing -x.
pub const LEFT: usize = 3;
/// Face facing +z.
pub const BACK: usize = 4;
/// Face facing -z.
pub const FRONT: usize = 5;
/// Number of faces of a cube.
pub const FACE_COUNT: usize = 6;

/// The point with coordinates `(x, y, z)`, in half units.
pub open spec fn pt(x: i64, y: i64, z: i64) -> Point {
    Point { x, y, z }
}

/// Corner `i` (of four) of face `f`, in the order in which corners are emitted.
pub open spec fn face_corner(f: int, i: int) -> Point {
    if f == 0 {
        if i == 0 {
            pt(-1i64, 1i64, -1i64)
        } else if i == 1 {
            pt(1i64, 1i64, -1i64)
        } else if i == 2 {
            pt(1i64, 1i64, 1i64)
        } else {
            pt(-1i64, 1i64, 1i64)
        }
    } else if f == 1 {
        if i == 0 {
            pt(-1i64, -1i64, -1i64)
        } else if i == 1 {
            pt(1i64, -1i64, -1i64)
        } else if i == 2 {
            pt(1i64, -1i64, 1i64)
        } else {
            pt(-1i64, -1i64, 1i64)
        }
    } else if f == 2 {
        if i == 0 {
            pt(1i64, -1i64, -1i64)
        } else if i == 1 {
            pt(1i64, -1i64, 1i64)
        } else if i == 2 {
            pt(1i64, 1i64, 1i64)
        } else {
            pt(1i64, 1i64, -1i64)
        }
    } else if f == 3 {
        if i == 0 {
            pt(-1i64, -1i64, -1i64)
        } else if i == 1 {
            pt(-1i64, -1i64, 1i64)
        } else if i == 2 {
            pt(-1i64, 1i64, 1i64)
        } else {
            pt(-1i64, 1i64, -1i64)
        }
    } else if f == 4 {
        if i == 0 {
            pt(-1i64, -1i64, 1i64)
        } else if i == 1 {
            pt(-1i64, 1i64, 1i64)
        } else if i == 2 {
            pt(1i64, 1i64, 1i64)
        } else {
            pt(1i64, -1i64, 1i64)
        }
    } else {
        if i == 0 {
            pt(-1i64, -1i64, -1i64)
        } else if i == 1 {
            pt(-1i64, 1i64, -1i64)
        } else if i == 2 {
            pt(1i64, 1i64, -1i64)
        } else {
            pt(1i64, -1i64, -1i64)
        }
    }
}

/// The four corners of face `f`.
pub open spec fn face_corners(f: int) -> Seq<Point> {
    Seq::new(4, |i: int| face_corner(f, i))
}

/// The outward unit normal of face `f`.
pub open spec fn face_normal(f: int) -> Normal {
    if f == 0 {
        Normal { x: 0, y: 1, z: 0 }
    } else if f == 1 {
        Normal { x: 0, y: -1i8, z: 0 }
    } else if f == 2 {
        Normal { x: 1, y: 0, z: 0 }
    } else if f == 3 {
        Normal { x: -1i8, y: 0, z: 0 }
    } else if f == 4 {
        Normal { x: 0, y: 0, z: 1 }
    } else {
        Normal { x: 0, y: 0, z: -1i8 }
    }
}

/// The texture coordinate of corner `i` of any face.
pub open spec fn corner_uv(i: int) -> Uv {
    if i == 0 {
        Uv { u: 0, v: 0 }
    } else if i == 1 {
        Uv { u: 0, v: 1 }
    } else if i == 2 {
        Uv { u: 1, v: 1 }
    } else {
        Uv { u: 1, v: 0 }
    }
}

/// The texture coordinates of a face's four corners (the same for every face).
pub open spec fn face_uvs() -> Seq<Uv> {
    Seq::new(4, |i: int| corner_uv(i))
}

/// Entry `k` (of six) of the two triangles of face `f`, as an index into its
/// four corners. Faces towards +y, +x and +z share one pattern, the others the mirror one.
pub open spec fn face_index(f: int, k: int) -> u32 {
    if f == 0 || f == 2 || f == 4 {
        if k == 0 { 0 } else if k == 1 { 3 } else if k == 2 { 1 } else if k == 3 { 1 } else if k == 4 { 3 } else { 2 }
    } else {
        if k == 0 { 0 } else if k == 1 { 1 } else if k == 2 { 3 } else if k == 3 { 1 } else if k == 4 { 2 } else { 3 }
    }
}

/// The two triangles of face `f`, as indices into its four corners.
pub open spec fn face_indices(f: int) -> Seq<u32> {
    Seq::new(6, |k: int| face_index(f, k))
}

/// The geometry of one face, before it is placed in a fragment.
#[derive(Clone, Debug)]
pub struct FaceTemplate {
    pub positions: Vec<Point>,
    pub normals: Vec<Normal>,
    pub uvs: Vec<Uv>,
    pub indices: Vec<u32>,
}

fn corner(x: i64, y: i64, z: i64) -> (p: Point)
    ensures
        p == (Point { x, y, z }),
{
    Point { x, y, z }
}

/// Builds a fresh copy of the template of face `f`.
pub fn face_template(f: usize) -> (t: FaceTemplate)
    requires
        f < FACE_COUNT,
    ensures
        t.positions@ == face_corners(f as int),
        t.normals@ == Seq::new(4, |_i: int| face_normal(f as int)),
        t.uvs@ == face_uvs(),
        t.indices@ == face_indices(f as int),
{
    let positions = if f == TOP {
        vec![corner(-1, 1, -1), corner(1, 1, -1), corner(1, 1, 1), corner(-1, 1, 1)]
    } else if f == BOTTOM {
        vec![corner(-1, -1, -1), corner(1, -1, -1), corner(1, -1, 1), corner(-1, -1, 1)]
    } else if f == RIGHT {
        vec![corner(1, -1, -1), corner(1, -1, 1), corner(1, 1, 1), corner(1, 1, -1)]
    } else if f == LEFT {
        vec![corner(-1, -1, -1), corner(-1, -1, 1), corner(-1, 1, 1), corner(-1, 1, -1)]
    } else if f == BACK {
        vec![corner(-1, -1, 1), corner(-1, 1, 1), corner(1, 1, 1), corner(1, -1, 1)]
    } else {
        vec![corner(-1, -1, -1), corner(-1, 1, -1), corner(1, 1, -1), corner(1, -1, -1)]
    };
    let n = if f == TOP {
        Normal { x: 0, y: 1, z: 0 }
    } else if f == BOTTOM {
        Normal { x: 0, y: -1, z: 0 }
    } else if f == RIGHT {
        Normal { x: 1, y: 0, z: 0 }
    } else if f == LEFT {
        Normal { x: -1, y: 0, z: 0 }
    } else if f == BACK {
        Normal { x: 0, y: 0, z: 1 }
    } else {
        Normal { x: 0, y: 0, z: -1 }
    };
    let uvs = vec![Uv { u: 0, v: 0 }, Uv { u: 0, v: 1 }, Uv { u: 1, v: 1 }, Uv { u: 1, v: 0 }];
    let indices = if f == TOP || f == RIGHT || f == BACK {
        vec![0u32, 3, 1, 1, 3, 2]
    } else {
        vec![0u32, 1, 3, 1, 2, 3]
    };
    let t = FaceTemplate { positions, normals: vec![n, n, n, n], uvs, indices };
    assert(t.positions@ =~= face_corners(f as int));
    assert(t.normals@ =~= Seq::new(4, |_i: int| face_normal(f as int)));
    assert(t.uvs@ =~= face_uvs());
    assert(t.indices@ =~= face_indices(f as int));
    t
}

} // verus!
