//! The cube face builder: a mesh fragment holding only the enabled faces of one cube.
use vstd::prelude::*;
use crate::geometry::{pt, face_corner, face_index, face_template, face_corners, face_indices, face_normal, face_uvs, Normal, Point, Uv, FACE_COUNT};

verus! {

/// The contents of a mesh buffer, as sequences.
pub struct MeshView {
    pub positions: Seq<Point>,
    pub normals: Seq<Normal>,
    pub uvs: Seq<Uv>,
    pub indices: Seq<u32>,
}

impl MeshView {
    /// Every index names a vertex, and the three vertex arrays have one entry per vertex.
    pub open spec fn indices_valid(self) -> bool {
        &&& self.normals.len() == self.positions.len()
        &&& self.uvs.len() == self.positions.len()
        &&& forall|i: int| 0 <= i < self.indices.len() ==> self.indices[i] < self.positions.len()
    }

    /// The invariant of a single cube's fragment: valid indices, whole faces
    /// (four vertices and six indices each), and positions inside the cube.
    pub open spec fn fragment_wf(self) -> bool {
        &&& self.indices_valid()
        &&& self.positions.len() % 4 == 0
        &&& self.indices.len() % 6 == 0
        &&& forall|i: int|
            0 <= i < self.positions.len() ==> {
                let p = #[trigger] self.positions[i];
                -1 <= p.x <= 1 && -1 <= p.y <= 1 && -1 <= p.z <= 1
            }
    }
}

/// The mesh fragment of one cube: only the faces that were enabled.
#[derive(Clone, Debug)]
pub struct Cube {
    pub positions: Vec<Point>,
    pub normals: Vec<Normal>,
    pub uvs: Vec<Uv>,
    pub indices: Vec<u32>,
}

impl View for Cube {
    type V = MeshView;

    open spec fn view(&self) -> MeshView {
        MeshView {
            positions: self.positions@,
            normals: self.normals@,
            uvs: self.uvs@,
            indices: self.indices@,
        }
    }
}

/// The set of faces named by the argument of `generate_cube`.
pub open spec fn requested(enabled_faces: Option<Vec<usize>>) -> Set<usize> {
    match enabled_faces {
        Some(v) => v@.to_set(),
        None => Set::empty(),
    }
}

/// The argument of `generate_cube` names only faces that exist.
pub open spec fn faces_exist(enabled_faces: Option<Vec<usize>>) -> bool {
    forall|f: usize| requested(enabled_faces).contains(f) ==> f < FACE_COUNT
}

/// The faces of `s` below `n`, in increasing order.
pub open spec fn faces_below(s: Set<usize>, n: nat) -> Seq<usize>
    decreases n,
{
    if n == 0 {
        seq![]
    } else {
        let earlier = faces_below(s, (n - 1) as nat);
        if s.contains((n - 1) as usize) {
            earlier.push((n - 1) as usize)
        } else {
            earlier
        }
    }
}

/// The order in which the faces of `s` are emitted: top, bottom, right, left, back, front.
pub open spec fn face_order(s: Set<usize>) -> Seq<usize> {
    faces_below(s, FACE_COUNT as nat)
}

/// The fragment made of the faces `fl`, in that order: face `k` owns vertices
/// `4k..4k+4` and indices `6k..6k+6`, and its indices are offset by `4k`.
pub open spec fn cube_model(fl: Seq<usize>) -> MeshView {
    MeshView {
        positions: Seq::new(4 * fl.len(), |i: int| face_corners(fl[i / 4] as int)[i % 4]),
        normals: Seq::new(4 * fl.len(), |i: int| face_normal(fl[i / 4] as int)),
        uvs: Seq::new(4 * fl.len(), |i: int| face_uvs()[i % 4]),
        indices: Seq::new(
            6 * fl.len(),
            |i: int| (4 * (i / 6) + face_indices(fl[i / 6] as int)[i % 6]) as u32,
        ),
    }
}

/// The faces of `s` below `n` are listed once each, in increasing order.
pub proof fn lemma_faces_below(s: Set<usize>, n: nat)
    requires
        n <= usize::MAX,
    ensures
        faces_below(s, n).len() <= n,
        forall|k: int|
            0 <= k < faces_below(s, n).len() ==> #[trigger] faces_below(s, n)[k] < n && s.contains(
                faces_below(s, n)[k],
            ),
        forall|k1: int, k2: int|
            0 <= k1 < k2 < faces_below(s, n).len() ==> faces_below(s, n)[k1] < faces_below(s, n)[k2],
        forall|g: usize| g < n && s.contains(g) ==> faces_below(s, n).contains(g),
    decreases n,
{
    if n > 0 {
        lemma_faces_below(s, (n - 1) as nat);
        let earlier = faces_below(s, (n - 1) as nat);
        if s.contains((n - 1) as usize) {
            assert(faces_below(s, n)[earlier.len() as int] == (n - 1) as usize);
        }
        assert forall|g: usize| g < n && s.contains(g) implies faces_below(s, n).contains(g) by {
            if g < n - 1 {
                let i = choose|i: int| 0 <= i < earlier.len() && earlier[i] == g;
                assert(faces_below(s, n)[i] == g);
            }
        }
    }
}

/// The emission order of a set of faces lists exactly that set, once each.
pub proof fn lemma_face_order_set(s: Set<usize>)
    requires
        forall|f: usize| s.contains(f) ==> f < FACE_COUNT,
    ensures
        face_order(s).to_set() == s,
        face_order(s).no_duplicates(),
{
    let fl = face_order(s);
    lemma_faces_below(s, FACE_COUNT as nat);
    assert forall|a: int, b: int| 0 <= a < fl.len() && 0 <= b < fl.len() && a != b implies fl[a]
        != fl[b] by {
        if a < b {
        } else {
        }
    }
    assert(fl.to_set() =~= s) by {
        assert forall|g: usize| s.contains(g) implies fl.to_set().contains(g) by {
            assert(g < FACE_COUNT);
        }
    }
}

/// A fragment built from faces that exist meets the fragment invariant.
proof fn lemma_cube_model_wf(fl: Seq<usize>)
    requires
        forall|k: int| 0 <= k < fl.len() ==> fl[k] < FACE_COUNT,
    ensures
        cube_model(fl).fragment_wf(),
{
    let m = cube_model(fl);
    let n = fl.len() as int;
    assert forall|i: int| 0 <= i < m.indices.len() implies m.indices[i] < m.positions.len() by {
        vstd::arithmetic::div_mod::lemma_fundamental_div_mod(i, 6);
        assert(i / 6 < n);
        assert(0 <= i % 6 < 6);
    }
    assert forall|i: int| 0 <= i < m.positions.len() implies {
        let p = #[trigger] m.positions[i];
        -1 <= p.x <= 1 && -1 <= p.y <= 1 && -1 <= p.z <= 1
    } by {
        vstd::arithmetic::div_mod::lemma_fundamental_div_mod(i, 4);
        assert(i / 4 < n);
        assert(0 <= i % 4 < 4);
    }
    assert((4 * n) % 4 == 0) by (nonlinear_arith);
    assert((6 * n) % 6 == 0) by (nonlinear_arith);
}

/// Appending face `f` to a fragment appends its template, with indices offset by
/// the vertices already there.
proof fn lemma_cube_model_push(fl: Seq<usize>, f: usize)
    requires
        f < FACE_COUNT,
    ensures
        ({
            let before = cube_model(fl);
            let after = cube_model(fl.push(f));
            let base = 4 * fl.len();
            &&& after.positions == before.positions + face_corners(f as int)
            &&& after.normals == before.normals + Seq::new(4, |_i: int| face_normal(f as int))
            &&& after.uvs == before.uvs + face_uvs()
            &&& after.indices == before.indices + face_indices(f as int).map_values(
                |i: u32| (i + base) as u32,
            )
        }),
{
    let before = cube_model(fl);
    let after = cube_model(fl.push(f));
    let n = fl.len() as int;
    assert forall|i: int| 0 <= i < 4 * n + 4 implies #[trigger] fl.push(f)[i / 4] == (if i < 4 * n {
        fl[i / 4]
    } else {
        f
    }) && i % 4 == (if i < 4 * n {
        i % 4
    } else {
        i - 4 * n
    }) by {
        if i >= 4 * n {
            vstd::arithmetic::div_mod::lemma_fundamental_div_mod_converse(i, 4, n, i - 4 * n);
        } else {
            vstd::arithmetic::div_mod::lemma_fundamental_div_mod(i, 4);
        }
    }
    assert forall|i: int| 0 <= i < 6 * n + 6 implies #[trigger] fl.push(f)[i / 6] == (if i < 6 * n {
        fl[i / 6]
    } else {
        f
    }) && i / 6 == (if i < 6 * n {
        i / 6
    } else {
        n
    }) && i % 6 == (if i < 6 * n {
        i % 6
    } else {
        i - 6 * n
    }) by {
        if i >= 6 * n {
            vstd::arithmetic::div_mod::lemma_fundamental_div_mod_converse(i, 6, n, i - 6 * n);
        } else {
            vstd::arithmetic::div_mod::lemma_fundamental_div_mod(i, 6);
        }
    }
    assert(after.positions =~= before.positions + face_corners(f as int));
    assert(after.normals =~= before.normals + Seq::new(4, |_i: int| face_normal(f as int)));
    assert(after.uvs =~= before.uvs + face_uvs());
    assert(after.indices =~= before.indices + face_indices(f as int).map_values(
        |i: u32| (i + 4 * n) as u32,
    ));
}


/// Builds the fragment of one cube holding the faces named in `enabled_faces`
/// (none when it is `None`), in the order top, bottom, right, left, back, front.
/// A face named twice is emitted once.
pub fn generate_cube(enabled_faces: Option<Vec<usize>>) -> (c: Cube)
    requires
        faces_exist(enabled_faces),
    ensures
        c@ == cube_model(face_order(requested(enabled_faces))),
        c@.fragment_wf(),
{
    let ghost s = requested(enabled_faces);
    let mut enabled: Vec<bool> = Vec::new();
    let mut f: usize = 0;
    while f < FACE_COUNT
        invariant
            f <= FACE_COUNT,
            enabled@ == Seq::new(f as nat, |_i: int| false),
        decreases FACE_COUNT - f,
    {
        enabled.push(false);
        f = f + 1;
        assert(enabled@ =~= Seq::new(f as nat, |_i: int| false));
    }
    if let Some(faces) = enabled_faces {
        let mut k: usize = 0;
        while k < faces.len()
            invariant
                k <= faces.len(),
                s == faces@.to_set(),
                forall|g: usize| s.contains(g) ==> g < FACE_COUNT,
                enabled.len() == FACE_COUNT,
                forall|g: int|
                    0 <= g < FACE_COUNT ==> #[trigger] enabled@[g] == faces@.take(
                        k as int,
                    ).contains(g as usize),
            decreases faces.len() - k,
        {
            let face = faces[k];
            assert(s.contains(face));
            enabled.set(face, true);
            assert forall|g: int| 0 <= g < FACE_COUNT implies #[trigger] enabled@[g] == faces@.take(
                k + 1,
            ).contains(g as usize) by {
                let a = faces@.take(k as int);
                let b = faces@.take(k + 1);
                assert(b =~= a.push(face));
                if g as usize == face {
                    assert(b[k as int] == face);
                } else {
                    if b.contains(g as usize) {
                        let i = choose|i: int| 0 <= i < b.len() && b[i] == g as usize;
                        assert(a[i] == g as usize);
                    }
                    if a.contains(g as usize) {
                        let i = choose|i: int| 0 <= i < a.len() && a[i] == g as usize;
                        assert(b[i] == g as usize);
                    }
                }
            }
            k = k + 1;
        }
        proof {
            assert(faces@.take(k as int) =~= faces@);
        }
    }
    assert forall|g: int| 0 <= g < FACE_COUNT implies #[trigger] enabled@[g] == s.contains(
        g as usize,
    ) by {}
    let mut positions: Vec<Point> = Vec::new();
    let mut normals: Vec<Normal> = Vec::new();
    let mut uvs: Vec<Uv> = Vec::new();
    let mut indices: Vec<u32> = Vec::new();
    let mut f: usize = 0;
    while f < FACE_COUNT
        invariant
            f <= FACE_COUNT,
            enabled.len() == FACE_COUNT,
            forall|g: int| 0 <= g < FACE_COUNT ==> #[trigger] enabled@[g] == s.contains(g as usize),
            faces_below(s, f as nat).len() <= f,
            positions@ == cube_model(faces_below(s, f as nat)).positions,
            normals@ == cube_model(faces_below(s, f as nat)).normals,
            uvs@ == cube_model(faces_below(s, f as nat)).uvs,
            indices@ == cube_model(faces_below(s, f as nat)).indices,
        decreases FACE_COUNT - f,
    {
        let ghost fl = faces_below(s, f as nat);
        if enabled[f] {
            let mut t = face_template(f);
            proof {
                lemma_cube_model_push(fl, f);
            }
            let base = positions.len() as u32;
            positions.append(&mut t.positions);
            normals.append(&mut t.normals);
            uvs.append(&mut t.uvs);
            let ghost start = indices@;
            let mut j: usize = 0;
            while j < t.indices.len()
                invariant
                    j <= t.indices.len(),
                    t.indices@ == face_indices(f as int),
                    base == 4 * fl.len(),
                    fl.len() <= 5,
                    indices@ == start + face_indices(f as int).map_values(
                        |i: u32| (i + base) as u32,
                    ).take(j as int),
                decreases t.indices.len() - j,
            {
                indices.push(t.indices[j] + base);
                j = j + 1;
                assert(indices@ =~= start + face_indices(f as int).map_values(
                    |i: u32| (i + base) as u32,
                ).take(j as int));
            }
            assert(face_indices(f as int).map_values(|i: u32| (i + base) as u32).take(6)
                =~= face_indices(f as int).map_values(|i: u32| (i + base) as u32));
        }
        f = f + 1;
    }
    let c = Cube { positions, normals, uvs, indices };
    proof {
        lemma_faces_below(s, FACE_COUNT as nat);
        lemma_cube_model_wf(face_order(s));
    }
    c
}


/// Twice the area vector of the triangle `a, b, c`: the cross product of its edges `b - a` and `c - a`.
pub open spec fn triangle_cross(a: Point, b: Point, c: Point) -> (int, int, int) {
    (
        (b.y - a.y) * (c.z - a.z) - (b.z - a.z) * (c.y - a.y),
        (b.z - a.z) * (c.x - a.x) - (b.x - a.x) * (c.z - a.z),
        (b.x - a.x) * (c.y - a.y) - (b.y - a.y) * (c.x - a.x),
    )
}

/// `n` is one of the six unit axis directions.
pub open spec fn is_unit_axis(n: Normal) -> bool {
    n.x * n.x + n.y * n.y + n.z * n.z == 1
}

/// A fragment has four vertices and six indices per requested face, and every index names a vertex.
pub proof fn law_cube_sizes(enabled_faces: Option<Vec<usize>>)
    requires
        faces_exist(enabled_faces),
    ensures
        ({
            let m = cube_model(face_order(requested(enabled_faces)));
            &&& m.positions.len() == 4 * requested(enabled_faces).len()
            &&& m.normals.len() == 4 * requested(enabled_faces).len()
            &&& m.uvs.len() == 4 * requested(enabled_faces).len()
            &&& m.indices.len() == 6 * requested(enabled_faces).len()
            &&& forall|i: int| 0 <= i < m.indices.len() ==> m.indices[i] < m.positions.len()
        }),
{
    let s = requested(enabled_faces);
    let fl = face_order(s);
    lemma_faces_below(s, FACE_COUNT as nat);
    lemma_cube_model_wf(fl);
    lemma_face_order_set(s);
    fl.unique_seq_to_set();
}

/// A cube with one face enabled has four vertices, all carrying that face's
/// normal; the normal is a unit axis direction and points away from the cube's
/// centre, to the plane in which the face's corners lie.
pub proof fn law_single_face_normals(f: usize)
    requires
        f < FACE_COUNT,
    ensures
        ({
            let m = cube_model(face_order(Set::empty().insert(f)));
            let n = face_normal(f as int);
            &&& m.normals.len() == 4
            &&& forall|i: int| 0 <= i < 4 ==> m.normals[i] == n
            &&& is_unit_axis(n)
            &&& forall|i: int|
                0 <= i < 4 ==> m.positions[i].x * n.x + m.positions[i].y * n.y + m.positions[i].z
                    * n.z == 1
        }),
{
    let s = Set::empty().insert(f);
    let fl = face_order(s);
    lemma_faces_below(s, FACE_COUNT as nat);
    assert(s.contains(f));
    assert(fl.contains(f));
    assert(fl.len() == 1) by {
        if fl.len() > 1 {
            assert(fl[0] < fl[1]);
        }
    }
    assert(fl[0] == f);
    let m = cube_model(fl);
    lemma_face_table(f as int);
    assert forall|i: int| 0 <= i < 4 implies #[trigger] m.positions[i] == face_corners(
        f as int,
    )[i] && m.normals[i] == face_normal(f as int) by {
        vstd::arithmetic::div_mod::lemma_fundamental_div_mod_converse(i, 4, 0, i);
    }
}

/// The cross product of the edges of triangle `r` (0 or 1) of face `f`.
spec fn face_triangle_cross(f: int, r: int) -> (int, int, int) {
    triangle_cross(
        face_corner(f, face_index(f, 3 * r) as int),
        face_corner(f, face_index(f, 3 * r + 1) as int),
        face_corner(f, face_index(f, 3 * r + 2) as int),
    )
}

/// The normal of face `f` scaled by `k`.
spec fn scaled_normal(f: int, k: int) -> (int, int, int) {
    (k * face_normal(f).x, k * face_normal(f).y, k * face_normal(f).z)
}

/// How far corner `i` of face `f` lies out along the face's normal, in half units.
spec fn corner_depth(f: int, i: int) -> int {
    let (c, n) = (face_corner(f, i), face_normal(f));
    c.x * n.x + c.y * n.y + c.z * n.z
}

/// The two triangles and the four corners of face `f`, checked one by one.
proof fn lemma_face_entries(f: int)
    requires
        0 <= f < FACE_COUNT,
    ensures
        face_triangle_cross(f, 0) == scaled_normal(f, 4),
        face_triangle_cross(f, 1) == scaled_normal(f, 4),
        corner_depth(f, 0) == 1,
        corner_depth(f, 1) == 1,
        corner_depth(f, 2) == 1,
        corner_depth(f, 3) == 1,
        is_unit_axis(face_normal(f)),
{
    if f == 0 {
        assert(triangle_cross(
            pt(-1i64, 1i64, -1i64),
            pt(-1i64, 1i64, 1i64),
            pt(1i64, 1i64, -1i64),
        ) == (0int, 4int, 0int)) by (nonlinear_arith);
        assert(triangle_cross(
            pt(1i64, 1i64, -1i64),
            pt(-1i64, 1i64, 1i64),
            pt(1i64, 1i64, 1i64),
        ) == (0int, 4int, 0int)) by (nonlinear_arith);
    } else if f == 1 {
        assert(triangle_cross(
            pt(-1i64, -1i64, -1i64),
            pt(1i64, -1i64, -1i64),
            pt(-1i64, -1i64, 1i64),
        ) == (0int, -4int, 0int)) by (nonlinear_arith);
        assert(triangle_cross(
            pt(1i64, -1i64, -1i64),
            pt(1i64, -1i64, 1i64),
            pt(-1i64, -1i64, 1i64),
        ) == (0int, -4int, 0int)) by (nonlinear_arith);
    } else if f == 2 {
        assert(triangle_cross(
            pt(1i64, -1i64, -1i64),
            pt(1i64, 1i64, -1i64),
            pt(1i64, -1i64, 1i64),
        ) == (4int, 0int, 0int)) by (nonlinear_arith);
        assert(triangle_cross(
            pt(1i64, -1i64, 1i64),
            pt(1i64, 1i64, -1i64),
            pt(1i64, 1i64, 1i64),
        ) == (4int, 0int, 0int)) by (nonlinear_arith);
    } else if f == 3 {
        assert(triangle_cross(
            pt(-1i64, -1i64, -1i64),
            pt(-1i64, -1i64, 1i64),
            pt(-1i64, 1i64, -1i64),
        ) == (-4int, 0int, 0int)) by (nonlinear_arith);
        assert(triangle_cross(
            pt(-1i64, -1i64, 1i64),
            pt(-1i64, 1i64, 1i64),
            pt(-1i64, 1i64, -1i64),
        ) == (-4int, 0int, 0int)) by (nonlinear_arith);
    } else if f == 4 {
        assert(triangle_cross(
            pt(-1i64, -1i64, 1i64),
            pt(1i64, -1i64, 1i64),
            pt(-1i64, 1i64, 1i64),
        ) == (0int, 0int, 4int)) by (nonlinear_arith);
        assert(triangle_cross(
            pt(-1i64, 1i64, 1i64),
            pt(1i64, -1i64, 1i64),
            pt(1i64, 1i64, 1i64),
        ) == (0int, 0int, 4int)) by (nonlinear_arith);
    } else {
        assert(triangle_cross(
            pt(-1i64, -1i64, -1i64),
            pt(-1i64, 1i64, -1i64),
            pt(1i64, -1i64, -1i64),
        ) == (0int, 0int, -4int)) by (nonlinear_arith);
        assert(triangle_cross(
            pt(-1i64, 1i64, -1i64),
            pt(1i64, 1i64, -1i64),
            pt(1i64, -1i64, -1i64),
        ) == (0int, 0int, -4int)) by (nonlinear_arith);
    }
}

/// Facts of the face table: the normal is a unit axis direction, every corner
/// lies one half unit out along it, and each triangle's corners turn
/// counter-clockwise seen from outside.
proof fn lemma_face_table(f: int)
    requires
        0 <= f < FACE_COUNT,
    ensures
        face_corners(f).len() == 4,
        face_indices(f).len() == 6,
        is_unit_axis(face_normal(f)),
        forall|k: int| 0 <= k < 6 ==> #[trigger] face_indices(f)[k] < 4,
        forall|i: int|
            0 <= i < 4 ==> (#[trigger] face_corners(f)[i]).x * face_normal(f).x + face_corners(
                f,
            )[i].y * face_normal(f).y + face_corners(f)[i].z * face_normal(f).z == 1,
        forall|r: int|
            0 <= r < 2 ==> {
                let c = face_corners(f);
                let ix = face_indices(f);
                let n = face_normal(f);
                triangle_cross(
                    c[ix[3 * r] as int],
                    c[ix[3 * r + 1] as int],
                    c[ix[#[trigger] (3 * r + 2)] as int],
                ) == (4 * n.x, 4 * n.y, 4 * n.z)
            },
{
    lemma_face_entries(f);
    assert forall|k: int| 0 <= k < 6 implies #[trigger] face_indices(f)[k] < 4 by {
        if f == 0 || f == 2 || f == 4 {
        } else {
        }
    }
    assert forall|r: int| 0 <= r < 2 implies {
        let c = face_corners(f);
        let ix = face_indices(f);
        let n = face_normal(f);
        triangle_cross(c[ix[3 * r] as int], c[ix[3 * r + 1] as int], c[ix[#[trigger] (3 * r + 2)] as int])
            == (4 * n.x, 4 * n.y, 4 * n.z)
    } by {
        assert(face_indices(f)[3 * r] < 4);
        assert(face_indices(f)[3 * r + 1] < 4);
        assert(face_indices(f)[3 * r + 2] < 4);
    }
}

/// Every triangle of every fragment faces outward: its three vertices share one
/// normal, and the cross product of its edges is that normal scaled by four
/// (positions being in half units, the triangle's legs have length two).
pub proof fn law_winding_outward(enabled_faces: Option<Vec<usize>>, t: int)
    requires
        faces_exist(enabled_faces),
        0 <= t,
        3 * t + 2 < cube_model(face_order(requested(enabled_faces))).indices.len(),
    ensures
        ({
            let m = cube_model(face_order(requested(enabled_faces)));
            let (a, b, c) = (
                m.indices[3 * t] as int,
                m.indices[3 * t + 1] as int,
                m.indices[3 * t + 2] as int,
            );
            let n = m.normals[a];
            &&& m.normals[b] == n
            &&& m.normals[c] == n
            &&& triangle_cross(m.positions[a], m.positions[b], m.positions[c]) == (
                4 * n.x,
                4 * n.y,
                4 * n.z,
            )
        }),
{
    let s = requested(enabled_faces);
    let fl = face_order(s);
    let m = cube_model(fl);
    lemma_faces_below(s, FACE_COUNT as nat);
    let k = t / 2;
    let r = t % 2;
    vstd::arithmetic::div_mod::lemma_fundamental_div_mod(t, 2);
    assert(k < fl.len());
    let f = fl[k] as int;
    assert forall|j: int| 0 <= j < 3 implies {
        let l = face_indices(f)[3 * r + j] as int;
        &&& #[trigger] m.indices[3 * t + j] as int == 4 * k + l
        &&& m.positions[4 * k + l] == face_corners(f)[l]
        &&& m.normals[4 * k + l] == face_normal(f)
    } by {
        lemma_face_table(f);
        vstd::arithmetic::div_mod::lemma_fundamental_div_mod_converse(3 * t + j, 6, k, 3 * r + j);
        let l = face_indices(f)[3 * r + j] as int;
        vstd::arithmetic::div_mod::lemma_fundamental_div_mod_converse(4 * k + l, 4, k, l);
    }
    lemma_face_table(f);
    assert(3 * r + 2 == 3 * r + 2);
}

/// Requests that name the same faces, in any order and with any repetition,
/// give the same fragment: building is a function of the set of faces alone.
pub proof fn law_same_faces_same_cube(e1: Option<Vec<usize>>, e2: Option<Vec<usize>>)
    requires
        requested(e1) == requested(e2),
    ensures
        cube_model(face_order(requested(e1))) == cube_model(face_order(requested(e2))),
{
}

} // verus!
