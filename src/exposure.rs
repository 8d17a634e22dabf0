//! Face enablement from an occupancy grid: a face of a solid cell is emitted
//! only where the neighbouring cell is empty or outside the grid.
use vstd::prelude::*;
use crate::chunk::{chunk_wf, MAX_EXTENT};
use crate::cube::{
    MeshView,
    cube_model, face_order, faces_below, generate_cube, lemma_face_order_set, lemma_faces_below,
    requested, Cube,
};
use crate::geometry::FACE_COUNT;

verus! {

/// Cell `(x, y, z)` lies in the grid and is solid. Cells outside are empty.
pub open spec fn solid_at(occ: Seq<Vec<Vec<bool>>>, x: int, y: int, z: int) -> bool {
    &&& 0 <= x < occ.len()
    &&& 0 <= y < occ[x]@.len()
    &&& 0 <= z < occ[x]@[y]@.len()
    &&& occ[x]@[y]@[z]
}

/// The cell next to `(x, y, z)` across face `f`.
pub open spec fn neighbor(f: int, x: int, y: int, z: int) -> (int, int, int) {
    if f == 0 {
        (x, y + 1, z)
    } else if f == 1 {
        (x, y - 1, z)
    } else if f == 2 {
        (x + 1, y, z)
    } else if f == 3 {
        (x - 1, y, z)
    } else if f == 4 {
        (x, y, z + 1)
    } else {
        (x, y, z - 1)
    }
}

/// Face `f` of cell `(x, y, z)` borders empty space: the cell is solid and its
/// neighbour across `f` is not.
pub open spec fn is_exposed(occ: Seq<Vec<Vec<bool>>>, x: int, y: int, z: int, f: int) -> bool {
    let (nx, ny, nz) = neighbor(f, x, y, z);
    solid_at(occ, x, y, z) && !solid_at(occ, nx, ny, nz)
}

/// The faces of cell `(x, y, z)` that border empty space.
pub open spec fn exposed_set(occ: Seq<Vec<Vec<bool>>>, x: int, y: int, z: int) -> Set<usize> {
    Set::new(|f: usize| f < FACE_COUNT && is_exposed(occ, x, y, z, f as int))
}

/// An occupancy grid whose extents fit the assembler.
pub open spec fn occupancy_fits(occ: Seq<Vec<Vec<bool>>>) -> bool {
    &&& occ.len() <= MAX_EXTENT
    &&& forall|x: int| 0 <= x < occ.len() ==> #[trigger] occ[x]@.len() <= MAX_EXTENT
    &&& forall|x: int, y: int|
        0 <= x < occ.len() && 0 <= y < occ[x]@.len() ==> #[trigger] occ[x]@[y]@.len()
            <= MAX_EXTENT
}

/// Whether cell `(x, y, z)` is solid; any coordinate outside the grid, negative
/// ones included, is empty.
pub fn is_solid(occupancy: &Vec<Vec<Vec<bool>>>, x: i64, y: i64, z: i64) -> (r: bool)
    ensures
        r == solid_at(occupancy@, x as int, y as int, z as int),
{
    if x < 0 || y < 0 || z < 0 {
        return false;
    }
    let (xu, yu, zu) = (x as u64, y as u64, z as u64);
    if xu >= occupancy.len() as u64 {
        return false;
    }
    let plane = &occupancy[xu as usize];
    if yu >= plane.len() as u64 {
        return false;
    }
    let line = &plane[yu as usize];
    if zu >= line.len() as u64 {
        return false;
    }
    line[zu as usize]
}


/// The cell next to `(x, y, z)` across face `f`.
fn neighbor_cell(f: usize, x: i64, y: i64, z: i64) -> (r: (i64, i64, i64))
    requires
        f < FACE_COUNT,
        0 <= x < i64::MAX,
        0 <= y < i64::MAX,
        0 <= z < i64::MAX,
    ensures
        (r.0 as int, r.1 as int, r.2 as int) == neighbor(f as int, x as int, y as int, z as int),
{
    if f == 0 {
        (x, y + 1, z)
    } else if f == 1 {
        (x, y - 1, z)
    } else if f == 2 {
        (x + 1, y, z)
    } else if f == 3 {
        (x - 1, y, z)
    } else if f == 4 {
        (x, y, z + 1)
    } else {
        (x, y, z - 1)
    }
}

/// The faces of cell `(x, y, z)` to emit, in emission order: none for an empty
/// cell or one outside the grid, and for a solid cell each face whose
/// neighbour is empty or outside the grid.
pub fn exposed_faces(occupancy: &Vec<Vec<Vec<bool>>>, x: usize, y: usize, z: usize) -> (faces: Vec<
    usize,
>)
    requires
        occupancy_fits(occupancy@),
    ensures
        faces@ == face_order(exposed_set(occupancy@, x as int, y as int, z as int)),
{
    let ghost occ = occupancy@;
    let ghost s = exposed_set(occ, x as int, y as int, z as int);
    let mut faces: Vec<usize> = Vec::new();
    if !(x < occupancy.len() && y < occupancy[x].len() && z < occupancy[x][y].len()
        && occupancy[x][y][z]) {
        assert(s =~= Set::empty());
        proof {
            lemma_faces_below(s, FACE_COUNT as nat);
            if face_order(s).len() > 0 {
                assert(s.contains(face_order(s)[0]));
            }
            assert(face_order(s) =~= seq![]);
        }
        return faces;
    }
    let (xi, yi, zi) = (x as i64, y as i64, z as i64);
    let mut f: usize = 0;
    while f < FACE_COUNT
        invariant
            occ == occupancy@,
            s == exposed_set(occ, x as int, y as int, z as int),
            solid_at(occ, x as int, y as int, z as int),
            occupancy_fits(occ),
            xi == x,
            yi == y,
            zi == z,
            0 <= x < MAX_EXTENT,
            0 <= y < MAX_EXTENT,
            0 <= z < MAX_EXTENT,
            f <= FACE_COUNT,
            faces@ == faces_below(s, f as nat),
        decreases FACE_COUNT - f,
    {
        let (nx, ny, nz) = neighbor_cell(f, xi, yi, zi);
        if !is_solid(occupancy, nx, ny, nz) {
            assert(s.contains(f));
            faces.push(f);
        } else {
            assert(!s.contains(f));
        }
        f = f + 1;
    }
    faces
}


/// The fragment that cell `(x, y, z)` of an occupancy grid contributes.
pub open spec fn cell_of(occ: Seq<Vec<Vec<bool>>>, x: int, y: int, z: int) -> MeshView {
    cube_model(face_order(exposed_set(occ, x, y, z)))
}

/// The fragment of cell `(x, y, z)`: its exposed faces only.
pub fn exposed_cube(occupancy: &Vec<Vec<Vec<bool>>>, x: usize, y: usize, z: usize) -> (c: Cube)
    requires
        occupancy_fits(occupancy@),
    ensures
        c@ == cell_of(occupancy@, x as int, y as int, z as int),
        c@.fragment_wf(),
{
    let ghost s = exposed_set(occupancy@, x as int, y as int, z as int);
    let faces = exposed_faces(occupancy, x, y, z);
    proof {
        lemma_face_order_set(s);
    }
    let faces = Some(faces);
    assert(requested(faces) == s);
    generate_cube(faces)
}

/// The fragments of every cell of an occupancy grid, in a grid of the same
/// shape, ready for `generate_chunk_mesh`.
pub fn build_chunk_cubes(occupancy: &Vec<Vec<Vec<bool>>>) -> (grid: Vec<Vec<Vec<Cube>>>)
    requires
        occupancy_fits(occupancy@),
    ensures
        grid@.len() == occupancy@.len(),
        forall|x: int| 0 <= x < grid@.len() ==> #[trigger] grid@[x]@.len() == occupancy@[x]@.len(),
        forall|x: int, y: int|
            0 <= x < grid@.len() && 0 <= y < grid@[x]@.len() ==> #[trigger] grid@[x]@[y]@.len()
                == occupancy@[x]@[y]@.len(),
        forall|x: int, y: int, z: int|
            0 <= x < grid@.len() && 0 <= y < grid@[x]@.len() && 0 <= z < grid@[x]@[y]@.len()
                ==> #[trigger] grid@[x]@[y]@[z]@ == cell_of(occupancy@, x, y, z),
        chunk_wf(grid@),
{
    let ghost occ = occupancy@;
    let mut grid: Vec<Vec<Vec<Cube>>> = Vec::new();
    let mut x: usize = 0;
    while x < occupancy.len()
        invariant
            occ == occupancy@,
            occupancy_fits(occ),
            x <= occ.len(),
            grid@.len() == x,
            forall|i: int| 0 <= i < x ==> #[trigger] grid@[i]@.len() == occ[i]@.len(),
            forall|i: int, j: int|
                0 <= i < x && 0 <= j < grid@[i]@.len() ==> #[trigger] grid@[i]@[j]@.len()
                    == occ[i]@[j]@.len(),
            forall|i: int, j: int, k: int|
                0 <= i < x && 0 <= j < grid@[i]@.len() && 0 <= k < grid@[i]@[j]@.len()
                    ==> #[trigger] grid@[i]@[j]@[k]@ == cell_of(occ, i, j, k)
                    && grid@[i]@[j]@[k]@.fragment_wf(),
        decreases occ.len() - x,
    {
        let mut plane: Vec<Vec<Cube>> = Vec::new();
        let mut y: usize = 0;
        while y < occupancy[x].len()
            invariant
                occ == occupancy@,
                occupancy_fits(occ),
                x < occ.len(),
                y <= occ[x as int]@.len(),
                plane@.len() == y,
                forall|j: int| 0 <= j < y ==> #[trigger] plane@[j]@.len() == occ[x as int]@[j]@.len(),
                forall|j: int, k: int|
                    0 <= j < y && 0 <= k < plane@[j]@.len() ==> #[trigger] plane@[j]@[k]@
                        == cell_of(occ, x as int, j, k) && plane@[j]@[k]@.fragment_wf(),
            decreases occ[x as int]@.len() - y,
        {
            let mut line: Vec<Cube> = Vec::new();
            let mut z: usize = 0;
            while z < occupancy[x][y].len()
                invariant
                    occ == occupancy@,
                    occupancy_fits(occ),
                    x < occ.len(),
                    y < occ[x as int]@.len(),
                    z <= occ[x as int]@[y as int]@.len(),
                    line@.len() == z,
                    forall|k: int|
                        0 <= k < z ==> #[trigger] line@[k]@ == cell_of(occ, x as int, y as int, k)
                            && line@[k]@.fragment_wf(),
                decreases occ[x as int]@[y as int]@.len() - z,
            {
                let c = exposed_cube(occupancy, x, y, z);
                line.push(c);
                z = z + 1;
            }
            plane.push(line);
            y = y + 1;
        }
        grid.push(plane);
        x = x + 1;
    }
    grid
}

} // verus!
