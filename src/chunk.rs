//! The chunk assembler: many cube fragments, each placed at its grid cell,
//! merged into one mesh with a single shared index space.
use vstd::prelude::*;
use crate::cube::{Cube, MeshView};
use crate::geometry::{Normal, Point, Uv};

verus! {

/// The largest extent of a grid along any axis. Positions are kept in half
/// units in an `i64`; this bound keeps every moved coordinate well inside it
/// (a row this long would already hold far more fragments than memory can).
pub const MAX_EXTENT: usize = 0x3fff_ffff;

/// The merged mesh of a whole grid, in grid coordinates (half units).
#[derive(Clone, Debug)]
pub struct ChunkMesh {
    pub positions: Vec<Point>,
    pub normals: Vec<Normal>,
    pub uvs: Vec<Uv>,
    pub indices: Vec<u32>,
}

impl View for ChunkMesh {
    type V = MeshView;

    open spec fn view(&self) -> MeshView {
        MeshView {
            positions: self.positions@,
            normals: self.normals@,
            uvs: self.uvs@,
            indices: self.indices@,
        }
    }
}

/// The fragment held by cell `(x, y, z)` of the grid.
pub open spec fn cell(g: Seq<Vec<Vec<Cube>>>, x: int, y: int, z: int) -> MeshView {
    g[x]@[y]@[z]@
}

/// A grid the assembler accepts: extents that fit the position type, and a
/// well-formed fragment in every cell.
pub open spec fn chunk_wf(g: Seq<Vec<Vec<Cube>>>) -> bool {
    &&& g.len() <= MAX_EXTENT
    &&& forall|x: int| 0 <= x < g.len() ==> #[trigger] g[x]@.len() <= MAX_EXTENT
    &&& forall|x: int, y: int|
        0 <= x < g.len() && 0 <= y < g[x]@.len() ==> #[trigger] g[x]@[y]@.len() <= MAX_EXTENT
    &&& forall|x: int, y: int, z: int|
        0 <= x < g.len() && 0 <= y < g[x]@.len() && 0 <= z < g[x]@[y]@.len()
            ==> (#[trigger] g[x]@[y]@[z]@).fragment_wf()
}

/// Point `p` moved to cell `(x, y, z)`: one grid step is two half units.
pub open spec fn shift(p: Point, x: int, y: int, z: int) -> Point {
    Point { x: (p.x + 2 * x) as i64, y: (p.y + 2 * y) as i64, z: (p.z + 2 * z) as i64 }
}

pub open spec fn empty_mesh() -> MeshView {
    MeshView { positions: seq![], normals: seq![], uvs: seq![], indices: seq![] }
}

/// Mesh `m` followed by fragment `c` placed at cell `(x, y, z)`: positions are
/// moved, normals and texture coordinates are kept, and indices are offset by
/// the vertices already in `m`.
pub open spec fn add_cell(m: MeshView, c: MeshView, x: int, y: int, z: int) -> MeshView {
    MeshView {
        positions: m.positions + c.positions.map_values(|p: Point| shift(p, x, y, z)),
        normals: m.normals + c.normals,
        uvs: m.uvs + c.uvs,
        indices: m.indices + c.indices.map_values(|i: u32| (i + m.positions.len()) as u32),
    }
}

/// `m` followed by the first `n` cells of row `(x, y)`.
pub open spec fn fold_line(m: MeshView, g: Seq<Vec<Vec<Cube>>>, x: int, y: int, n: int) -> MeshView
    decreases n,
{
    if n <= 0 {
        m
    } else {
        add_cell(fold_line(m, g, x, y, n - 1), cell(g, x, y, n - 1), x, y, n - 1)
    }
}

/// `m` followed by the first `n` rows of plane `x`.
pub open spec fn fold_plane(m: MeshView, g: Seq<Vec<Vec<Cube>>>, x: int, n: int) -> MeshView
    decreases n,
{
    if n <= 0 {
        m
    } else {
        fold_line(fold_plane(m, g, x, n - 1), g, x, n - 1, g[x]@[n - 1]@.len() as int)
    }
}

/// `m` followed by the first `n` planes of the grid.
pub open spec fn fold_grid(m: MeshView, g: Seq<Vec<Vec<Cube>>>, n: int) -> MeshView
    decreases n,
{
    if n <= 0 {
        m
    } else {
        fold_plane(fold_grid(m, g, n - 1), g, n - 1, g[n - 1]@.len() as int)
    }
}

/// The mesh of a grid: every cell in order, x outermost and z innermost.
pub open spec fn chunk_model(g: Seq<Vec<Vec<Cube>>>) -> MeshView {
    fold_grid(empty_mesh(), g, g.len() as int)
}

/// Vertices of the first `n` cells of row `(x, y)`.
pub open spec fn count_line(g: Seq<Vec<Vec<Cube>>>, x: int, y: int, n: int) -> int
    decreases n,
{
    if n <= 0 {
        0
    } else {
        count_line(g, x, y, n - 1) + cell(g, x, y, n - 1).positions.len()
    }
}

/// Vertices of the first `n` rows of plane `x`.
pub open spec fn count_plane(g: Seq<Vec<Vec<Cube>>>, x: int, n: int) -> int
    decreases n,
{
    if n <= 0 {
        0
    } else {
        count_plane(g, x, n - 1) + count_line(g, x, n - 1, g[x]@[n - 1]@.len() as int)
    }
}

/// Vertices of the first `n` planes of the grid.
pub open spec fn count_grid(g: Seq<Vec<Vec<Cube>>>, n: int) -> int
    decreases n,
{
    if n <= 0 {
        0
    } else {
        count_grid(g, n - 1) + count_plane(g, n - 1, g[n - 1]@.len() as int)
    }
}

/// The sum of the vertex counts of all cells of the grid.
pub open spec fn vertex_count(g: Seq<Vec<Vec<Cube>>>) -> int {
    count_grid(g, g.len() as int)
}

/// The vertices of all cells that come before cell `(x, y, z)`.
pub open spec fn vertices_before(g: Seq<Vec<Vec<Cube>>>, x: int, y: int, z: int) -> int {
    count_grid(g, x) + count_plane(g, x, y) + count_line(g, x, y, z)
}

/// `a` is a prefix of `b`, array by array.
pub open spec fn extends(a: MeshView, b: MeshView) -> bool {
    &&& a.positions.len() <= b.positions.len()
    &&& a.normals.len() <= b.normals.len()
    &&& a.uvs.len() <= b.uvs.len()
    &&& a.indices.len() <= b.indices.len()
    &&& forall|i: int| 0 <= i < a.positions.len() ==> #[trigger] b.positions[i] == a.positions[i]
    &&& forall|i: int| 0 <= i < a.normals.len() ==> #[trigger] b.normals[i] == a.normals[i]
    &&& forall|i: int| 0 <= i < a.uvs.len() ==> #[trigger] b.uvs[i] == a.uvs[i]
    &&& forall|i: int| 0 <= i < a.indices.len() ==> #[trigger] b.indices[i] == a.indices[i]
}


proof fn lemma_extends_trans(a: MeshView, b: MeshView, c: MeshView)
    requires
        extends(a, b),
        extends(b, c),
    ensures
        extends(a, c),
{
}

/// Adding a cell keeps what was there and adds one entry per vertex of the cell.
proof fn lemma_add_cell(m: MeshView, c: MeshView, x: int, y: int, z: int)
    ensures
        extends(m, add_cell(m, c, x, y, z)),
        add_cell(m, c, x, y, z).positions.len() == m.positions.len() + c.positions.len(),
{
}

/// Adding a well-formed fragment keeps every index valid, as long as the vertex
/// count still fits an index.
proof fn lemma_add_cell_valid(m: MeshView, c: MeshView, x: int, y: int, z: int)
    requires
        m.indices_valid(),
        c.fragment_wf(),
        m.positions.len() + c.positions.len() <= u32::MAX,
    ensures
        add_cell(m, c, x, y, z).indices_valid(),
{
    let r = add_cell(m, c, x, y, z);
    assert forall|i: int| 0 <= i < r.indices.len() implies r.indices[i] < r.positions.len() by {
        if i >= m.indices.len() {
            assert(c.indices[i - m.indices.len()] < c.positions.len());
        }
    }
}

proof fn lemma_line_ext(m: MeshView, g: Seq<Vec<Vec<Cube>>>, x: int, y: int, n1: int, n2: int)
    requires
        0 <= n1 <= n2,
    ensures
        extends(fold_line(m, g, x, y, n1), fold_line(m, g, x, y, n2)),
        fold_line(m, g, x, y, n2).positions.len() == m.positions.len() + count_line(g, x, y, n2),
    decreases n2,
{
    if n2 > 0 {
        let prev = fold_line(m, g, x, y, n2 - 1);
        lemma_add_cell(prev, cell(g, x, y, n2 - 1), x, y, n2 - 1);
        if n1 < n2 {
            lemma_line_ext(m, g, x, y, n1, n2 - 1);
            lemma_extends_trans(fold_line(m, g, x, y, n1), prev, fold_line(m, g, x, y, n2));
        } else {
            lemma_line_ext(m, g, x, y, n2 - 1, n2 - 1);
        }
    }
}

proof fn lemma_plane_ext(m: MeshView, g: Seq<Vec<Vec<Cube>>>, x: int, n1: int, n2: int)
    requires
        0 <= n1 <= n2,
    ensures
        extends(fold_plane(m, g, x, n1), fold_plane(m, g, x, n2)),
        fold_plane(m, g, x, n2).positions.len() == m.positions.len() + count_plane(g, x, n2),
    decreases n2,
{
    if n2 > 0 {
        let prev = fold_plane(m, g, x, n2 - 1);
        let len = g[x]@[n2 - 1]@.len() as int;
        lemma_line_ext(prev, g, x, n2 - 1, 0, len);
        if n1 < n2 {
            lemma_plane_ext(m, g, x, n1, n2 - 1);
            lemma_extends_trans(fold_plane(m, g, x, n1), prev, fold_plane(m, g, x, n2));
        } else {
            lemma_plane_ext(m, g, x, n2 - 1, n2 - 1);
        }
    }
}

proof fn lemma_grid_ext(m: MeshView, g: Seq<Vec<Vec<Cube>>>, n1: int, n2: int)
    requires
        0 <= n1 <= n2,
    ensures
        extends(fold_grid(m, g, n1), fold_grid(m, g, n2)),
        fold_grid(m, g, n2).positions.len() == m.positions.len() + count_grid(g, n2),
    decreases n2,
{
    if n2 > 0 {
        let prev = fold_grid(m, g, n2 - 1);
        let len = g[n2 - 1]@.len() as int;
        lemma_plane_ext(prev, g, n2 - 1, 0, len);
        if n1 < n2 {
            lemma_grid_ext(m, g, n1, n2 - 1);
            lemma_extends_trans(fold_grid(m, g, n1), prev, fold_grid(m, g, n2));
        } else {
            lemma_grid_ext(m, g, n2 - 1, n2 - 1);
        }
    }
}

proof fn lemma_count_line_mono(g: Seq<Vec<Vec<Cube>>>, x: int, y: int, n1: int, n2: int)
    requires
        n1 <= n2,
    ensures
        0 <= count_line(g, x, y, n1) <= count_line(g, x, y, n2),
    decreases n2,
{
    if n2 > 0 {
        if n1 < n2 {
            lemma_count_line_mono(g, x, y, n1, n2 - 1);
        } else {
            lemma_count_line_mono(g, x, y, n2 - 1, n2 - 1);
        }
    }
}

proof fn lemma_count_plane_mono(g: Seq<Vec<Vec<Cube>>>, x: int, n1: int, n2: int)
    requires
        n1 <= n2,
    ensures
        0 <= count_plane(g, x, n1) <= count_plane(g, x, n2),
    decreases n2,
{
    if n2 > 0 {
        lemma_count_line_mono(g, x, n2 - 1, 0, g[x]@[n2 - 1]@.len() as int);
        if n1 < n2 {
            lemma_count_plane_mono(g, x, n1, n2 - 1);
        } else {
            lemma_count_plane_mono(g, x, n2 - 1, n2 - 1);
        }
    }
}

proof fn lemma_count_grid_mono(g: Seq<Vec<Vec<Cube>>>, n1: int, n2: int)
    requires
        n1 <= n2,
    ensures
        0 <= count_grid(g, n1) <= count_grid(g, n2),
    decreases n2,
{
    if n2 > 0 {
        lemma_count_plane_mono(g, n2 - 1, 0, g[n2 - 1]@.len() as int);
        if n1 < n2 {
            lemma_count_grid_mono(g, n1, n2 - 1);
        } else {
            lemma_count_grid_mono(g, n2 - 1, n2 - 1);
        }
    }
}

/// The cells before `(x, y, z)` and the cell itself hold no more vertices than
/// the whole grid; so do the cells before it and the rest of its row or plane.
proof fn lemma_before_bound(g: Seq<Vec<Vec<Cube>>>, x: int, y: int, z: int)
    requires
        0 <= x < g.len(),
        0 <= y < g[x]@.len(),
        0 <= z <= g[x]@[y]@.len(),
    ensures
        vertices_before(g, x, y, z) <= count_grid(g, x) + count_plane(g, x, y) + count_line(
            g,
            x,
            y,
            g[x]@[y]@.len() as int,
        ),
        count_grid(g, x) + count_plane(g, x, y + 1) <= count_grid(g, x + 1),
        count_grid(g, x + 1) <= vertex_count(g),
        z < g[x]@[y]@.len() ==> vertices_before(g, x, y, z) + cell(g, x, y, z).positions.len()
            <= vertex_count(g),
{
    let lz = g[x]@[y]@.len() as int;
    let ly = g[x]@.len() as int;
    lemma_count_line_mono(g, x, y, z, lz);
    if z < lz {
        lemma_count_line_mono(g, x, y, z + 1, lz);
    }
    lemma_count_plane_mono(g, x, y + 1, ly);
    lemma_count_grid_mono(g, x + 1, g.len() as int);
    lemma_count_grid_mono(g, 0, x);
    lemma_count_plane_mono(g, x, 0, y);
}


proof fn lemma_line_valid(m: MeshView, g: Seq<Vec<Vec<Cube>>>, x: int, y: int, n: int)
    requires
        chunk_wf(g),
        0 <= x < g.len(),
        0 <= y < g[x]@.len(),
        0 <= n <= g[x]@[y]@.len(),
        m.indices_valid(),
        m.positions.len() + count_line(g, x, y, n) <= u32::MAX,
    ensures
        fold_line(m, g, x, y, n).indices_valid(),
    decreases n,
{
    if n > 0 {
        lemma_line_valid(m, g, x, y, n - 1);
        lemma_line_ext(m, g, x, y, 0, n - 1);
        lemma_add_cell_valid(fold_line(m, g, x, y, n - 1), cell(g, x, y, n - 1), x, y, n - 1);
    }
}

proof fn lemma_plane_valid(m: MeshView, g: Seq<Vec<Vec<Cube>>>, x: int, n: int)
    requires
        chunk_wf(g),
        0 <= x < g.len(),
        0 <= n <= g[x]@.len(),
        m.indices_valid(),
        m.positions.len() + count_plane(g, x, n) <= u32::MAX,
    ensures
        fold_plane(m, g, x, n).indices_valid(),
    decreases n,
{
    if n > 0 {
        let lz = g[x]@[n - 1]@.len() as int;
        lemma_count_line_mono(g, x, n - 1, 0, lz);
        lemma_plane_valid(m, g, x, n - 1);
        lemma_plane_ext(m, g, x, 0, n - 1);
        lemma_line_valid(fold_plane(m, g, x, n - 1), g, x, n - 1, lz);
    }
}

proof fn lemma_grid_valid(m: MeshView, g: Seq<Vec<Vec<Cube>>>, n: int)
    requires
        chunk_wf(g),
        0 <= n <= g.len(),
        m.indices_valid(),
        m.positions.len() + count_grid(g, n) <= u32::MAX,
    ensures
        fold_grid(m, g, n).indices_valid(),
    decreases n,
{
    if n > 0 {
        let ly = g[n - 1]@.len() as int;
        lemma_count_plane_mono(g, n - 1, 0, ly);
        lemma_grid_valid(m, g, n - 1);
        lemma_grid_ext(m, g, 0, n - 1);
        lemma_plane_valid(fold_grid(m, g, n - 1), g, n - 1, ly);
    }
}

/// The merged mesh has exactly as many vertices as all cells' fragments together.
pub proof fn law_chunk_vertex_count(g: Seq<Vec<Vec<Cube>>>)
    ensures
        chunk_model(g).positions.len() == vertex_count(g),
{
    lemma_grid_ext(empty_mesh(), g, 0, g.len() as int);
}

/// Every index of the merged mesh names one of its vertices, and every vertex
/// has one normal and one texture coordinate.
pub proof fn law_chunk_indices_valid(g: Seq<Vec<Vec<Cube>>>)
    requires
        chunk_wf(g),
        vertex_count(g) <= u32::MAX,
    ensures
        chunk_model(g).normals.len() == chunk_model(g).positions.len(),
        chunk_model(g).uvs.len() == chunk_model(g).positions.len(),
        forall|i: int|
            0 <= i < chunk_model(g).indices.len() ==> chunk_model(g).indices[i] < chunk_model(
                g,
            ).positions.len(),
{
    lemma_grid_valid(empty_mesh(), g, g.len() as int);
}

/// Vertex `j` of the fragment in cell `(x, y, z)` lands, after the vertices of
/// all earlier cells, at its own position moved by exactly `(x, y, z)` grid
/// steps (two half units each), with its normal and texture coordinate unchanged.
pub proof fn law_chunk_translation(g: Seq<Vec<Vec<Cube>>>, x: int, y: int, z: int, j: int)
    requires
        chunk_wf(g),
        vertex_count(g) <= u32::MAX,
        0 <= x < g.len(),
        0 <= y < g[x]@.len(),
        0 <= z < g[x]@[y]@.len(),
        0 <= j < cell(g, x, y, z).positions.len(),
    ensures
        ({
            let k = vertices_before(g, x, y, z) + j;
            let p = cell(g, x, y, z).positions[j];
            let q = chunk_model(g).positions[k];
            &&& k < chunk_model(g).positions.len()
            &&& q.x == p.x + 2 * x
            &&& q.y == p.y + 2 * y
            &&& q.z == p.z + 2 * z
            &&& chunk_model(g).normals[k] == cell(g, x, y, z).normals[j]
            &&& chunk_model(g).uvs[k] == cell(g, x, y, z).uvs[j]
        }),
{
    let e = empty_mesh();
    let lx = g.len() as int;
    let ly = g[x]@.len() as int;
    let lz = g[x]@[y]@.len() as int;
    let fg = fold_grid(e, g, x);
    let fp = fold_plane(fg, g, x, y);
    let fl = fold_line(fp, g, x, y, z);
    let c = cell(g, x, y, z);
    lemma_before_bound(g, x, y, z);
    lemma_count_plane_mono(g, x, y, y + 1);
    lemma_count_grid_mono(g, x, lx);
    lemma_grid_ext(e, g, 0, x);
    lemma_plane_ext(fg, g, x, 0, y);
    lemma_line_ext(fp, g, x, y, 0, z);
    lemma_grid_valid(e, g, x);
    lemma_plane_valid(fg, g, x, y);
    lemma_line_valid(fp, g, x, y, z);
    lemma_line_ext(fp, g, x, y, z + 1, lz);
    lemma_plane_ext(fg, g, x, y + 1, ly);
    lemma_grid_ext(e, g, x + 1, lx);
    let after = fold_line(fp, g, x, y, z + 1);
    lemma_extends_trans(after, fold_plane(fg, g, x, y + 1), fold_grid(e, g, x + 1));
    lemma_extends_trans(after, fold_grid(e, g, x + 1), chunk_model(g));
    assert(c.fragment_wf());
    let k = vertices_before(g, x, y, z) + j;
    assert(after.positions[k] == shift(c.positions[j], x, y, z));
    assert(after.normals[k] == c.normals[j]);
    assert(after.uvs[k] == c.uvs[j]);
}

/// Appends fragment `cube`, placed at cell `(x, y, z)`, to `mesh`.
fn append_cube(mesh: &mut ChunkMesh, cube: &Cube, x: usize, y: usize, z: usize)
    requires
        cube@.fragment_wf(),
        x < MAX_EXTENT,
        y < MAX_EXTENT,
        z < MAX_EXTENT,
        old(mesh).positions.len() + cube.positions.len() <= u32::MAX,
    ensures
        final(mesh)@ == add_cell(old(mesh)@, cube@, x as int, y as int, z as int),
{
    let ghost m = mesh@;
    let ghost c = cube@;
    let base = mesh.positions.len() as u32;
    let dx = 2 * (x as i64);
    let dy = 2 * (y as i64);
    let dz = 2 * (z as i64);
    let n = cube.positions.len();
    let mut i: usize = 0;
    while i < n
        invariant
            c == cube@,
            c.fragment_wf(),
            n == c.positions.len(),
            i <= n,
            dx == 2 * x,
            dy == 2 * y,
            dz == 2 * z,
            x < MAX_EXTENT,
            y < MAX_EXTENT,
            z < MAX_EXTENT,
            mesh.positions@ == m.positions + c.positions.map_values(
                |p: Point| shift(p, x as int, y as int, z as int),
            ).take(i as int),
            mesh.normals@ == m.normals + c.normals.take(i as int),
            mesh.uvs@ == m.uvs + c.uvs.take(i as int),
            mesh.indices@ == m.indices,
        decreases n - i,
    {
        let p = cube.positions[i];
        assert(-1 <= p.x <= 1 && -1 <= p.y <= 1 && -1 <= p.z <= 1) by {
            assert(p == c.positions[i as int]);
        }
        mesh.positions.push(Point { x: p.x + dx, y: p.y + dy, z: p.z + dz });
        mesh.normals.push(cube.normals[i]);
        mesh.uvs.push(cube.uvs[i]);
        i = i + 1;
        assert(mesh.positions@ =~= m.positions + c.positions.map_values(
            |p: Point| shift(p, x as int, y as int, z as int),
        ).take(i as int));
        assert(mesh.normals@ =~= m.normals + c.normals.take(i as int));
        assert(mesh.uvs@ =~= m.uvs + c.uvs.take(i as int));
    }
    let ghost done_positions = mesh.positions@;
    let ghost done_normals = mesh.normals@;
    let ghost done_uvs = mesh.uvs@;
    let k = cube.indices.len();
    let mut j: usize = 0;
    while j < k
        invariant
            c == cube@,
            c.fragment_wf(),
            k == c.indices.len(),
            j <= k,
            base == m.positions.len(),
            m.positions.len() + c.positions.len() <= u32::MAX,
            mesh.positions@ == done_positions,
            mesh.normals@ == done_normals,
            mesh.uvs@ == done_uvs,
            mesh.indices@ == m.indices + c.indices.map_values(
                |v: u32| (v + m.positions.len()) as u32,
            ).take(j as int),
        decreases k - j,
    {
        assert(cube.indices[j as int] < c.positions.len());
        mesh.indices.push(cube.indices[j] + base);
        j = j + 1;
        assert(mesh.indices@ =~= m.indices + c.indices.map_values(
            |v: u32| (v + m.positions.len()) as u32,
        ).take(j as int));
    }
    assert(c.positions.map_values(|p: Point| shift(p, x as int, y as int, z as int)).take(
        n as int,
    ) =~= c.positions.map_values(|p: Point| shift(p, x as int, y as int, z as int)));
    assert(c.normals.take(n as int) =~= c.normals);
    assert(c.uvs.take(n as int) =~= c.uvs);
    assert(c.indices.map_values(|v: u32| (v + m.positions.len()) as u32).take(k as int)
        =~= c.indices.map_values(|v: u32| (v + m.positions.len()) as u32));
    let ghost r = add_cell(m, c, x as int, y as int, z as int);
    assert(mesh.positions@ =~= r.positions);
    assert(mesh.indices@ =~= r.indices);
}

/// Merges the fragments of a grid into one mesh. The fragment of cell
/// `(x, y, z)` is moved by `(x, y, z)` grid steps, its normals and texture
/// coordinates are kept, and its indices are offset by the vertices emitted
/// before it; cells are visited with x outermost and z innermost.
pub fn generate_chunk_mesh(chunk_data: Vec<Vec<Vec<Cube>>>) -> (mesh: ChunkMesh)
    requires
        chunk_wf(chunk_data@),
        vertex_count(chunk_data@) <= u32::MAX,
    ensures
        mesh@ == chunk_model(chunk_data@),
{
    let ghost g = chunk_data@;
    let mut mesh = ChunkMesh {
        positions: Vec::new(),
        normals: Vec::new(),
        uvs: Vec::new(),
        indices: Vec::new(),
    };
    assert(mesh@ =~= empty_mesh());
    let mut x: usize = 0;
    while x < chunk_data.len()
        invariant
            g == chunk_data@,
            chunk_wf(g),
            vertex_count(g) <= u32::MAX,
            x <= g.len(),
            mesh@ == fold_grid(empty_mesh(), g, x as int),
        decreases g.len() - x,
    {
        let plane = &chunk_data[x];
        let ghost before_plane = fold_grid(empty_mesh(), g, x as int);
        let mut y: usize = 0;
        while y < plane.len()
            invariant
                g == chunk_data@,
                chunk_wf(g),
                vertex_count(g) <= u32::MAX,
                x < g.len(),
                plane@ == g[x as int]@,
                y <= plane.len(),
                before_plane == fold_grid(empty_mesh(), g, x as int),
                mesh@ == fold_plane(before_plane, g, x as int, y as int),
            decreases plane.len() - y,
        {
            let line = &plane[y];
            let ghost before_line = fold_plane(before_plane, g, x as int, y as int);
            let mut z: usize = 0;
            while z < line.len()
                invariant
                    g == chunk_data@,
                    chunk_wf(g),
                    vertex_count(g) <= u32::MAX,
                    x < g.len(),
                    plane@ == g[x as int]@,
                    y < plane.len(),
                    line@ == g[x as int]@[y as int]@,
                    z <= line.len(),
                    before_plane == fold_grid(empty_mesh(), g, x as int),
                    before_line == fold_plane(before_plane, g, x as int, y as int),
                    mesh@ == fold_line(before_line, g, x as int, y as int, z as int),
                decreases line.len() - z,
            {
                proof {
                    lemma_grid_ext(empty_mesh(), g, 0, x as int);
                    lemma_plane_ext(before_plane, g, x as int, 0, y as int);
                    lemma_line_ext(before_line, g, x as int, y as int, 0, z as int);
                    lemma_before_bound(g, x as int, y as int, z as int);
                }
                append_cube(&mut mesh, &line[z], x, y, z);
                z = z + 1;
            }
            y = y + 1;
        }
        x = x + 1;
    }
    mesh
}


/// The number of vertices the grid's merged mesh will have, or `None` when it
/// exceeds what a `u32` index can name.
pub fn checked_vertex_count(chunk_data: &Vec<Vec<Vec<Cube>>>) -> (r: Option<u32>)
    ensures
        match r {
            Some(n) => n == vertex_count(chunk_data@),
            None => vertex_count(chunk_data@) > u32::MAX,
        },
{
    let ghost g = chunk_data@;
    let mut total: u64 = 0;
    let mut x: usize = 0;
    while x < chunk_data.len()
        invariant
            g == chunk_data@,
            x <= g.len(),
            total == count_grid(g, x as int),
            total <= u32::MAX,
        decreases g.len() - x,
    {
        let plane = &chunk_data[x];
        let mut y: usize = 0;
        while y < plane.len()
            invariant
                g == chunk_data@,
                x < g.len(),
                plane@ == g[x as int]@,
                y <= plane.len(),
                total == count_grid(g, x as int) + count_plane(g, x as int, y as int),
                total <= u32::MAX,
            decreases plane.len() - y,
        {
            let line = &plane[y];
            let mut z: usize = 0;
            while z < line.len()
                invariant
                    g == chunk_data@,
                    x < g.len(),
                    plane@ == g[x as int]@,
                    y < plane.len(),
                    line@ == g[x as int]@[y as int]@,
                    z <= line.len(),
                    total == vertices_before(g, x as int, y as int, z as int),
                    total <= u32::MAX,
                decreases line.len() - z,
            {
                let n = line[z].positions.len() as u64;
                if n > u32::MAX as u64 - total {
                    proof {
                        lemma_before_bound(g, x as int, y as int, z as int);
                    }
                    return None;
                }
                total = total + n;
                z = z + 1;
            }
            y = y + 1;
        }
        x = x + 1;
    }
    Some(total as u32)
}

} // verus!
