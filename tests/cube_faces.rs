use voxel_mesh::cube::{generate_cube, Cube};
use voxel_mesh::geometry::{face_template, Normal, Point, Uv, BACK, BOTTOM, FRONT, LEFT, RIGHT, TOP};

fn all_faces() -> Vec<usize> {
    vec![TOP, BOTTOM, RIGHT, LEFT, BACK, FRONT]
}

fn cross(a: Point, b: Point, c: Point) -> (i64, i64, i64) {
    let (ux, uy, uz) = (b.x - a.x, b.y - a.y, b.z - a.z);
    let (vx, vy, vz) = (c.x - a.x, c.y - a.y, c.z - a.z);
    (uy * vz - uz * vy, uz * vx - ux * vz, ux * vy - uy * vx)
}

fn same(a: &Cube, b: &Cube) -> bool {
    a.positions == b.positions && a.normals == b.normals && a.uvs == b.uvs && a.indices == b.indices
}

#[test]
fn no_faces_gives_empty_fragment() {
    for c in [generate_cube(None), generate_cube(Some(vec![]))] {
        assert!(c.positions.is_empty());
        assert!(c.normals.is_empty());
        assert!(c.uvs.is_empty());
        assert!(c.indices.is_empty());
    }
}

#[test]
fn sizes_follow_face_count() {
    let subsets: Vec<Vec<usize>> = vec![
        vec![TOP],
        vec![LEFT, FRONT],
        vec![BACK, BOTTOM, RIGHT],
        vec![FRONT, BACK, LEFT, RIGHT],
        all_faces(),
    ];
    for s in subsets {
        let n = s.len();
        let c = generate_cube(Some(s));
        assert_eq!(c.positions.len(), 4 * n);
        assert_eq!(c.normals.len(), 4 * n);
        assert_eq!(c.uvs.len(), 4 * n);
        assert_eq!(c.indices.len(), 6 * n);
        for &i in &c.indices {
            assert!((i as usize) < c.positions.len());
        }
    }
}

#[test]
fn full_cube_has_24_vertices_and_36_indices() {
    let c = generate_cube(Some(all_faces()));
    assert_eq!(c.positions.len(), 24);
    assert_eq!(c.indices.len(), 36);
    assert_eq!(c.indices[6..12].to_vec(), vec![4, 5, 7, 5, 6, 7]);
    assert_eq!(c.indices[30..36].to_vec(), vec![20, 21, 23, 21, 22, 23]);
}

#[test]
fn single_face_normals_are_outward_axes() {
    let expected = [
        (TOP, Normal { x: 0, y: 1, z: 0 }),
        (BOTTOM, Normal { x: 0, y: -1, z: 0 }),
        (RIGHT, Normal { x: 1, y: 0, z: 0 }),
        (LEFT, Normal { x: -1, y: 0, z: 0 }),
        (BACK, Normal { x: 0, y: 0, z: 1 }),
        (FRONT, Normal { x: 0, y: 0, z: -1 }),
    ];
    for (f, n) in expected {
        let c = generate_cube(Some(vec![f]));
        assert_eq!(c.normals, vec![n; 4]);
        for p in &c.positions {
            let d = p.x * n.x as i64 + p.y * n.y as i64 + p.z * n.z as i64;
            assert_eq!(d, 1);
        }
    }
}

#[test]
fn every_triangle_winds_outward() {
    let c = generate_cube(Some(all_faces()));
    for t in c.indices.chunks(3) {
        let (a, b, d) = (t[0] as usize, t[1] as usize, t[2] as usize);
        let n = c.normals[a];
        assert_eq!(c.normals[b], n);
        assert_eq!(c.normals[d], n);
        let cr = cross(c.positions[a], c.positions[b], c.positions[d]);
        assert_eq!(cr, (4 * n.x as i64, 4 * n.y as i64, 4 * n.z as i64));
    }
}

#[test]
fn building_twice_gives_equal_fragments() {
    let a = generate_cube(Some(vec![RIGHT, TOP, FRONT]));
    let b = generate_cube(Some(vec![RIGHT, TOP, FRONT]));
    assert!(same(&a, &b));
}

#[test]
fn order_and_repetition_of_faces_do_not_matter() {
    let a = generate_cube(Some(vec![FRONT, TOP, FRONT, RIGHT, TOP]));
    let b = generate_cube(Some(vec![TOP, RIGHT, FRONT]));
    assert!(same(&a, &b));
    assert_eq!(a.positions.len(), 12);
}

#[test]
fn faces_are_emitted_in_fixed_order() {
    let c = generate_cube(Some(vec![FRONT, TOP]));
    assert_eq!(c.normals[0], Normal { x: 0, y: 1, z: 0 });
    assert_eq!(c.normals[4], Normal { x: 0, y: 0, z: -1 });
    assert_eq!(c.indices, vec![0, 3, 1, 1, 3, 2, 4, 5, 7, 5, 6, 7]);
}

#[test]
fn top_template_matches_unit_cube() {
    let t = face_template(TOP);
    assert_eq!(
        t.positions,
        vec![
            Point { x: -1, y: 1, z: -1 },
            Point { x: 1, y: 1, z: -1 },
            Point { x: 1, y: 1, z: 1 },
            Point { x: -1, y: 1, z: 1 },
        ]
    );
    assert_eq!(
        t.uvs,
        vec![Uv { u: 0, v: 0 }, Uv { u: 0, v: 1 }, Uv { u: 1, v: 1 }, Uv { u: 1, v: 0 }]
    );
    assert_eq!(t.indices, vec![0, 3, 1, 1, 3, 2]);
}
