use voxel_mesh::chunk::{checked_vertex_count, generate_chunk_mesh};
use voxel_mesh::cube::{generate_cube, Cube};
use voxel_mesh::geometry::{Normal, Point, BACK, BOTTOM, FRONT, LEFT, RIGHT, TOP};

fn full() -> Cube {
    generate_cube(Some(vec![TOP, BOTTOM, RIGHT, LEFT, BACK, FRONT]))
}

#[test]
fn one_cell_with_top_face() {
    let grid = vec![vec![vec![generate_cube(Some(vec![TOP]))]]];
    let m = generate_chunk_mesh(grid);
    assert_eq!(m.positions.len(), 4);
    assert_eq!(m.indices.len(), 6);
    assert_eq!(m.normals, vec![Normal { x: 0, y: 1, z: 0 }; 4]);
    // half units: (-0.5, 0.5, -0.5) .. (0.5, 0.5, 0.5)
    let min = m.positions.iter().fold((i64::MAX, i64::MAX, i64::MAX), |a, p| {
        (a.0.min(p.x), a.1.min(p.y), a.2.min(p.z))
    });
    let max = m.positions.iter().fold((i64::MIN, i64::MIN, i64::MIN), |a, p| {
        (a.0.max(p.x), a.1.max(p.y), a.2.max(p.z))
    });
    assert_eq!(min, (-1, 1, -1));
    assert_eq!(max, (1, 1, 1));
}

#[test]
fn two_full_cells_along_x() {
    let grid = vec![vec![vec![full()]], vec![vec![full()]]];
    let m = generate_chunk_mesh(grid);
    assert_eq!(m.positions.len(), 48);
    assert_eq!(m.indices.len(), 72);
    for i in 0..24 {
        let (a, b) = (m.positions[i], m.positions[i + 24]);
        assert_eq!(b, Point { x: a.x + 2, y: a.y, z: a.z });
        assert_eq!(m.normals[i], m.normals[i + 24]);
    }
    for i in 0..36 {
        assert_eq!(m.indices[i + 36], m.indices[i] + 24);
    }
}

#[test]
fn vertex_count_is_sum_of_cells() {
    let grid = vec![
        vec![vec![generate_cube(Some(vec![TOP])), generate_cube(None)]],
        vec![vec![generate_cube(Some(vec![LEFT, RIGHT])), full()]],
    ];
    let total: usize = grid.iter().flatten().flatten().map(|c| c.positions.len()).sum();
    let m = generate_chunk_mesh(grid);
    assert_eq!(total, 4 + 0 + 8 + 24);
    assert_eq!(m.positions.len(), total);
    assert_eq!(m.normals.len(), total);
    assert_eq!(m.uvs.len(), total);
}

#[test]
fn every_index_is_in_range() {
    let mut grid = vec![];
    for x in 0..3 {
        let mut plane = vec![];
        for y in 0..2 {
            let mut line = vec![];
            for z in 0..4 {
                let faces: Vec<usize> = (0..6).filter(|f| (x + y + z + f) % 2 == 0).collect();
                line.push(generate_cube(Some(faces)));
            }
            plane.push(line);
        }
        grid.push(plane);
    }
    let m = generate_chunk_mesh(grid);
    assert!(!m.indices.is_empty());
    for &i in &m.indices {
        assert!((i as usize) < m.positions.len());
    }
}

#[test]
fn cell_positions_are_moved_by_their_coordinates() {
    let grid = vec![
        vec![vec![generate_cube(None), generate_cube(Some(vec![BACK]))]],
        vec![vec![generate_cube(None), generate_cube(None)], vec![generate_cube(None), full()]],
    ];
    let local = full();
    let m = generate_chunk_mesh(grid);
    // cell (0, 0, 1) comes first, then cell (1, 1, 1)
    let back = generate_cube(Some(vec![BACK]));
    for j in 0..4 {
        let p = back.positions[j];
        assert_eq!(m.positions[j], Point { x: p.x, y: p.y, z: p.z + 2 });
    }
    for j in 0..24 {
        let p = local.positions[j];
        assert_eq!(m.positions[4 + j], Point { x: p.x + 2, y: p.y + 2, z: p.z + 2 });
        assert_eq!(m.normals[4 + j], local.normals[j]);
        assert_eq!(m.uvs[4 + j], local.uvs[j]);
    }
}

#[test]
fn empty_grid_gives_empty_mesh() {
    let m = generate_chunk_mesh(vec![]);
    assert!(m.positions.is_empty() && m.indices.is_empty());
    let m = generate_chunk_mesh(vec![vec![vec![generate_cube(None); 0]; 2]; 2]);
    assert!(m.positions.is_empty() && m.indices.is_empty());
}

#[test]
fn checked_count_matches_assembled_vertices() {
    let grid = vec![
        vec![vec![generate_cube(Some(vec![TOP])), generate_cube(None)]],
        vec![vec![full(), full()]],
    ];
    assert_eq!(checked_vertex_count(&grid), Some(52));
    assert_eq!(checked_vertex_count(&vec![]), Some(0));
    let m = generate_chunk_mesh(grid);
    assert_eq!(m.positions.len(), 52);
}
