use voxel_mesh::chunk::generate_chunk_mesh;
use voxel_mesh::exposure::{build_chunk_cubes, exposed_faces, is_solid};
use voxel_mesh::geometry::{BACK, BOTTOM, FRONT, LEFT, RIGHT, TOP};

fn solid(nx: usize, ny: usize, nz: usize) -> Vec<Vec<Vec<bool>>> {
    vec![vec![vec![true; nz]; ny]; nx]
}

#[test]
fn outside_cells_are_not_solid() {
    let occ = solid(2, 2, 2);
    assert!(is_solid(&occ, 0, 0, 0));
    assert!(is_solid(&occ, 1, 1, 1));
    assert!(!is_solid(&occ, -1, 0, 0));
    assert!(!is_solid(&occ, 0, 2, 0));
    assert!(!is_solid(&occ, 0, 0, 2));
}

#[test]
fn lone_cube_shows_all_faces() {
    let occ = solid(1, 1, 1);
    assert_eq!(exposed_faces(&occ, 0, 0, 0), vec![TOP, BOTTOM, RIGHT, LEFT, BACK, FRONT]);
}

#[test]
fn corner_cell_shows_three_faces() {
    let occ = solid(2, 2, 2);
    assert_eq!(exposed_faces(&occ, 0, 0, 0), vec![BOTTOM, LEFT, FRONT]);
    assert_eq!(exposed_faces(&occ, 1, 1, 1), vec![TOP, RIGHT, BACK]);
}

#[test]
fn interior_and_empty_cells_show_nothing() {
    let mut occ = solid(3, 3, 3);
    assert!(exposed_faces(&occ, 1, 1, 1).is_empty());
    occ[0][0][0] = false;
    assert!(exposed_faces(&occ, 0, 0, 0).is_empty());
    assert!(exposed_faces(&occ, 5, 0, 0).is_empty());
    // the neighbours of the removed cell now face it
    assert_eq!(exposed_faces(&occ, 1, 0, 0), vec![BOTTOM, LEFT, FRONT]);
}

#[test]
fn solid_block_emits_only_its_surface() {
    let occ = solid(3, 3, 3);
    let grid = build_chunk_cubes(&occ);
    assert_eq!(grid.len(), 3);
    assert!(grid[1][1][1].positions.is_empty());
    let m = generate_chunk_mesh(grid);
    // six sides of nine faces each
    assert_eq!(m.positions.len(), 54 * 4);
    assert_eq!(m.indices.len(), 54 * 6);
}
