use ymir::hex::{
    boundary_mask, collect_parent_tiles, edge_hexes, install_seam_link, parent_lattice_size,
    seam_tile_pairs, HexCoord, HexGridConfig, HexLattice,
};
use ymir::region::RegionSpec;

/// A small tile graph: a hexagon of tiles 1..=6 around tile 0, plus an
/// outer tile 7 next to tiles 1 and 2, and an isolated tile 8.
fn wheel() -> Vec<Vec<usize>> {
    vec![
        vec![1, 2, 3, 4, 5, 6],
        vec![0, 2, 6, 7],
        vec![0, 1, 3, 7],
        vec![0, 2, 4],
        vec![0, 3, 5],
        vec![0, 4, 6],
        vec![0, 5, 1],
        vec![1, 2],
        vec![],
    ]
}

#[test]
fn radius_zero_region_is_the_seed_tile() {
    let order = collect_parent_tiles(&wheel(), &RegionSpec::new(3, 0));
    assert_eq!(order, vec![3]);
}

#[test]
fn radius_one_covers_seed_plus_neighbors() {
    let adj = wheel();
    let order = collect_parent_tiles(&adj, &RegionSpec::new(0, 1));
    assert_eq!(order, vec![0, 1, 2, 3, 4, 5, 6]);
    assert_eq!(order.len(), 1 + adj[0].len());
}

#[test]
fn radius_two_reaches_the_outer_tile_in_breadth_first_order() {
    let order = collect_parent_tiles(&wheel(), &RegionSpec::new(3, 2));
    assert_eq!(order, vec![3, 0, 2, 4, 1, 5, 6, 7]);
    let far = collect_parent_tiles(&wheel(), &RegionSpec::new(7, 5));
    assert!(!far.contains(&8));
    assert_eq!(far.len(), 8);
}

#[test]
fn isolated_tile_region_is_itself() {
    let order = collect_parent_tiles(&wheel(), &RegionSpec::new(8, 3));
    assert_eq!(order, vec![8]);
}

#[test]
fn default_subdivision_is_32() {
    assert_eq!(HexGridConfig::default().subdivision, 32);
}

#[test]
fn radius_zero_cell_count_matches_subdivision_squared() {
    let lattice = HexLattice::build(&vec![0], 32);
    assert_eq!(lattice.cells.len(), 32 * 32);
    assert_eq!(lattice.neighbors.len(), lattice.cells.len());
}

#[test]
fn radius_zero_smaller_subdivision() {
    let lattice = HexLattice::build(&vec![5], 8);
    assert_eq!(lattice.cells.len(), 8 * 8);
}

#[test]
fn cells_are_laid_out_tile_by_tile_row_by_row() {
    let lattice = HexLattice::build(&vec![4, 9], 3);
    assert_eq!(lattice.cells.len(), 18);
    assert_eq!(
        lattice.cells[13],
        HexCoord { region_hex_index: 13, parent_tile: 9, q: 1, r: 1 }
    );
    // Interior hex (1, 1) of the second tile has all six neighbours.
    assert_eq!(
        lattice.neighbors[13],
        [Some(14), Some(11), Some(10), Some(12), Some(15), Some(16)]
    );
    // Corner hex (0, 0) of the first tile has only E and SE inside.
    assert_eq!(
        lattice.neighbors[0],
        [Some(1), None, None, None, None, Some(3)]
    );
}

#[test]
fn intra_tile_neighbors_are_symmetric() {
    let lattice = HexLattice::build(&vec![0, 1, 2], 6);
    for (i, slots) in lattice.neighbors.iter().enumerate() {
        for (d, slot) in slots.iter().enumerate() {
            if let Some(j) = slot {
                let back = lattice.neighbors[*j as usize][(d + 3) % 6];
                assert_eq!(back, Some(i as u32), "asymmetric neighbour: {i} -> {j}");
                assert_eq!(
                    lattice.cells[i].parent_tile,
                    lattice.cells[*j as usize].parent_tile
                );
            }
        }
    }
}

#[test]
fn boundary_mask_marks_edge_hexes() {
    let lattice = HexLattice::build(&vec![0], 4);
    let mask = boundary_mask(&lattice.neighbors);
    for (i, cell) in lattice.cells.iter().enumerate() {
        let on_edge = cell.q == 0 || cell.r == 0 || cell.q == 3 || cell.r == 3;
        assert_eq!(mask[i], on_edge, "cell {i}");
    }
}

#[test]
fn parent_lattice_size_reads_back_the_side() {
    let lattice = HexLattice::build(&vec![3, 7], 5);
    assert_eq!(parent_lattice_size(&lattice.cells, 3), 5);
    assert_eq!(parent_lattice_size(&lattice.cells, 7), 5);
    assert_eq!(parent_lattice_size(&lattice.cells, 99), 1);
}

#[test]
fn edge_hexes_are_the_lattice_rim() {
    let lattice = HexLattice::build(&vec![3, 7], 4);
    let rim = edge_hexes(&lattice.cells, 7);
    assert_eq!(rim.len(), 12);
    assert_eq!(rim, vec![16, 17, 18, 19, 20, 23, 24, 27, 28, 29, 30, 31]);
    assert!(edge_hexes(&lattice.cells, 5).is_empty());
}

#[test]
fn seam_pairs_list_each_adjacent_region_pair_once() {
    let adj = wheel();
    let region = collect_parent_tiles(&adj, &RegionSpec::new(7, 1));
    assert_eq!(region, vec![7, 1, 2]);
    let pairs = seam_tile_pairs(&adj, &region);
    assert_eq!(pairs, vec![(1, 2), (1, 7), (2, 7)]);
}

#[test]
fn seam_link_is_installed_both_ways() {
    let mut nb = vec![[Some(1), None, None, None, None, None], [Some(0), None, None, None, None, None], [None; 6]];
    install_seam_link(&mut nb, 0, 2);
    assert_eq!(nb[0], [Some(1), Some(2), None, None, None, None]);
    assert_eq!(nb[2], [Some(0), None, None, None, None, None]);
    // Installing it again changes nothing.
    let before = nb.clone();
    install_seam_link(&mut nb, 2, 0);
    assert_eq!(nb, before);
}

#[test]
fn seam_link_is_dropped_when_the_first_hex_is_full() {
    let full = [Some(5); 6];
    let mut nb = vec![full, [None; 6]];
    install_seam_link(&mut nb, 0, 1);
    assert_eq!(nb, vec![full, [None; 6]]);
}

#[test]
fn seam_link_is_dropped_when_the_second_hex_is_full() {
    let full = [Some(9); 6];
    let mut nb = vec![[None; 6], full];
    install_seam_link(&mut nb, 0, 1);
    assert_eq!(nb, vec![[None; 6], full]);
}
