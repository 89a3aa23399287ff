//! Region layout: determinism, single-region placement, the 2x2 grid.

use tileworld::layout::{compute_layout, grid_size, sorted_unique_ids, WorldPlacement};

#[test]
fn single_region_sits_at_origin() {
    let placements = compute_layout(&vec![42]);
    assert_eq!(
        placements,
        vec![WorldPlacement { region_id: 42, x: 0, y: 0, z: 0 }]
    );
}

#[test]
fn four_regions_fill_a_two_by_two_grid() {
    let placements = compute_layout(&vec![1, 2, 3, 4]);
    assert_eq!(
        placements,
        vec![
            WorldPlacement { region_id: 1, x: -300, y: 0, z: -300 },
            WorldPlacement { region_id: 2, x: 0, y: 0, z: -300 },
            WorldPlacement { region_id: 3, x: -300, y: 0, z: 0 },
            WorldPlacement { region_id: 4, x: 0, y: 0, z: 0 },
        ]
    );
}

#[test]
fn layout_ignores_insertion_order() {
    let a = compute_layout(&vec![1, 2, 3, 4]);
    let b = compute_layout(&vec![4, 2, 1, 3]);
    let c = compute_layout(&vec![3, 1, 4, 2, 2, 1]);
    assert_eq!(a, b);
    assert_eq!(a, c);
}

#[test]
fn layout_of_nothing_is_empty() {
    assert_eq!(compute_layout(&vec![]), vec![]);
}

#[test]
fn two_regions_share_one_row() {
    // n = 2: grid side 2, both regions in row 0.
    let placements = compute_layout(&vec![7, -7]);
    assert_eq!(
        placements,
        vec![
            WorldPlacement { region_id: -7, x: -300, y: 0, z: -300 },
            WorldPlacement { region_id: 7, x: 0, y: 0, z: -300 },
        ]
    );
}

#[test]
fn five_regions_need_a_three_grid() {
    let placements = compute_layout(&vec![10, 20, 30, 40, 50]);
    assert_eq!(placements.len(), 5);
    // grid side 3: cells (col - 1.5) * 300 -> -450, -150, 150.
    assert_eq!(
        placements[0],
        WorldPlacement { region_id: 10, x: -450, y: 0, z: -450 }
    );
    assert_eq!(
        placements[4],
        WorldPlacement { region_id: 50, x: -150, y: 0, z: -150 }
    );
}

#[test]
fn grid_size_is_ceil_sqrt() {
    assert_eq!(grid_size(1), 1);
    assert_eq!(grid_size(2), 2);
    assert_eq!(grid_size(4), 2);
    assert_eq!(grid_size(5), 3);
    assert_eq!(grid_size(9), 3);
    assert_eq!(grid_size(10), 4);
    assert_eq!(grid_size(1_000_000), 1000);
    assert_eq!(grid_size(1_000_001), 1001);
}

#[test]
fn sorted_unique_ids_sorts_and_dedups() {
    assert_eq!(sorted_unique_ids(&vec![5, 3, 5, 1, 3]), vec![1, 3, 5]);
    assert_eq!(sorted_unique_ids(&vec![]), Vec::<i64>::new());
    assert_eq!(sorted_unique_ids(&vec![-2, -5, 0]), vec![-5, -2, 0]);
    assert_eq!(
        sorted_unique_ids(&vec![i64::MAX, i64::MIN, 0]),
        vec![i64::MIN, 0, i64::MAX]
    );
}
