use realms::hex::{cube_neighbor, cube_neighbors, hexes, oddr_to_cube, Cube, CubeDirection};

#[test]
fn five_by_five_neighbour_counts() {
    let grid = hexes(5, 5);
    assert_eq!(grid.len(), 25);
    for hex in &grid {
        assert!(hex.neighbors.len() >= 2 && hex.neighbors.len() <= 6, "cell {} has {}", hex.id, hex.neighbors.len());
    }
    assert!(grid.iter().any(|h| h.neighbors.len() == 6));
}

#[test]
fn five_by_five_adjacency_is_symmetric() {
    let grid = hexes(5, 5);
    for hex in &grid {
        let mut sorted = hex.neighbors.clone();
        sorted.sort();
        sorted.dedup();
        assert_eq!(sorted.len(), hex.neighbors.len());
        for &n in &hex.neighbors {
            assert!(grid[n].neighbors.contains(&hex.id), "{} -> {} not mirrored", hex.id, n);
        }
    }
}

#[test]
fn grid_ids_and_offsets() {
    let grid = hexes(2, 3);
    assert_eq!(grid.len(), 6);
    assert_eq!(grid[4].id, 4);
    assert_eq!(grid[4].offset, (1, 1));
    assert_eq!(grid[0].neighbors, vec![1, 3]);
    assert_eq!(grid[4].neighbors, vec![1, 2, 3, 5]);
    assert_eq!(grid[1].cube, Cube::new(1, -1, 0));
}

#[test]
fn empty_grid() {
    assert!(hexes(0, 4).is_empty());
    assert!(hexes(4, 0).is_empty());
}

#[test]
fn oddr_conversion_values() {
    assert_eq!(oddr_to_cube(0, 0), Cube::new(0, 0, 0));
    assert_eq!(oddr_to_cube(1, 3), Cube::new(3, -4, 1));
    assert_eq!(oddr_to_cube(1, 0), Cube::new(0, -1, 1));
    assert_eq!(oddr_to_cube(3, 0), Cube::new(-1, -2, 3));
    assert_eq!(oddr_to_cube(-1, 0), Cube::new(1, 0, -1));
}

#[test]
fn neighbours_follow_directions() {
    let origin = Cube::new(1, -2, 1);
    assert_eq!(cube_neighbor(&origin, CubeDirection::Right), Cube::new(2, -3, 1));
    let all = cube_neighbors(&origin);
    assert_eq!(all.len(), 6);
    assert_eq!(all[0], Cube::new(1, -1, 0));
    assert_eq!(all[5], Cube::new(0, -2, 2));
    assert_eq!(CubeDirection::all().len(), 6);
    assert_eq!(CubeDirection::Left.value(), Cube::new(-1, 1, 0));
    assert_eq!(origin.plus(&Cube::new(1, 1, -2)), Cube::new(2, -1, -1));
}
