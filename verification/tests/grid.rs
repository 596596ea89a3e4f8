use physim::grid::{Coordinate, Grid};

#[test]
fn test_grid_iter_neighbourhoods() {
    // Entities at (1,1), (2,1) and (10,10) with cells of size 5.0.
    let keys: Vec<Coordinate> = vec![(0, 0, 0), (0, 0, 0), (2, 2, 0)];
    let grid = Grid::new(&keys);
    let mut iter = grid.iter();
    let mut neighbourhoods: Vec<Vec<usize>> = Vec::new();
    while let Some(n) = iter.next() {
        neighbourhoods.push(n);
    }
    assert_eq!(neighbourhoods.len(), 2);
    assert!(neighbourhoods
        .iter()
        .any(|nh| { nh.contains(&0) && nh.contains(&1) }));
    assert!(neighbourhoods.iter().any(|nh| nh.contains(&2)));
}

#[test]
fn neighbours_in_order() {
    let n = Grid::get_neighbours((0, 0, 0));
    assert_eq!(n[0], (-1, -1, 0));
    assert_eq!(n[4], (0, 0, 0));
    assert_eq!(n[9], (-1, -1, -1));
    assert_eq!(n[26], (1, 1, 1));
    assert_eq!(n.len(), 27);
}

#[test]
fn adjacent_cells_share_neighbourhoods() {
    let keys: Vec<Coordinate> = vec![(0, 0, 0), (1, 0, 0), (5, 5, 5)];
    let grid = Grid::new(&keys);
    let mut iter = grid.iter();
    assert_eq!(iter.next(), Some(vec![0, 1]));
    assert_eq!(iter.next(), Some(vec![0, 1]));
    assert_eq!(iter.next(), Some(vec![2]));
    assert_eq!(iter.next(), None);
}

#[test]
fn empty_grid_has_no_neighbourhoods() {
    let grid = Grid::new(&[]);
    let mut iter = grid.iter();
    assert_eq!(iter.next(), None);
}
