use particle_sim::grid::chebyshev_grid;

fn reference(n: u32) -> Vec<(u32, u32, u32)> {
    let mut k = 0u32;
    while (k as u64).pow(3) < n as u64 {
        k += 1;
    }
    let mut grid: Vec<(u32, u32, u32)> = (0..k)
        .flat_map(|x| (0..k).flat_map(move |y| (0..k).map(move |z| (x, y, z))))
        .collect();
    grid.sort_by_key(|&(x, y, z)| x.max(y).max(z));
    grid.truncate(n as usize);
    grid
}

#[test]
fn first_shells() {
    assert_eq!(chebyshev_grid(0), vec![]);
    assert_eq!(chebyshev_grid(1), vec![(0, 0, 0)]);
    assert_eq!(
        chebyshev_grid(8),
        vec![(0, 0, 0), (0, 0, 1), (0, 1, 0), (0, 1, 1), (1, 0, 0), (1, 0, 1), (1, 1, 0), (1, 1, 1)]
    );
    assert_eq!(chebyshev_grid(9)[8], (0, 0, 2));
}

#[test]
fn matches_sorted_cube() {
    for n in [2u32, 5, 26, 27, 28, 64, 100, 1000] {
        assert_eq!(chebyshev_grid(n), reference(n), "n = {}", n);
    }
}

#[test]
fn more_points_keep_earlier_ones() {
    let small = chebyshev_grid(30);
    let big = chebyshev_grid(200);
    assert_eq!(&big[..30], &small[..]);
}

#[test]
fn stays_in_smallest_cube() {
    assert!(chebyshev_grid(27).iter().all(|&(x, y, z)| x < 3 && y < 3 && z < 3));
    assert!(chebyshev_grid(28).iter().any(|&(x, y, z)| x == 3 || y == 3 || z == 3));
    assert!(chebyshev_grid(1000).iter().all(|&(x, y, z)| x < 10 && y < 10 && z < 10));
}

#[test]
fn first_cube_is_exact() {
    let g = chebyshev_grid(40);
    for j in 0u32..4 {
        let k = (j * j * j) as usize;
        let mut prefix: Vec<_> = g[..k].to_vec();
        prefix.sort();
        let mut cube: Vec<_> = (0..j)
            .flat_map(|x| (0..j).flat_map(move |y| (0..j).map(move |z| (x, y, z))))
            .collect();
        cube.sort();
        assert_eq!(prefix, cube, "j = {}", j);
    }
}
