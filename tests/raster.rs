use dungeon_core::raster::{bresenham, on_line, Raster};

#[test]
fn single_point_line() {
    assert_eq!(bresenham([3, 3], [3, 3]), vec![[3, 3]]);
}

#[test]
fn shallow_line_points() {
    assert_eq!(bresenham([0, 0], [4, 2]), vec![[0, 0], [1, 1], [2, 1], [3, 2], [4, 2]]);
}

#[test]
fn reversed_line_is_walked_from_its_own_start() {
    let back = bresenham([4, 2], [0, 0]);
    assert_eq!(back, vec![[4, 2], [3, 1], [2, 1], [1, 0], [0, 0]]);
    let mut fwd = bresenham([0, 0], [4, 2]);
    fwd.reverse();
    assert_ne!(fwd, back);
}

#[test]
fn both_orders_join_the_ends_in_unit_steps() {
    for (a, b) in [([5, 5], [25, 25]), ([25, 25], [5, 5]), ([-7, 3], [12, -20]), ([0, 9], [0, -4])] {
        let pts = bresenham(a, b);
        let longer = ((a[0] - b[0]).abs()).max((a[1] - b[1]).abs()) as usize;
        assert_eq!(pts.len(), longer + 1);
        assert_eq!(bresenham(b, a).len(), pts.len());
        assert_eq!(pts[0], a);
        assert_eq!(*pts.last().unwrap(), b);
        for w in pts.windows(2) {
            assert!((w[0][0] - w[1][0]).abs() <= 1);
            assert!((w[0][1] - w[1][1]).abs() <= 1);
            assert_ne!(w[0], w[1]);
        }
    }
}

#[test]
fn diagonal_corridor_points() {
    let pts = bresenham([5, 5], [25, 25]);
    assert_eq!(pts.len(), 21);
    for (k, p) in pts.iter().enumerate() {
        assert_eq!(*p, [5 + k as i16, 5 + k as i16]);
    }
}

#[test]
fn vertical_and_horizontal_lines() {
    assert_eq!(bresenham([2, 0], [2, -3]), vec![[2, 0], [2, -1], [2, -2], [2, -3]]);
    assert_eq!(bresenham([1, 1], [-1, 1]), vec![[1, 1], [0, 1], [-1, 1]]);
}

#[test]
fn extreme_ends() {
    let pts = bresenham([-32768, -32768], [32767, 32767]);
    assert_eq!(pts.len(), 65536);
    assert_eq!(pts[65535], [32767, 32767]);
}

#[test]
fn membership_on_line() {
    assert!(on_line([5, 5], [25, 25], [10, 10]));
    assert!(!on_line([5, 5], [25, 25], [10, 11]));
    assert!(on_line([0, 0], [4, 2], [2, 1]));
    assert!(!on_line([0, 0], [4, 2], [2, 0]));
    assert!(on_line([7, 7], [7, 7], [7, 7]));
}

#[test]
fn lazy_walk_can_stop_early() {
    let mut line = Raster::new([0, 0], [4, 2]);
    assert_eq!(line.next(), Some([0, 0]));
    assert_eq!(line.next(), Some([1, 1]));
    let mut rest = Vec::new();
    while let Some(p) = line.next() {
        rest.push(p);
    }
    assert_eq!(rest, vec![[2, 1], [3, 2], [4, 2]]);
    assert_eq!(line.next(), None);
}
