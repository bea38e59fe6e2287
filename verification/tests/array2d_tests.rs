use particle_sim::array2d::Array2D;

#[test]
fn new_fills_every_cell() {
    let g: Array2D<u8> = Array2D::new(3, 2, 7);
    assert_eq!(g.width(), 3);
    assert_eq!(g.height(), 2);
    let v = g.as_vec();
    assert_eq!(v.len(), 6);
    for &c in v.iter() {
        assert_eq!(c, 7);
    }
}

#[test]
fn set_and_get_are_row_major() {
    let mut g: Array2D<u32> = Array2D::new(4, 3, 0);
    g.set(1, 0, 10);
    g.set(3, 2, 20);
    g.set(0, 1, 30);
    assert_eq!(g.get(1, 0), 10);
    assert_eq!(g.get(3, 2), 20);
    assert_eq!(g.get(0, 1), 30);
    assert_eq!(g.get(0, 0), 0);
    let v = g.as_vec();
    assert_eq!(v[1], 10);
    assert_eq!(v[3 + 2 * 4], 20);
    assert_eq!(v[4], 30);
}

#[test]
fn set_overwrites_previous_value() {
    let mut g: Array2D<i64> = Array2D::new(2, 2, -1);
    g.set(1, 1, 5);
    g.set(1, 1, 9);
    assert_eq!(g.get(1, 1), 9);
    assert_eq!(g.get(0, 0), -1);
}

#[test]
fn as_mut_vec_allows_bulk_rewrites() {
    let mut g: Array2D<u8> = Array2D::new(2, 2, 1);
    for c in g.as_mut_vec().iter_mut() {
        *c = 9;
    }
    assert_eq!(g.get(0, 0), 9);
    assert_eq!(g.get(1, 1), 9);
    assert_eq!(g.width(), 2);
    assert_eq!(g.height(), 2);
}

#[test]
fn one_by_one_grid() {
    let mut g: Array2D<u8> = Array2D::new(1, 1, 0);
    g.set(0, 0, 255);
    assert_eq!(g.get(0, 0), 255);
    assert_eq!(g.as_vec().len(), 1);
}
