use glacier::gitter::Gitter;

#[test]
fn new_grid_is_filled() {
    let g = Gitter::new(4, 3, 0.0f32);
    assert_eq!(g.get_cols(), 4);
    assert_eq!(g.get_rows(), 3);
    assert_eq!(g.as_slice().len(), 12);
    assert!(g.iter().all(|v| *v == 0.0));
    assert_eq!(g.iter().count(), 12);
}

#[test]
fn par_iter_mut_maps_every_cell() {
    let cells: Vec<i64> = (0..12).collect();
    let mut g = Gitter::from_vec(4, 3, cells).unwrap();
    g.par_iter_mut(&|v: i64| v * v - 1);
    assert_eq!(g.get_cols(), 4);
    assert_eq!(g.get_rows(), 3);
    let want: Vec<i64> = (0..12).map(|v| v * v - 1).collect();
    assert_eq!(g.as_slice(), &want[..]);
    assert_eq!(g.get(3, 2), 120);
}

#[test]
fn set_touches_one_cell_row_major() {
    let mut g = Gitter::new(4, 3, 0i64);
    g.set(1, 2, 7);
    assert_eq!(g.get(1, 2), 7);
    // offset = y * width + x
    assert_eq!(g.as_slice()[2 * 4 + 1], 7);
    assert_eq!(g.as_slice().iter().filter(|v| **v != 0).count(), 1);
    assert_eq!(g.get(2, 1), 0);
}

#[test]
fn get_row_is_one_row() {
    let cells: Vec<i64> = (0..12).collect();
    let g = Gitter::from_vec(4, 3, cells).unwrap();
    assert_eq!(g.get_row(0), &[0, 1, 2, 3]);
    assert_eq!(g.get_row(2), &[8, 9, 10, 11]);
    assert_eq!(g.get(3, 1), 7);
}

#[test]
fn from_vec_rejects_wrong_length() {
    assert!(Gitter::from_vec(4, 3, vec![0i64; 11]).is_none());
    assert!(Gitter::from_vec(4, 3, vec![0i64; 13]).is_none());
    assert!(Gitter::from_vec(usize::MAX, 2, vec![0i64; 2]).is_none());
    let g = Gitter::from_vec(0, 5, Vec::<i64>::new()).unwrap();
    assert_eq!(g.get_rows(), 5);
}

#[test]
fn into_vec_gives_cells_back() {
    let g = Gitter::from_vec(2, 2, vec![1i64, 2, 3, 4]).unwrap();
    assert_eq!(g.into_vec(), vec![1, 2, 3, 4]);
}
