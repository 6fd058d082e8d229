use super_prime_mover::Array2D;

#[test]
fn try_get_mut2() {
    let mut vec = Array2D::new(8, 8);
    *vec.get_mut(0, 0).unwrap() = 5;
    assert_eq!(vec.get_mut2(0, 0, 1, 0), (Some(&mut 5), Some(&mut 0)));
    assert_eq!(vec.get_mut2(0, 0, 8, 0), (Some(&mut 5), None));
    assert_eq!(vec.get_mut2(8, 0, 0, 0), (None, Some(&mut 5)));
}

#[test]
fn new_grid_is_filled_with_defaults() {
    let grid: Array2D<i32> = Array2D::new(3, 2);
    for y in 0..2 {
        for x in 0..3 {
            assert_eq!(grid.get(x, y), Some(&0));
        }
    }
}

#[test]
fn get_out_of_range_is_none() {
    let grid: Array2D<i32> = Array2D::new(4, 4);
    assert_eq!(grid.get(4, 0), None);
    assert_eq!(grid.get(0, 4), None);
    assert_eq!(grid.get(usize::MAX, 0), None);
    assert_eq!(grid.get(0, usize::MAX), None);
    assert_eq!(grid.get(3, 3), Some(&0));
}

#[test]
fn get_mut_writes_one_cell() {
    let mut grid: Array2D<i32> = Array2D::new(4, 4);
    *grid.get_mut(2, 1).unwrap() = 7;
    assert_eq!(grid.get(2, 1), Some(&7));
    assert_eq!(grid.get(1, 2), Some(&0));
    assert_eq!(grid.get(2, 0), Some(&0));
    assert!(grid.get_mut(4, 0).is_none());
}

#[test]
fn get_mut2_writes_do_not_alias() {
    let mut grid: Array2D<i32> = Array2D::new(4, 4);
    {
        let (a, b) = grid.get_mut2(1, 1, 2, 2);
        *a.unwrap() = 11;
        *b.unwrap() = 22;
    }
    assert_eq!(grid.get(1, 1), Some(&11));
    assert_eq!(grid.get(2, 2), Some(&22));
    {
        // also with the higher linear position first
        let (a, b) = grid.get_mut2(3, 2, 0, 1);
        *a.unwrap() = 33;
        *b.unwrap() = 44;
    }
    assert_eq!(grid.get(3, 2), Some(&33));
    assert_eq!(grid.get(0, 1), Some(&44));
    assert_eq!(grid.get(1, 1), Some(&11));
}

#[test]
fn get_mut2_both_out_of_range() {
    let mut grid: Array2D<i32> = Array2D::new(4, 4);
    assert_eq!(grid.get_mut2(4, 0, 0, 4), (None, None));
}
