use fieldchain::marching_squares::matrix::Matrix;
use fieldchain::marching_squares::tiles::Tiles;
use fieldchain::point::Point;

#[test]
fn get_reads_row_major_with_first_axis_fastest() {
    let data = [10, 11, 12, 13, 14, 15];
    let m = Matrix::new([2, 3], &data);
    assert_eq!(m.get([0, 0]), 10);
    assert_eq!(m.get([1, 0]), 11);
    assert_eq!(m.get([0, 1]), 12);
    assert_eq!(m.get([1, 2]), 15);
    assert_eq!(m.dim(), [2, 3]);
}

#[test]
fn try_new_rejects_a_buffer_of_the_wrong_length() {
    let data = [1, 2, 3, 4, 5];
    assert!(Matrix::try_new([2, 3], &data).is_none());
    assert!(Matrix::try_new([5], &data).is_some());
}

#[test]
fn density_outside_the_window_is_zero() {
    let data = [7, 8, 9, 10];
    let tiles = Tiles::new(Matrix::new([2, 2], &data), 4);
    assert_eq!(tiles.get(Point::new([1, 1])), 10);
    assert_eq!(tiles.get(Point::new([-1, 0])), 0);
    assert_eq!(tiles.get(Point::new([0, 2])), 0);
    assert_eq!(tiles.get(Point::new([2, 0])), 0);
}

#[test]
fn get_in_three_dimensions() {
    let data: Vec<u8> = (0..24).collect();
    let m = Matrix::new([2, 3, 4], &data);
    assert_eq!(m.get([0, 0, 0]), 0);
    assert_eq!(m.get([1, 0, 0]), 1);
    assert_eq!(m.get([0, 1, 0]), 2);
    assert_eq!(m.get([0, 0, 1]), 6);
    assert_eq!(m.get([1, 2, 3]), 23);
    assert_eq!(m.dim(), [2, 3, 4]);
}

#[test]
fn get_without_dimensions() {
    let data = [42];
    let m: Matrix<i32, 0> = Matrix::new([], &data);
    assert_eq!(m.get([]), 42);
    let none: [i32; 0] = [];
    assert!(Matrix::<i32, 0>::try_new([], &none).is_none());
}

#[test]
fn try_new_with_an_empty_axis() {
    let empty: [i32; 0] = [];
    assert!(Matrix::try_new([0, 7], &empty).is_some());
    assert!(Matrix::try_new([usize::MAX, 0, usize::MAX], &empty).is_some());
    let one = [1];
    assert!(Matrix::try_new([0, 7], &one).is_none());
}

#[test]
fn try_new_with_more_nodes_than_can_be_counted() {
    let data = [1, 2, 3, 4];
    assert!(Matrix::try_new([usize::MAX, 2], &data).is_none());
    assert!(Matrix::try_new([usize::MAX, usize::MAX, usize::MAX], &data).is_none());
    assert!(Matrix::try_new([2, 2], &data).is_some());
}

#[test]
fn try_new_gives_the_same_grid_as_new() {
    let data = [10, 11, 12, 13, 14, 15];
    let m = Matrix::try_new([3, 2], &data).unwrap();
    assert_eq!(m.get([2, 0]), 12);
    assert_eq!(m.get([0, 1]), 13);
    assert_eq!(m.get([2, 1]), 15);
}

#[test]
fn density_field_accessors() {
    let data = [7, 8, 9, 10, 11, 12];
    let tiles = Tiles::new(Matrix::new([3, 2], &data), 40);
    assert_eq!(tiles.dimension(), [3, 2]);
    assert_eq!(tiles.dist_between_nodes(), 40);
    assert_eq!(tiles.get(Point::new([2, 1])), 12);
    assert_eq!(tiles.get(Point::new([0, 1])), 10);
    assert_eq!(tiles.get(Point::new([3, 1])), 0);
    assert_eq!(tiles.get(Point::new([2, -1])), 0);
    assert_eq!(tiles.get(Point::new([i32::MIN, i32::MAX])), 0);
}

#[test]
fn density_field_of_any_sample_type() {
    let data = [1.5f32, -2.5, 0.25, 8.0];
    let tiles = Tiles::new(Matrix::new([2, 2], &data), 1);
    assert_eq!(tiles.get(Point::new([1, 0])), -2.5);
    assert_eq!(tiles.get(Point::new([1, 2])), 0.0);
}

#[test]
fn every_node_has_its_own_place() {
    let data: Vec<u32> = (0..60).collect();
    let m = Matrix::new([3, 4, 5], &data);
    let mut seen = vec![false; 60];
    for z in 0..5 {
        for y in 0..4 {
            for x in 0..3 {
                let at = m.get([x, y, z]);
                assert_eq!(at as usize, x + 3 * y + 12 * z);
                assert!(!seen[at as usize]);
                seen[at as usize] = true;
            }
        }
    }
    assert!(seen.iter().all(|s| *s));
}
