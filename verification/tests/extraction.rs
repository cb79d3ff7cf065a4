use fieldchain::arith::Fraction;
use fieldchain::marching_squares::matrix::Matrix;
use fieldchain::marching_squares::tiles::Tiles;
use fieldchain::marching_squares::{
    cell_vertex, get_density_proportion, get_ruleset_and_map_id, index_to_corner_indices,
    marching_squares, triangle_mappings,
};
use fieldchain::point::Point;

fn points(coords: &[(i64, i64)]) -> Vec<Point<i64, 2>> {
    coords.iter().map(|c| Point::new([c.0, c.1])).collect()
}

#[test]
fn classification_sets_a_bit_for_each_solid_corner() {
    // corners of cell (0, 0), counter-clockwise from the bottom left:
    // 3, -6, 7, -2
    let data = [3, -6, -2, 7];
    let tiles = Tiles::new(Matrix::new([2, 2], &data), 9);
    assert_eq!(get_ruleset_and_map_id(Point::new([0, 0]), &tiles), (0, 2 + 8));
    // cell (-1, -1) has three corners outside the window and 3 at its top right
    assert_eq!(get_ruleset_and_map_id(Point::new([-1, -1]), &tiles), (1, 1 + 2 + 8));
    // cell (1, 1) has 7 at its bottom left and nothing else
    assert_eq!(get_ruleset_and_map_id(Point::new([1, 1]), &tiles), (1, 2 + 4 + 8));
    // far outside every corner is zero
    assert_eq!(get_ruleset_and_map_id(Point::new([5, 5]), &tiles), (1, 15));
}

#[test]
fn ruleset_one_needs_every_corner_above_minus_bias() {
    let zero = [0, 0, 0, 0];
    let tiles = Tiles::new(Matrix::new([2, 2], &zero), 1);
    assert_eq!(get_ruleset_and_map_id(Point::new([0, 0]), &tiles), (1, 15));
    let one_below = [0, 0, -1, 0];
    let tiles = Tiles::new(Matrix::new([2, 2], &one_below), 1);
    assert_eq!(get_ruleset_and_map_id(Point::new([0, 0]), &tiles), (0, 15));
    let positive = [1, 2, 3, 4];
    let tiles = Tiles::new(Matrix::new([2, 2], &positive), 1);
    assert_eq!(get_ruleset_and_map_id(Point::new([0, 0]), &tiles), (1, 0));
}

#[test]
fn corner_indices_flank_each_position() {
    assert_eq!(index_to_corner_indices(0), [0, 0]);
    assert_eq!(index_to_corner_indices(1), [0, 1]);
    assert_eq!(index_to_corner_indices(2), [1, 1]);
    assert_eq!(index_to_corner_indices(3), [1, 2]);
    assert_eq!(index_to_corner_indices(4), [2, 2]);
    assert_eq!(index_to_corner_indices(5), [2, 3]);
    assert_eq!(index_to_corner_indices(6), [3, 3]);
    assert_eq!(index_to_corner_indices(7), [3, 0]);
    assert_eq!(index_to_corner_indices(usize::MAX), [usize::MAX / 2, 0]);
}

#[test]
fn triangle_table_rows() {
    assert_eq!(triangle_mappings(0, 0), Vec::<usize>::new());
    assert_eq!(triangle_mappings(0, 1), vec![7, 1, 0]);
    assert_eq!(triangle_mappings(0, 2), vec![3, 2, 1]);
    assert_eq!(triangle_mappings(0, 3), vec![7, 2, 0, 7, 3, 2]);
    assert_eq!(triangle_mappings(0, 4), vec![5, 4, 3]);
    assert_eq!(triangle_mappings(0, 5), vec![7, 1, 0, 5, 4, 3, 7, 3, 1, 7, 5, 3]);
    assert_eq!(triangle_mappings(0, 6), vec![1, 4, 2, 1, 5, 4]);
    assert_eq!(triangle_mappings(0, 7), vec![2, 0, 7, 5, 2, 7, 4, 2, 5]);
    assert_eq!(triangle_mappings(0, 8), vec![7, 6, 5]);
    assert_eq!(triangle_mappings(0, 9), vec![0, 5, 1, 0, 6, 5]);
    assert_eq!(triangle_mappings(0, 10), vec![3, 2, 1, 7, 6, 5, 7, 3, 1, 7, 5, 3]);
    assert_eq!(triangle_mappings(0, 11), vec![6, 5, 0, 5, 3, 0, 3, 2, 0]);
    assert_eq!(triangle_mappings(0, 12), vec![6, 3, 7, 6, 4, 3]);
    assert_eq!(triangle_mappings(0, 13), vec![6, 4, 3, 6, 3, 1, 6, 1, 0]);
    assert_eq!(triangle_mappings(0, 14), vec![6, 4, 7, 4, 1, 7, 4, 2, 1]);
    assert_eq!(triangle_mappings(0, 15), vec![0, 4, 2, 0, 6, 4]);
}

#[test]
fn second_ruleset_is_empty_but_for_the_enclosed_cell() {
    for map_id in 0..15 {
        assert_eq!(triangle_mappings(1, map_id), Vec::<usize>::new());
    }
    assert_eq!(triangle_mappings(1, 15), vec![0, 8, 2, 2, 8, 4, 4, 8, 6, 6, 8, 0]);
}

#[test]
fn proportion_follows_the_two_densities() {
    // corners of cell (0, 0): 3, -6, 7, -2
    let data = [3, -6, -2, 7];
    let tiles = Tiles::new(Matrix::new([2, 2], &data), 9);
    let at = Point::new([0, 0]);
    // 3 against -6: |3| / (3 - -6)
    assert_eq!(get_density_proportion(at, [0, 1], &tiles), Fraction { num: 3, den: 9 });
    // -6 against 7: |-6| / (-6 - 7), written with a positive denominator
    assert_eq!(get_density_proportion(at, [1, 2], &tiles), Fraction { num: -6, den: 13 });
    // 7 against -2
    assert_eq!(get_density_proportion(at, [2, 3], &tiles), Fraction { num: 7, den: 9 });
    // -2 against 3
    assert_eq!(get_density_proportion(at, [3, 0], &tiles), Fraction { num: -2, den: 5 });
    // equal densities
    assert_eq!(get_density_proportion(at, [2, 2], &tiles), Fraction { num: 0, den: 1 });
}

#[test]
fn proportion_at_a_zero_density() {
    let data = [0, 5, -5, 0];
    let tiles = Tiles::new(Matrix::new([2, 2], &data), 9);
    let at = Point::new([0, 0]);
    // corners of cell (0, 0): 0, 5, 0, -5
    // the second density is zero
    assert_eq!(get_density_proportion(at, [1, 2], &tiles), Fraction { num: 1, den: 1 });
    assert_eq!(get_density_proportion(at, [3, 0], &tiles), Fraction { num: 1, den: 1 });
    assert_eq!(get_density_proportion(at, [0, 0], &tiles), Fraction { num: 1, den: 1 });
    // the first density is zero, the second is not
    assert_eq!(get_density_proportion(at, [0, 1], &tiles), Fraction { num: 0, den: 1 });
    assert_eq!(get_density_proportion(at, [2, 3], &tiles), Fraction { num: 0, den: 1 });
}

#[test]
fn proportion_at_the_ends_of_the_density_range() {
    let data = [i32::MIN, i32::MAX, i32::MAX, i32::MIN];
    let tiles = Tiles::new(Matrix::new([2, 2], &data), 9);
    let at = Point::new([0, 0]);
    assert_eq!(
        get_density_proportion(at, [0, 1], &tiles),
        Fraction { num: -2147483648, den: 4294967295 }
    );
    assert_eq!(
        get_density_proportion(at, [1, 2], &tiles),
        Fraction { num: 2147483647, den: 4294967295 }
    );
}

#[test]
fn vertices_of_a_cell() {
    // corners of cell (0, 0): 3, -6, 7, -2
    let data = [3, -6, -2, 7];
    let tiles = Tiles::new(Matrix::new([2, 2], &data), 9);
    let at = Point::new([0, 0]);
    assert_eq!(cell_vertex(at, 0, &tiles), Point::new([0, 0]));
    assert_eq!(cell_vertex(at, 2, &tiles), Point::new([9, 0]));
    assert_eq!(cell_vertex(at, 4, &tiles), Point::new([9, 9]));
    assert_eq!(cell_vertex(at, 6, &tiles), Point::new([0, 9]));
    assert_eq!(cell_vertex(at, 8, &tiles), Point::new([4, 4]));
    // edge 1, from (0, 0) to (9, 0) with t = 3/9: 0 * t + 9 * (1 - t)
    assert_eq!(cell_vertex(at, 1, &tiles), Point::new([6, 0]));
    // edge 3, from (9, 0) to (9, 9) with t = -6/13: 9 * 19 / 13, rounded down
    assert_eq!(cell_vertex(at, 3, &tiles), Point::new([9, 13]));
    // edge 5, from (9, 9) to (0, 9) with t = 7/9
    assert_eq!(cell_vertex(at, 5, &tiles), Point::new([7, 9]));
    // edge 7, from (0, 9) to (0, 0) with t = -2/5: 9 * -2 / 5, rounded down
    assert_eq!(cell_vertex(at, 7, &tiles), Point::new([0, -4]));
}

#[test]
fn vertices_move_with_their_cell() {
    let data = [3, -6, -2, 7];
    let tiles = Tiles::new(Matrix::new([2, 2], &data), 9);
    assert_eq!(cell_vertex(Point::new([-1, -1]), 4, &tiles), Point::new([0, 0]));
    assert_eq!(cell_vertex(Point::new([-1, 1]), 8, &tiles), Point::new([-5, 13]));
    assert_eq!(cell_vertex(Point::new([1, 0]), 6, &tiles), Point::new([9, 9]));
}

#[test]
fn a_positive_field_has_no_vertices() {
    let data = [5];
    let tiles = Tiles::new(Matrix::new([1, 1], &data), 10);
    let (vertices, collision) = marching_squares(&tiles);
    assert!(vertices.is_empty());
    assert!(collision.is_empty());
    let data = [1, 2, 3, 4, 5, 6];
    let tiles = Tiles::new(Matrix::new([3, 2], &data), 10);
    let (vertices, collision) = marching_squares(&tiles);
    assert!(vertices.is_empty());
    assert!(collision.is_empty());
}

#[test]
fn a_single_solid_node_fills_the_four_cells_around_it() {
    let data = [-4];
    let tiles = Tiles::new(Matrix::new([1, 1], &data), 10);
    let (vertices, collision) = marching_squares(&tiles);
    let expected = points(&[
        (-10, -10), (0, 0), (0, -10), (-10, -10), (-10, 0), (0, 0),
        (0, -10), (10, 0), (10, -10), (0, -10), (0, 0), (10, 0),
        (-10, 0), (0, 10), (0, 0), (-10, 0), (-10, 10), (0, 10),
        (0, 0), (10, 10), (10, 0), (0, 0), (0, 10), (10, 10),
    ]);
    assert_eq!(vertices, expected);
    assert_eq!(collision, expected);
}

#[test]
fn edges_are_cut_by_the_density_proportion() {
    let data = [-4, 4];
    let tiles = Tiles::new(Matrix::new([2, 1], &data), 8);
    let (vertices, collision) = marching_squares(&tiles);
    let expected = points(&[
        (-8, -8), (0, 0), (0, -8), (-8, -8), (-8, 0), (0, 0),
        (0, 0), (4, 0), (0, -8), (4, 0), (8, 0), (0, -8), (8, 0), (8, -8), (0, -8),
        (-8, 0), (0, 8), (0, 0), (-8, 0), (-8, 8), (0, 8),
        (0, 8), (8, 8), (8, 0), (0, 8), (8, 0), (12, 0), (0, 8), (12, 0), (0, 0),
    ]);
    assert_eq!(vertices, expected);
    assert_eq!(collision, expected);
}

#[test]
fn a_field_of_zeros_is_enclosed_everywhere() {
    let data = [0, 0, 0, 0];
    let tiles = Tiles::new(Matrix::new([2, 2], &data), 6);
    let (vertices, collision) = marching_squares(&tiles);
    assert_eq!(vertices.len(), 9 * 12);
    assert_eq!(
        &vertices[..12],
        &points(&[
            (-6, -6), (-3, -3), (0, -6), (0, -6), (-3, -3), (0, 0),
            (0, 0), (-3, -3), (-6, 0), (-6, 0), (-3, -3), (-6, -6),
        ])[..]
    );
    assert_eq!(
        &vertices[96..],
        &points(&[
            (6, 6), (9, 9), (12, 6), (12, 6), (9, 9), (12, 12),
            (12, 12), (9, 9), (6, 12), (6, 12), (9, 9), (6, 6),
        ])[..]
    );
    assert!(collision.is_empty());
}

#[test]
fn enclosed_cells_next_to_the_boundary_matter_for_collisions() {
    let data = [0, 0, 0, 0, 0, 0, 0, 0, -3];
    let tiles = Tiles::new(Matrix::new([3, 3], &data), 4);
    let (vertices, collision) = marching_squares(&tiles);
    assert_eq!(vertices.len(), 12 * 12 + 4 * 6);
    let expected_collision = points(&[
        (4, 0), (6, 2), (8, 0), (8, 0), (6, 2), (8, 4), (8, 4), (6, 2), (4, 4), (4, 4), (6, 2), (4, 0),
        (8, 0), (10, 2), (12, 0), (12, 0), (10, 2), (12, 4), (12, 4), (10, 2), (8, 4), (8, 4), (10, 2), (8, 0),
        (0, 4), (2, 6), (4, 4), (4, 4), (2, 6), (4, 8), (4, 8), (2, 6), (0, 8), (0, 8), (2, 6), (0, 4),
        (4, 4), (8, 8), (8, 4), (4, 4), (4, 8), (8, 8),
        (8, 4), (12, 8), (12, 4), (8, 4), (8, 8), (12, 8),
        (0, 8), (2, 10), (4, 8), (4, 8), (2, 10), (4, 12), (4, 12), (2, 10), (0, 12), (0, 12), (2, 10), (0, 8),
        (4, 8), (8, 12), (8, 8), (4, 8), (4, 12), (8, 12),
        (8, 8), (12, 12), (12, 8), (8, 8), (8, 12), (12, 12),
    ]);
    assert_eq!(collision, expected_collision);
    for v in &collision {
        assert!(vertices.contains(v));
    }
}

#[test]
fn a_mixed_field() {
    let data = [3, -6, -2, 7];
    let tiles = Tiles::new(Matrix::new([2, 2], &data), 9);
    let (vertices, collision) = marching_squares(&tiles);
    let expected = points(&[
        (9, -9), (0, -9), (0, 0), (-6, 0), (9, -9), (0, 0), (9, 0), (9, -9), (-6, 0),
        (9, -9), (18, 0), (18, -9), (9, -9), (9, 0), (18, 0),
        (-9, 9), (0, 9), (0, 3), (-9, 9), (0, 3), (0, 0), (-9, 9), (0, 0), (-9, 0),
        (9, 13), (9, 0), (6, 0), (0, -4), (0, 9), (7, 9), (0, -4), (9, 13), (6, 0), (0, -4), (7, 9), (9, 13),
        (18, 0), (9, 0), (9, 4), (9, 9), (18, 0), (9, 4), (18, 9), (18, 0), (9, 9),
        (-9, 9), (0, 18), (0, 9), (-9, 9), (-9, 18), (0, 18),
        (0, 18), (9, 18), (9, 9), (0, 18), (9, 9), (11, 9), (0, 18), (11, 9), (0, 9),
    ]);
    assert_eq!(vertices, expected);
    assert_eq!(collision, expected);
    assert_eq!(vertices.len() % 3, 0);
    // two nodes on each axis, nine units apart: no vertex is more than one
    // cell away from the window
    for v in &vertices {
        assert!(-9 <= v[0] && v[0] <= 18);
        assert!(-9 <= v[1] && v[1] <= 18);
    }
}

#[test]
fn a_field_without_samples_has_no_vertices() {
    let data: [i32; 0] = [];
    let tiles = Tiles::new(Matrix::new([0, 0], &data), 2);
    let (vertices, collision) = marching_squares(&tiles);
    assert!(vertices.is_empty());
    assert!(collision.is_empty());
    let tiles = Tiles::new(Matrix::new([0, 5], &data), 2);
    let (vertices, collision) = marching_squares(&tiles);
    assert!(vertices.is_empty());
    assert!(collision.is_empty());
    let tiles = Tiles::new(Matrix::new([3, 0], &data), 2);
    let (vertices, collision) = marching_squares(&tiles);
    assert!(vertices.is_empty());
    assert!(collision.is_empty());
}

#[test]
fn a_field_of_one_zero_has_its_ring() {
    let data = [0];
    let tiles = Tiles::new(Matrix::new([1, 1], &data), 2);
    let (vertices, collision) = marching_squares(&tiles);
    assert_eq!(vertices.len(), 4 * 12);
    assert_eq!(
        &vertices[..12],
        &points(&[
            (-2, -2), (-1, -1), (0, -2), (0, -2), (-1, -1), (0, 0),
            (0, 0), (-1, -1), (-2, 0), (-2, 0), (-1, -1), (-2, -2),
        ])[..]
    );
    assert!(collision.is_empty());
}
