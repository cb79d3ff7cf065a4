//! What holds of every extraction.
use crate::arith::{lemma_floor_div_range, lerp_value};
use crate::marching_squares::tiles::Tiles;
use crate::marching_squares::{
    cell_output, cell_vertices, corner, corner_density, field_output, has_boundary_pattern,
    is_collision_cell, lemma_triangle_mappings_entries, map_id_upto, row_output, spec_map_id,
    local_position, scaled_corner, spec_corner_indices, spec_density_proportion,
    spec_marching_squares, spec_ruleset, spec_triangle_mappings, spec_vertex, without_samples,
    BIAS, CENTER,
};
use vstd::prelude::*;

verus! {

/// Every sample of the field, with the bias added, is positive.
pub open spec fn biased_positive(tiles: &Tiles<i32>) -> bool {
    forall|x: int, y: int| tiles.in_window(x, y) ==> #[trigger] tiles.sample(x, y) + BIAS > 0
}

/// Every sample of the field is positive.
pub open spec fn positive(tiles: &Tiles<i32>) -> bool {
    forall|x: int, y: int| tiles.in_window(x, y) ==> #[trigger] tiles.sample(x, y) > 0
}

/// A cell is classified 15 exactly when all its corners are solid, and 0
/// exactly when none is.
pub proof fn lemma_map_id_extremes(tiles: &Tiles<i32>, x: int, y: int)
    ensures
        spec_map_id(tiles, x, y) < 16,
        spec_map_id(tiles, x, y) == 15 <==> forall|i: int|
            0 <= i < 4 ==> corner_density(tiles, x, y, i) <= 0,
        spec_map_id(tiles, x, y) == 0 <==> forall|i: int|
            0 <= i < 4 ==> corner_density(tiles, x, y, i) > 0,
{
    reveal_with_fuel(map_id_upto, 5);
    if spec_map_id(tiles, x, y) == 15 {
        assert forall|i: int| 0 <= i < 4 implies corner_density(tiles, x, y, i) <= 0 by {
            if i == 0 {
            } else if i == 1 {
            } else if i == 2 {
            } else {
            }
        }
    }
    if spec_map_id(tiles, x, y) == 0 {
        assert forall|i: int| 0 <= i < 4 implies corner_density(tiles, x, y, i) > 0 by {
            if i == 0 {
            } else if i == 1 {
            } else if i == 2 {
            } else {
            }
        }
    }
    if forall|i: int| 0 <= i < 4 ==> corner_density(tiles, x, y, i) <= 0 {
        assert(corner_density(tiles, x, y, 0) <= 0);
        assert(corner_density(tiles, x, y, 1) <= 0);
        assert(corner_density(tiles, x, y, 2) <= 0);
        assert(corner_density(tiles, x, y, 3) <= 0);
    }
    if forall|i: int| 0 <= i < 4 ==> corner_density(tiles, x, y, i) > 0 {
        assert(corner_density(tiles, x, y, 0) > 0);
        assert(corner_density(tiles, x, y, 1) > 0);
        assert(corner_density(tiles, x, y, 2) > 0);
        assert(corner_density(tiles, x, y, 3) > 0);
    }
}

/// The output of a cell is a whole number of triangles.
pub proof fn lemma_cell_output_triangles(tiles: &Tiles<i32>, x: int, y: int, collision: bool)
    ensures
        cell_output(tiles, x, y, collision).len() % 3 == 0,
{
    lemma_triangle_mappings_entries(
        spec_ruleset(tiles, x, y) as int,
        spec_map_id(tiles, x, y) as int,
    );
}

/// The output of a row of cells is a whole number of triangles.
pub proof fn lemma_row_output_triangles(tiles: &Tiles<i32>, y: int, end: int, collision: bool)
    ensures
        row_output(tiles, y, end, collision).len() % 3 == 0,
    decreases end + 1,
{
    if end > -1 {
        lemma_row_output_triangles(tiles, y, end - 1, collision);
        lemma_cell_output_triangles(tiles, end - 1, y, collision);
    }
}

/// The output of any number of rows is a whole number of triangles.
pub proof fn lemma_field_output_triangles(tiles: &Tiles<i32>, end: int, collision: bool)
    ensures
        field_output(tiles, end, collision).len() % 3 == 0,
    decreases end + 1,
{
    if end > -1 {
        lemma_field_output_triangles(tiles, end - 1, collision);
        lemma_row_output_triangles(tiles, end - 1, tiles.width(), collision);
    }
}

/// Both outputs of an extraction are lists of triangles: their lengths are
/// multiples of three.
pub proof fn lemma_outputs_are_triangles(tiles: &Tiles<i32>)
    ensures
        spec_marching_squares(tiles).0.len() % 3 == 0,
        spec_marching_squares(tiles).1.len() % 3 == 0,
{
    if !without_samples(tiles) {
        lemma_field_output_triangles(tiles, tiles.height(), false);
        lemma_field_output_triangles(tiles, tiles.height(), true);
    }
}

/// Every vertex in the collision output of a row is in its full output.
pub proof fn lemma_row_collision_is_output(tiles: &Tiles<i32>, y: int, end: int, v: (int, int))
    requires
        row_output(tiles, y, end, true).contains(v),
    ensures
        row_output(tiles, y, end, false).contains(v),
    decreases end + 1,
{
    if end > -1 {
        let before = row_output(tiles, y, end - 1, true);
        let cell = cell_output(tiles, end - 1, y, true);
        let i = choose|i: int| 0 <= i < (before + cell).len() && (before + cell)[i] == v;
        let all_before = row_output(tiles, y, end - 1, false);
        let all_cell = cell_output(tiles, end - 1, y, false);
        if i < before.len() {
            assert(before[i] == v);
            lemma_row_collision_is_output(tiles, y, end - 1, v);
            let j = choose|j: int| 0 <= j < all_before.len() && all_before[j] == v;
            assert((all_before + all_cell)[j] == v);
        } else {
            let k = i - before.len();
            assert(cell[k] == v);
            assert(all_cell[k] == v);
            assert((all_before + all_cell)[all_before.len() + k] == v);
        }
    }
}

/// Every vertex in the collision output of some rows is in their full
/// output.
pub proof fn lemma_field_collision_is_output(tiles: &Tiles<i32>, end: int, v: (int, int))
    requires
        field_output(tiles, end, true).contains(v),
    ensures
        field_output(tiles, end, false).contains(v),
    decreases end + 1,
{
    if end > -1 {
        let before = field_output(tiles, end - 1, true);
        let row = row_output(tiles, end - 1, tiles.width(), true);
        let i = choose|i: int| 0 <= i < (before + row).len() && (before + row)[i] == v;
        let all_before = field_output(tiles, end - 1, false);
        let all_row = row_output(tiles, end - 1, tiles.width(), false);
        if i < before.len() {
            assert(before[i] == v);
            lemma_field_collision_is_output(tiles, end - 1, v);
            let j = choose|j: int| 0 <= j < all_before.len() && all_before[j] == v;
            assert((all_before + all_row)[j] == v);
        } else {
            let k = i - before.len();
            assert(row[k] == v);
            lemma_row_collision_is_output(tiles, end - 1, tiles.width(), v);
            let j = choose|j: int| 0 <= j < all_row.len() && all_row[j] == v;
            assert((all_before + all_row)[all_before.len() + j] == v);
        }
    }
}

/// The collision output is taken from the vertices: whatever it holds, the
/// full output holds too.
pub proof fn lemma_collision_vertices_are_vertices(tiles: &Tiles<i32>)
    ensures
        forall|v: (int, int)|
            spec_marching_squares(tiles).1.contains(v) ==> spec_marching_squares(
                tiles,
            ).0.contains(v),
{
    assert forall|v: (int, int)| spec_marching_squares(tiles).1.contains(v) implies spec_marching_squares(
        tiles,
    ).0.contains(v) by {
        if !without_samples(tiles) {
            lemma_field_collision_is_output(tiles, tiles.height(), v);
        }
    }
}

/// Ruleset 1 applies to every cell of a field whose samples, with the bias
/// added, are all positive: inside the window, on its rim and beyond.
pub proof fn lemma_biased_positive_ruleset(tiles: &Tiles<i32>, x: int, y: int)
    requires
        biased_positive(tiles),
    ensures
        spec_ruleset(tiles, x, y) == 1,
        !has_boundary_pattern(tiles, x, y),
{
    assert forall|i: int| 0 <= i < 4 implies corner_density(tiles, x, y, i) + BIAS > 0 by {
        let cx = x + corner(i).0;
        let cy = y + corner(i).1;
        if tiles.in_window(cx, cy) {
            assert(tiles.sample(cx, cy) + BIAS > 0);
        }
    }
}

/// No row of a field whose samples, with the bias added, are all positive
/// has collision output.
pub proof fn lemma_biased_positive_row(tiles: &Tiles<i32>, y: int, end: int)
    requires
        biased_positive(tiles),
    ensures
        row_output(tiles, y, end, true) == Seq::<(int, int)>::empty(),
    decreases end + 1,
{
    if end > -1 {
        lemma_biased_positive_row(tiles, y, end - 1);
        lemma_biased_positive_ruleset(tiles, end - 1, y);
        lemma_biased_positive_ruleset(tiles, end - 2, y);
        lemma_biased_positive_ruleset(tiles, end, y);
        lemma_biased_positive_ruleset(tiles, end - 1, y - 1);
        lemma_biased_positive_ruleset(tiles, end - 1, y + 1);
        assert(row_output(tiles, y, end, true) =~= Seq::<(int, int)>::empty());
    }
}

/// No number of rows of a field whose samples, with the bias added, are all
/// positive has collision output.
pub proof fn lemma_biased_positive_field(tiles: &Tiles<i32>, end: int)
    requires
        biased_positive(tiles),
    ensures
        field_output(tiles, end, true) == Seq::<(int, int)>::empty(),
    decreases end + 1,
{
    if end > -1 {
        lemma_biased_positive_field(tiles, end - 1);
        lemma_biased_positive_row(tiles, end - 1, tiles.width());
        assert(field_output(tiles, end, true) =~= Seq::<(int, int)>::empty());
    }
}

/// A field whose samples, with the bias added, are all positive has no
/// boundary: no cell matters for collisions, deep inside the window or at
/// its rim, and the collision output is empty.
pub proof fn lemma_biased_positive_has_no_collisions(tiles: &Tiles<i32>)
    requires
        biased_positive(tiles),
    ensures
        forall|x: int, y: int| !#[trigger] is_collision_cell(tiles, x, y),
        spec_marching_squares(tiles).1 == Seq::<(int, int)>::empty(),
{
    assert forall|x: int, y: int| !#[trigger] is_collision_cell(tiles, x, y) by {
        lemma_biased_positive_ruleset(tiles, x, y);
        lemma_biased_positive_ruleset(tiles, x - 1, y);
        lemma_biased_positive_ruleset(tiles, x + 1, y);
        lemma_biased_positive_ruleset(tiles, x, y - 1);
        lemma_biased_positive_ruleset(tiles, x, y + 1);
    }
    lemma_biased_positive_field(tiles, tiles.height());
}

/// A cell that touches the window of a positive field with at least one
/// sample has no vertices: one
/// of its corners is not solid, and ruleset 1 has triangles for the cell of
/// four solid corners alone.
proof fn lemma_positive_cell(tiles: &Tiles<i32>, x: int, y: int)
    requires
        positive(tiles),
        tiles.width() >= 1,
        tiles.height() >= 1,
        -1 <= x < tiles.width(),
        -1 <= y < tiles.height(),
    ensures
        cell_vertices(tiles, x, y) == Seq::<(int, int)>::empty(),
{
    assert forall|i: int| 0 <= i < 4 implies corner_density(tiles, x, y, i) + BIAS > 0 by {
        let cx = x + corner(i).0;
        let cy = y + corner(i).1;
        if tiles.in_window(cx, cy) {
            assert(tiles.sample(cx, cy) > 0);
        }
    }
    let i: int = if x >= 0 {
        if y >= 0 {
            0
        } else {
            3
        }
    } else {
        if y >= 0 {
            1
        } else {
            2
        }
    };
    let cx = x + corner(i).0;
    let cy = y + corner(i).1;
    assert(tiles.in_window(cx, cy));
    assert(tiles.sample(cx, cy) > 0);
    assert(corner_density(tiles, x, y, i) > 0);
    lemma_map_id_extremes(tiles, x, y);
    assert(spec_map_id(tiles, x, y) != 15);
    assert(cell_vertices(tiles, x, y) =~= Seq::<(int, int)>::empty());
}

/// A row of a positive field has no vertices.
proof fn lemma_positive_row(tiles: &Tiles<i32>, y: int, end: int, collision: bool)
    requires
        positive(tiles),
        tiles.width() >= 1,
        tiles.height() >= 1,
        -1 <= y < tiles.height(),
        end <= tiles.width(),
    ensures
        row_output(tiles, y, end, collision) == Seq::<(int, int)>::empty(),
    decreases end + 1,
{
    if end > -1 {
        lemma_positive_row(tiles, y, end - 1, collision);
        lemma_positive_cell(tiles, end - 1, y);
        assert(row_output(tiles, y, end, collision) =~= Seq::<(int, int)>::empty());
    }
}

/// The first rows of a positive field have no vertices.
proof fn lemma_positive_rows(tiles: &Tiles<i32>, end: int, collision: bool)
    requires
        positive(tiles),
        tiles.width() >= 1,
        tiles.height() >= 1,
        end <= tiles.height(),
    ensures
        field_output(tiles, end, collision) == Seq::<(int, int)>::empty(),
    decreases end + 1,
{
    if end > -1 {
        lemma_positive_rows(tiles, end - 1, collision);
        lemma_positive_row(tiles, end - 1, tiles.width(), collision);
        assert(field_output(tiles, end, collision) =~= Seq::<(int, int)>::empty());
    }
}

/// A field whose samples are all positive has no solid part: both outputs
/// of its extraction are empty.
pub proof fn lemma_positive_field_is_empty(tiles: &Tiles<i32>)
    requires
        positive(tiles),
    ensures
        spec_marching_squares(tiles).0 == Seq::<(int, int)>::empty(),
        spec_marching_squares(tiles).1 == Seq::<(int, int)>::empty(),
{
    if !without_samples(tiles) {
        lemma_positive_rows(tiles, tiles.height(), false);
        lemma_positive_rows(tiles, tiles.height(), true);
    }
}

/// No sample of the field is positive.
pub open spec fn non_positive(tiles: &Tiles<i32>) -> bool {
    forall|x: int, y: int| tiles.in_window(x, y) ==> #[trigger] tiles.sample(x, y) <= 0
}

/// A field without samples, and so without a positive sample, has no
/// vertices: both outputs of its extraction are empty.
pub proof fn lemma_field_without_samples_is_empty(tiles: &Tiles<i32>)
    requires
        non_positive(tiles),
        without_samples(tiles),
    ensures
        spec_marching_squares(tiles).0 == Seq::<(int, int)>::empty(),
        spec_marching_squares(tiles).1 == Seq::<(int, int)>::empty(),
{
}

/// A field with samples of which none is positive is solid around its first
/// node: its extraction has vertices.
pub proof fn lemma_non_positive_field_has_vertices(tiles: &Tiles<i32>)
    requires
        non_positive(tiles),
        !without_samples(tiles),
    ensures
        spec_marching_squares(tiles).0.len() >= 6,
{
    assert forall|i: int| 0 <= i < 4 implies #[trigger] corner_density(tiles, -1, -1, i) <= 0 by {
        let cx = -1 + corner(i).0;
        let cy = -1 + corner(i).1;
        if tiles.in_window(cx, cy) {
            assert(tiles.sample(cx, cy) <= 0);
        }
    }
    lemma_map_id_extremes(tiles, -1, -1);
    assert(cell_vertices(tiles, -1, -1).len() >= 6);
    lemma_row_output_grows(tiles, -1, 0, tiles.width(), false);
    lemma_field_output_grows(tiles, 0, tiles.height(), false);
    assert(row_output(tiles, -1, -1, false) =~= Seq::<(int, int)>::empty());
    assert(field_output(tiles, -1, false) =~= Seq::<(int, int)>::empty());
}

/// A longer row has at least the output of a shorter one.
proof fn lemma_row_output_grows(tiles: &Tiles<i32>, y: int, from: int, to: int, collision: bool)
    requires
        from <= to,
    ensures
        row_output(tiles, y, from, collision).len() <= row_output(tiles, y, to, collision).len(),
    decreases to - from,
{
    if from < to {
        lemma_row_output_grows(tiles, y, from, to - 1, collision);
    }
}

/// More rows have at least the output of fewer.
proof fn lemma_field_output_grows(tiles: &Tiles<i32>, from: int, to: int, collision: bool)
    requires
        from <= to,
    ensures
        field_output(tiles, from, collision).len() <= field_output(tiles, to, collision).len(),
    decreases to - from,
{
    if from < to {
        lemma_field_output_grows(tiles, from, to - 1, collision);
    }
}

/// Corner `i` of cell `(x, y)` is solid: its density is not positive.
pub open spec fn solid(tiles: &Tiles<i32>, x: int, y: int, i: int) -> bool {
    corner_density(tiles, x, y, i) <= 0
}

/// Ruleset 0 cuts an edge only where the boundary crosses it: of the two
/// corners that flank an odd position of a row, one is solid and one is not.
pub proof fn lemma_edges_cross(tiles: &Tiles<i32>, x: int, y: int)
    ensures
        forall|j: int|
            0 <= j < spec_triangle_mappings(0, spec_map_id(tiles, x, y) as int).len() && (
            #[trigger] spec_triangle_mappings(0, spec_map_id(tiles, x, y) as int)[j]) % 2 == 1
                ==> solid(
                tiles,
                x,
                y,
                spec_corner_indices(
                    spec_triangle_mappings(0, spec_map_id(tiles, x, y) as int)[j] as int,
                ).0,
            ) != solid(
                tiles,
                x,
                y,
                spec_corner_indices(
                    spec_triangle_mappings(0, spec_map_id(tiles, x, y) as int)[j] as int,
                ).1,
            ),
{
    reveal_with_fuel(map_id_upto, 5);
}

/// Ruleset 1 has triangles between corners and the centre only.
pub proof fn lemma_enclosed_cell_has_no_cuts(map_id: int)
    ensures
        forall|j: int|
            0 <= j < spec_triangle_mappings(1, map_id).len() ==> (
            #[trigger] spec_triangle_mappings(1, map_id)[j]) % 2 == 0,
{
}

/// Where the boundary crosses an edge, the cut lies within one edge length
/// of the edge, on the line through it. It leaves the edge, on the side of
/// the second corner, only when the first density is negative and the
/// second positive.
pub proof fn lemma_cut_bounds(a: int, b: int, s: int, first: int, second: int)
    requires
        s >= 0,
        a == 0 || a == s,
        b == 0 || b == s,
        (first <= 0) != (second <= 0),
    ensures
        ({
            let t = spec_density_proportion(first, second);
            let v = lerp_value(a, b, t.0, t.1);
            &&& -s <= v <= 2 * s
            &&& v < 0 ==> a == s && b == 0 && first < 0 && second > 0
            &&& v > s ==> a == 0 && b == s && first < 0 && second > 0
        }),
{
    let t = spec_density_proportion(first, second);
    let n = t.0;
    let d = t.1;
    let num = a * n + b * (d - n);
    if second == 0 {
        assert(num == a) by (nonlinear_arith)
            requires
                num == a * n + b * (d - n),
                n == 1,
                d == 1,
        ;
    } else if first == 0 {
        assert(num == b) by (nonlinear_arith)
            requires
                num == a * n + b * (d - n),
                n == 0,
                d == 1,
        ;
    } else if first > 0 {
        assert(n == first && d == first - second);
        assert(0 * d <= num <= s * d) by (nonlinear_arith)
            requires
                num == a * n + b * (d - n),
                0 < n < d,
                s >= 0,
                a == 0 || a == s,
                b == 0 || b == s,
        ;
        lemma_floor_div_range(num, d, 0, s);
    } else {
        assert(n == first && d == second - first);
        if a == b {
            assert(num == a * d) by (nonlinear_arith)
                requires
                    num == a * n + b * (d - n),
                    a == b,
            ;
            lemma_floor_div_range(num, d, a, a);
        } else if a == 0 {
            assert(s * d <= num <= (2 * s) * d) by (nonlinear_arith)
                requires
                    num == a * n + b * (d - n),
                    a == 0,
                    b == s,
                    s >= 0,
                    -d < n < 0,
            ;
            lemma_floor_div_range(num, d, s, 2 * s);
        } else {
            assert((-s) * d <= num <= 0 * d) by (nonlinear_arith)
                requires
                    num == a * n + b * (d - n),
                    a == s,
                    b == 0,
                    s >= 0,
                    -d < n < 0,
            ;
            lemma_floor_div_range(num, d, -s, 0);
        }
    }
}

/// A coordinate inside a cell, or beyond it on a side where the window goes
/// on, lies within one cell of the window.
proof fn lemma_near_window(x: int, w: int, s: int, v: int)
    requires
        s >= 0,
        -1 <= x < w,
        -s <= v <= 2 * s,
        v < 0 ==> x >= 0,
        v > s ==> x + 2 <= w,
    ensures
        -s <= x * s + v <= w * s,
{
    assert(-s <= x * s + v <= w * s) by (nonlinear_arith)
        requires
            s >= 0,
            -1 <= x < w,
            -s <= v <= 2 * s,
            v < 0 ==> x >= 0,
            v > s ==> x + 2 <= w,
    ;
}

/// Every vertex of a cell that the extraction visits lies within one cell of
/// the sampled window, on both axes.
pub proof fn lemma_vertices_near_window(tiles: &Tiles<i32>, x: int, y: int, j: int)
    requires
        !without_samples(tiles),
        -1 <= x < tiles.width(),
        -1 <= y < tiles.height(),
        0 <= j < cell_vertices(tiles, x, y).len(),
    ensures
        -tiles.spacing() <= cell_vertices(tiles, x, y)[j].0 <= tiles.width() * tiles.spacing(),
        -tiles.spacing() <= cell_vertices(tiles, x, y)[j].1 <= tiles.height() * tiles.spacing(),
{
    let s = tiles.spacing() as int;
    let ruleset = spec_ruleset(tiles, x, y) as int;
    let row = spec_triangle_mappings(ruleset, spec_map_id(tiles, x, y) as int);
    let e = row[j] as int;
    lemma_triangle_mappings_entries(ruleset, spec_map_id(tiles, x, y) as int);
    assert(e <= CENTER);
    assert(cell_vertices(tiles, x, y)[j] == spec_vertex(tiles, x, y, e));
    let local = local_position(tiles, x, y, e);
    if ruleset == 1 {
        lemma_enclosed_cell_has_no_cuts(spec_map_id(tiles, x, y) as int);
    } else {
        lemma_edges_cross(tiles, x, y);
    }
    if e == CENTER {
        assert(0 <= local.0 <= s && 0 <= local.1 <= s);
    } else if e % 2 == 0 {
        assert(0 <= local.0 <= s && 0 <= local.1 <= s);
    } else {
        let c = spec_corner_indices(e);
        let first = corner_density(tiles, x, y, c.0);
        let second = corner_density(tiles, x, y, c.1);
        assert(solid(tiles, x, y, c.0) != solid(tiles, x, y, c.1));
        lemma_cut_bounds(scaled_corner(c.0, s).0, scaled_corner(c.1, s).0, s, first, second);
        lemma_cut_bounds(scaled_corner(c.0, s).1, scaled_corner(c.1, s).1, s, first, second);
        if second > 0 {
            assert(tiles.in_window(x + corner(c.1).0, y + corner(c.1).1));
        }
    }
    lemma_near_window(x, tiles.width(), s, local.0);
    lemma_near_window(y, tiles.height(), s, local.1);
}

/// The point `v` lies within one cell of the sampled window, on both axes.
pub open spec fn near_window(tiles: &Tiles<i32>, v: (int, int)) -> bool {
    &&& -tiles.spacing() <= v.0 <= tiles.width() * tiles.spacing()
    &&& -tiles.spacing() <= v.1 <= tiles.height() * tiles.spacing()
}

/// Every vertex of a row of visited cells lies within one cell of the
/// window.
proof fn lemma_row_near_window(tiles: &Tiles<i32>, y: int, end: int, v: (int, int))
    requires
        !without_samples(tiles),
        -1 <= y < tiles.height(),
        end <= tiles.width(),
        row_output(tiles, y, end, false).contains(v),
    ensures
        near_window(tiles, v),
    decreases end + 1,
{
    if end > -1 {
        let before = row_output(tiles, y, end - 1, false);
        let cell = cell_output(tiles, end - 1, y, false);
        let i = choose|i: int| 0 <= i < (before + cell).len() && (before + cell)[i] == v;
        if i < before.len() {
            assert(before[i] == v);
            lemma_row_near_window(tiles, y, end - 1, v);
        } else {
            let k = i - before.len();
            assert(cell[k] == v);
            lemma_vertices_near_window(tiles, end - 1, y, k);
        }
    }
}

/// Every vertex of the first rows of visited cells lies within one cell of
/// the window.
proof fn lemma_rows_near_window(tiles: &Tiles<i32>, end: int, v: (int, int))
    requires
        !without_samples(tiles),
        end <= tiles.height(),
        field_output(tiles, end, false).contains(v),
    ensures
        near_window(tiles, v),
    decreases end + 1,
{
    if end > -1 {
        let before = field_output(tiles, end - 1, false);
        let row = row_output(tiles, end - 1, tiles.width(), false);
        let i = choose|i: int| 0 <= i < (before + row).len() && (before + row)[i] == v;
        if i < before.len() {
            assert(before[i] == v);
            lemma_rows_near_window(tiles, end - 1, v);
        } else {
            let k = i - before.len();
            assert(row[k] == v);
            lemma_row_near_window(tiles, end - 1, tiles.width(), v);
        }
    }
}

/// The extraction stays near the field: every vertex of both outputs lies
/// within one cell of the sampled window, on both axes.
pub proof fn lemma_outputs_near_window(tiles: &Tiles<i32>)
    ensures
        forall|v: (int, int)|
            spec_marching_squares(tiles).0.contains(v) ==> #[trigger] near_window(tiles, v),
        forall|v: (int, int)|
            spec_marching_squares(tiles).1.contains(v) ==> #[trigger] near_window(tiles, v),
{
    lemma_collision_vertices_are_vertices(tiles);
    assert forall|v: (int, int)| spec_marching_squares(tiles).0.contains(v) implies #[trigger] near_window(
        tiles,
        v,
    ) by {
        if !without_samples(tiles) {
            lemma_rows_near_window(tiles, tiles.height(), v);
        }
    }
}

} // verus!
