//! Marching squares over a density field.
//!
//! A cell is the unit square between four neighbouring nodes. Its corners
//! and edge midpoints are numbered counter-clockwise from the bottom left;
//! index 8 is the centre:
//!
//! ```text
//!   6----5----4
//!   |         |
//!   7    8    3
//!   |         |
//!   0----1----2
//! ```
//!
//! Densities are fixed-point integers. A node with a non-positive density is
//! solid; the extractor fills the solid part of every cell with triangles.
use crate::arith::{lemma_floor_div_bound, lerp_value, Fraction};
use crate::marching_squares::laws::lemma_outputs_are_triangles;
use crate::marching_squares::tiles::Tiles;
use crate::point::{lemma_point_len, position, positions, Point};
use vstd::prelude::*;

pub mod laws;
pub mod matrix;
pub mod tiles;

verus! {

broadcast use lemma_point_len;

/// The bias added to a density before the test that selects the ruleset: the
/// smallest positive density.
pub const BIAS: i32 = 1;

/// The index of the centre of a cell.
pub const CENTER: usize = 8;

/// The offset of corner `i` from the bottom-left corner of its cell. Corners
/// are ordered bottom-left, bottom-right, top-right, top-left.
pub open spec fn corner(i: int) -> (int, int) {
    if i == 0 {
        (0, 0)
    } else if i == 1 {
        (1, 0)
    } else if i == 2 {
        (1, 1)
    } else {
        (0, 1)
    }
}

/// Corner `i` of a cell of side `s` whose bottom-left corner is the origin.
pub open spec fn scaled_corner(i: int, s: int) -> (int, int) {
    if i == 0 {
        (0, 0)
    } else if i == 1 {
        (s, 0)
    } else if i == 2 {
        (s, s)
    } else {
        (0, s)
    }
}

/// The density at node `(x, y)`: the sample inside the window, zero outside.
pub open spec fn density(tiles: &Tiles<i32>, x: int, y: int) -> int {
    if tiles.in_window(x, y) {
        tiles.sample(x, y) as int
    } else {
        0
    }
}

/// The density at corner `i` of cell `(x, y)`.
pub open spec fn corner_density(tiles: &Tiles<i32>, x: int, y: int, i: int) -> int {
    density(tiles, x + corner(i).0, y + corner(i).1)
}

/// The weight of corner `i` in the classification of a cell: bit `i`.
pub open spec fn corner_bit(i: int) -> nat {
    if i == 0 {
        1
    } else if i == 1 {
        2
    } else if i == 2 {
        4
    } else {
        8
    }
}

/// The classification of the first `n` corners of cell `(x, y)`: bit `i` is
/// set exactly when the density at corner `i` is not positive.
pub open spec fn map_id_upto(tiles: &Tiles<i32>, x: int, y: int, n: int) -> nat
    decreases n,
{
    if n <= 0 {
        0
    } else {
        map_id_upto(tiles, x, y, n - 1) + if corner_density(tiles, x, y, n - 1) <= 0 {
            corner_bit(n - 1)
        } else {
            0
        }
    }
}

/// The classification of cell `(x, y)`, from 0 to 15.
pub open spec fn spec_map_id(tiles: &Tiles<i32>, x: int, y: int) -> nat {
    map_id_upto(tiles, x, y, 4)
}

/// Ruleset 1 applies to a cell when every corner density, with the bias
/// added, is positive; ruleset 0 applies otherwise.
pub open spec fn spec_ruleset(tiles: &Tiles<i32>, x: int, y: int) -> nat {
    if forall|i: int| 0 <= i < 4 ==> corner_density(tiles, x, y, i) + BIAS > 0 {
        1
    } else {
        0
    }
}

/// `num_traits::Signed::is_positive` on `i64`: true for a number above zero,
/// false for zero and for a negative number.
#[verifier::external_body]
fn is_positive(d: i64) -> (positive: bool)
    ensures
        positive == (d > 0),
{
    num_traits::Signed::is_positive(&d)
}

/// `num_traits::Zero::is_zero` on `i64`: true for zero alone.
#[verifier::external_body]
fn is_zero(d: i64) -> (zero: bool)
    ensures
        zero == (d == 0),
{
    num_traits::Zero::is_zero(&d)
}

/// The offset of corner `i` as a grid coordinate.
fn corner_point(i: usize) -> (p: Point<i32, 2>)
    requires
        i < 4,
    ensures
        p@.len() == 2,
        p@[0] == corner(i as int).0,
        p@[1] == corner(i as int).1,
{
    if i == 0 {
        Point::new([0, 0])
    } else if i == 1 {
        Point::new([1, 0])
    } else if i == 2 {
        Point::new([1, 1])
    } else {
        Point::new([0, 1])
    }
}

/// The density at corner `i` of the cell at `loc`.
fn density_at_corner(loc: Point<i32, 2>, i: usize, tiles: &Tiles<i32>) -> (d: i32)
    requires
        i < 4,
        loc@[0] < i32::MAX,
        loc@[1] < i32::MAX,
    ensures
        d == corner_density(tiles, loc@[0] as int, loc@[1] as int, i as int),
{
    tiles.get(loc + corner_point(i))
}

/// The ruleset and the classification of the cell at `loc`, in this order.
/// Together they select the triangles of the cell.
pub fn get_ruleset_and_map_id(loc: Point<i32, 2>, tiles: &Tiles<i32>) -> (r: (usize, usize))
    requires
        loc@[0] < i32::MAX,
        loc@[1] < i32::MAX,
    ensures
        r.0 == spec_ruleset(tiles, loc@[0] as int, loc@[1] as int),
        r.1 == spec_map_id(tiles, loc@[0] as int, loc@[1] as int),
        r.0 < 2,
        r.1 < 16,
{
    let ghost x = loc@[0] as int;
    let ghost y = loc@[1] as int;
    let mut all_biased_positive = true;
    let mut map_id: usize = 0;
    let mut weight: usize = 1;
    for i in 0..4usize
        invariant
            x == loc@[0],
            y == loc@[1],
            x < i32::MAX,
            y < i32::MAX,
            weight == corner_bit(i as int) || i == 4,
            map_id == map_id_upto(tiles, x, y, i as int),
            map_id < weight || i == 4,
            map_id < 16,
            all_biased_positive <==> forall|j: int|
                0 <= j < i ==> corner_density(tiles, x, y, j) + BIAS > 0,
    {
        let d = density_at_corner(loc, i, tiles);
        let positive = is_positive(d as i64);
        if !(positive || is_zero(d as i64)) {
            all_biased_positive = false;
        }
        if !positive {
            map_id = map_id + weight;
        }
        if i < 3 {
            weight = weight * 2;
        }
    }
    let ruleset: usize = if all_biased_positive {
        1
    } else {
        0
    };
    (ruleset, map_id)
}

/// The two corners that flank position `index` of a cell. For a corner
/// (an even index) both are that corner; for an edge midpoint (an odd index)
/// they are the two ends of the edge, in counter-clockwise order.
pub open spec fn spec_corner_indices(index: int) -> (int, int) {
    (index / 2, ((index + 1) / 2) % 4)
}

/// The two corners, each from 0 to 3, that flank position `index` of a cell.
pub fn index_to_corner_indices(index: usize) -> (corners: [usize; 2])
    ensures
        corners@[0] == spec_corner_indices(index as int).0,
        corners@[1] == spec_corner_indices(index as int).1,
{
    [index / 2, (index / 2 + index % 2) % 4]
}

/// The triangles of a cell with the given ruleset and classification: every
/// three consecutive entries are the positions of one triangle, clockwise.
///
/// Ruleset 0 fills the part of the cell around its solid corners, cutting
/// edges at their midpoint positions. Ruleset 1 is empty except for
/// classification 15, where four triangles meet in the centre of the cell.
pub open spec fn spec_triangle_mappings(ruleset: int, map_id: int) -> Seq<usize> {
    if ruleset == 0 {
        if map_id == 0 {
            Seq::empty()
        } else if map_id == 1 {
            seq![7, 1, 0]
        } else if map_id == 2 {
            seq![3, 2, 1]
        } else if map_id == 3 {
            seq![7, 2, 0, 7, 3, 2]
        } else if map_id == 4 {
            seq![5, 4, 3]
        } else if map_id == 5 {
            seq![7, 1, 0, 5, 4, 3, 7, 3, 1, 7, 5, 3]
        } else if map_id == 6 {
            seq![1, 4, 2, 1, 5, 4]
        } else if map_id == 7 {
            seq![2, 0, 7, 5, 2, 7, 4, 2, 5]
        } else if map_id == 8 {
            seq![7, 6, 5]
        } else if map_id == 9 {
            seq![0, 5, 1, 0, 6, 5]
        } else if map_id == 10 {
            seq![3, 2, 1, 7, 6, 5, 7, 3, 1, 7, 5, 3]
        } else if map_id == 11 {
            seq![6, 5, 0, 5, 3, 0, 3, 2, 0]
        } else if map_id == 12 {
            seq![6, 3, 7, 6, 4, 3]
        } else if map_id == 13 {
            seq![6, 4, 3, 6, 3, 1, 6, 1, 0]
        } else if map_id == 14 {
            seq![6, 4, 7, 4, 1, 7, 4, 2, 1]
        } else if map_id == 15 {
            seq![0, 4, 2, 0, 6, 4]
        } else {
            Seq::empty()
        }
    } else if ruleset == 1 && map_id == 15 {
        seq![0, 8, 2, 2, 8, 4, 4, 8, 6, 6, 8, 0]
    } else {
        Seq::empty()
    }
}

/// The triangles of a cell with the given ruleset and classification.
pub fn triangle_mappings(ruleset: usize, map_id: usize) -> (indices: &'static [usize])
    requires
        ruleset < 2,
        map_id < 16,
    ensures
        indices@ == spec_triangle_mappings(ruleset as int, map_id as int),
{
    let indices: &'static [usize] = if ruleset == 0 {
        if map_id == 0 {
            &[]
        } else if map_id == 1 {
            &[7, 1, 0]
        } else if map_id == 2 {
            &[3, 2, 1]
        } else if map_id == 3 {
            &[7, 2, 0, 7, 3, 2]
        } else if map_id == 4 {
            &[5, 4, 3]
        } else if map_id == 5 {
            &[7, 1, 0, 5, 4, 3, 7, 3, 1, 7, 5, 3]
        } else if map_id == 6 {
            &[1, 4, 2, 1, 5, 4]
        } else if map_id == 7 {
            &[2, 0, 7, 5, 2, 7, 4, 2, 5]
        } else if map_id == 8 {
            &[7, 6, 5]
        } else if map_id == 9 {
            &[0, 5, 1, 0, 6, 5]
        } else if map_id == 10 {
            &[3, 2, 1, 7, 6, 5, 7, 3, 1, 7, 5, 3]
        } else if map_id == 11 {
            &[6, 5, 0, 5, 3, 0, 3, 2, 0]
        } else if map_id == 12 {
            &[6, 3, 7, 6, 4, 3]
        } else if map_id == 13 {
            &[6, 4, 3, 6, 3, 1, 6, 1, 0]
        } else if map_id == 14 {
            &[6, 4, 7, 4, 1, 7, 4, 2, 1]
        } else {
            &[0, 4, 2, 0, 6, 4]
        }
    } else if map_id == 15 {
        &[0, 8, 2, 2, 8, 4, 4, 8, 6, 6, 8, 0]
    } else {
        &[]
    };
    assert(indices@ =~= spec_triangle_mappings(ruleset as int, map_id as int));
    indices
}

/// The fraction `t` at which an edge is cut, from the densities at its two
/// ends, as numerator and denominator: 1 when the second density is zero;
/// otherwise 0 when the densities are equal or the first is zero; otherwise
/// `|first| / (first - second)`, written with a positive denominator.
pub open spec fn spec_density_proportion(first: int, second: int) -> (int, int) {
    if second == 0 {
        (1, 1)
    } else if first == second || first == 0 {
        (0, 1)
    } else if first - second > 0 {
        (vstd::math::abs(first) as int, first - second)
    } else {
        (-(vstd::math::abs(first) as int), second - first)
    }
}

/// The fraction at which the edge between two corners of the cell at `loc`
/// is cut. The cut point is the weighted mean of the two corners with this
/// weight on the first.
pub fn get_density_proportion(
    loc: Point<i32, 2>,
    corner_indices: [usize; 2],
    tiles: &Tiles<i32>,
) -> (t: Fraction)
    requires
        loc@[0] < i32::MAX,
        loc@[1] < i32::MAX,
        corner_indices@[0] < 4,
        corner_indices@[1] < 4,
    ensures
        (t.num as int, t.den as int) == spec_density_proportion(
            corner_density(tiles, loc@[0] as int, loc@[1] as int, corner_indices@[0] as int),
            corner_density(tiles, loc@[0] as int, loc@[1] as int, corner_indices@[1] as int),
        ),
        0 < t.den <= 0xffff_ffff,
        -0x8000_0000 <= t.num <= 0x8000_0000,
{
    let first = density_at_corner(loc, corner_indices[0], tiles) as i64;
    let second = density_at_corner(loc, corner_indices[1], tiles) as i64;
    let diff = first - second;
    if is_zero(second) {
        Fraction { num: 1, den: 1 }
    } else if is_zero(diff) || is_zero(first) {
        Fraction { num: 0, den: 1 }
    } else {
        let magnitude = if is_positive(first) {
            first
        } else {
            -first
        };
        if is_positive(diff) {
            Fraction { num: magnitude, den: diff }
        } else {
            Fraction { num: -magnitude, den: -diff }
        }
    }
}

/// The position `index` of cell `(x, y)` relative to the bottom-left corner
/// of the cell, in world units: a corner for an even index, the cut point of
/// an edge for an odd one, the midpoint of the diagonal for the centre.
pub open spec fn local_position(tiles: &Tiles<i32>, x: int, y: int, index: int) -> (int, int) {
    let s = tiles.spacing() as int;
    if index == CENTER {
        (
            (scaled_corner(0, s).0 + scaled_corner(2, s).0) / 2,
            (scaled_corner(0, s).1 + scaled_corner(2, s).1) / 2,
        )
    } else if index % 2 == 0 {
        scaled_corner(index / 2, s)
    } else {
        let c = spec_corner_indices(index);
        let t = spec_density_proportion(
            corner_density(tiles, x, y, c.0),
            corner_density(tiles, x, y, c.1),
        );
        (
            lerp_value(scaled_corner(c.0, s).0, scaled_corner(c.1, s).0, t.0, t.1),
            lerp_value(scaled_corner(c.0, s).1, scaled_corner(c.1, s).1, t.0, t.1),
        )
    }
}

/// The position `index` of cell `(x, y)` in world units: the position inside
/// the cell, moved by the world position of the cell.
pub open spec fn spec_vertex(tiles: &Tiles<i32>, x: int, y: int, index: int) -> (int, int) {
    let s = tiles.spacing() as int;
    let local = local_position(tiles, x, y, index);
    (x * s + local.0, y * s + local.1)
}

/// Corner `i` of the cell at the origin, in world units.
fn corner_world(i: usize, spacing: u16) -> (p: Point<i64, 2>)
    requires
        i < 4,
    ensures
        p@.len() == 2,
        position(p) == scaled_corner(i as int, spacing as int),
{
    let unit: Point<i64, 2> = (corner_point(i),).into();
    assert(forall|k: int| 0 <= k < 2 ==> (#[trigger] unit@[k] == 0 || unit@[k] == 1));
    assert(forall|k: int|
        0 <= k < 2 ==> (#[trigger] unit@[k]) * (spacing as i64) == if unit@[k] == 0 {
            0
        } else {
            spacing as int
        }) by (nonlinear_arith)
        requires
            forall|k: int| 0 <= k < 2 ==> (#[trigger] unit@[k] == 0 || unit@[k] == 1),
    ;
    unit * (spacing as i64)
}

/// The position `index` of the cell at `loc` in world units.
pub fn cell_vertex(loc: Point<i32, 2>, index: usize, tiles: &Tiles<i32>) -> (p: Point<i64, 2>)
    requires
        loc@[0] < i32::MAX,
        loc@[1] < i32::MAX,
        index <= CENTER,
    ensures
        p@.len() == 2,
        position(p) == spec_vertex(tiles, loc@[0] as int, loc@[1] as int, index as int),
{
    let spacing = tiles.dist_between_nodes();
    let ghost s = spacing as int;
    let tile_location: Point<i64, 2> = (loc,).into();
    assert(forall|k: int|
        0 <= k < 2 ==> -0x8000_0000 * 0x1_0000 <= (#[trigger] tile_location@[k]) * s
            <= 0x8000_0000 * 0x1_0000) by (nonlinear_arith)
        requires
            0 <= s < 0x1_0000,
            forall|k: int| 0 <= k < 2 ==> -0x8000_0000 <= (#[trigger] tile_location@[k]) <= 0x8000_0000,
    ;
    let tile_location = tile_location * (spacing as i64);
    let rel_loc = if index == CENTER {
        (corner_world(0, spacing) + corner_world(2, spacing)) / 2
    } else if index % 2 == 0 {
        corner_world(index / 2, spacing)
    } else {
        let corner_indices = index_to_corner_indices(index);
        let prop = get_density_proportion(loc, corner_indices, tiles);
        let first = corner_world(corner_indices[0], spacing);
        let second = corner_world(corner_indices[1], spacing);
        proof {
            let n = prop.num as int;
            let d = prop.den as int;
            assert forall|k: int| 0 <= k < 2 implies {
                &&& -0x1_0000 * 0x1_8000_0000 <= (#[trigger] first@[k]) * n + second@[k] * (d - n)
                    <= 0x1_0000 * 0x1_8000_0000
                &&& -0x1_0000 * 0x1_8000_0000 <= first@[k] * n <= 0x1_0000 * 0x1_8000_0000
                &&& -0x1_0000 * 0x1_8000_0000 <= second@[k] * (d - n) <= 0x1_0000 * 0x1_8000_0000
                &&& -0x1_0000 * 0x1_8000_0000 <= lerp_value(
                    first@[k] as int,
                    second@[k] as int,
                    n,
                    d,
                ) <= 0x1_0000 * 0x1_8000_0000
            } by {
                let a = first@[k] as int;
                let b = second@[k] as int;
                assert(a == 0 || a == s);
                assert(b == 0 || b == s);
                assert(-0x1_0000 * 0x1_8000_0000 <= a * n + b * (d - n) <= 0x1_0000 * 0x1_8000_0000
                    && -0x1_0000 * 0x1_8000_0000 <= a * n <= 0x1_0000 * 0x1_8000_0000
                    && -0x1_0000 * 0x1_8000_0000 <= b * (d - n) <= 0x1_0000 * 0x1_8000_0000)
                    by (nonlinear_arith)
                    requires
                        0 <= s < 0x1_0000,
                        a == 0 || a == s,
                        b == 0 || b == s,
                        0 < d <= 0xffff_ffff,
                        -0x8000_0000 <= n <= 0x8000_0000,
                ;
                lemma_floor_div_bound(a * n + b * (d - n), d);
            }
        }
        first.lerp(second, prop)
    };
    rel_loc + tile_location
}

/// The cell `(x, y)` holds a piece of the boundary: ruleset 0 applies to it
/// and it has a solid corner.
pub open spec fn has_boundary_pattern(tiles: &Tiles<i32>, x: int, y: int) -> bool {
    spec_ruleset(tiles, x, y) == 0 && spec_map_id(tiles, x, y) != 0
}

/// One of the four cells that share an edge with cell `(x, y)` holds a piece
/// of the boundary.
pub open spec fn borders_boundary(tiles: &Tiles<i32>, x: int, y: int) -> bool {
    ||| has_boundary_pattern(tiles, x - 1, y)
    ||| has_boundary_pattern(tiles, x, y - 1)
    ||| has_boundary_pattern(tiles, x + 1, y)
    ||| has_boundary_pattern(tiles, x, y + 1)
}

/// The vertices of cell `(x, y)` matter for collisions: the cell holds a piece
/// of the boundary itself, or it is a ruleset-1 cell of classification 15
/// next to one that does.
pub open spec fn is_collision_cell(tiles: &Tiles<i32>, x: int, y: int) -> bool {
    ||| (spec_ruleset(tiles, x, y) == 1 && spec_map_id(tiles, x, y) == 15 && borders_boundary(
        tiles,
        x,
        y,
    ))
    ||| has_boundary_pattern(tiles, x, y)
}

/// The vertices of cell `(x, y)`, three per triangle.
pub open spec fn cell_vertices(tiles: &Tiles<i32>, x: int, y: int) -> Seq<(int, int)> {
    spec_triangle_mappings(
        spec_ruleset(tiles, x, y) as int,
        spec_map_id(tiles, x, y) as int,
    ).map_values(|index: usize| spec_vertex(tiles, x, y, index as int))
}

/// What cell `(x, y)` adds to the output: all its vertices, or, for the
/// collision output, its vertices when they matter for collisions.
pub open spec fn cell_output(tiles: &Tiles<i32>, x: int, y: int, collision: bool) -> Seq<
    (int, int),
> {
    if collision && !is_collision_cell(tiles, x, y) {
        Seq::empty()
    } else {
        cell_vertices(tiles, x, y)
    }
}

/// The output of the cells `(-1, y)` to `(end - 1, y)`, in this order.
pub open spec fn row_output(tiles: &Tiles<i32>, y: int, end: int, collision: bool) -> Seq<
    (int, int),
>
    decreases end + 1,
{
    if end <= -1 {
        Seq::empty()
    } else {
        row_output(tiles, y, end - 1, collision) + cell_output(tiles, end - 1, y, collision)
    }
}

/// The output of the rows `-1` to `end - 1`, in this order. A row runs from
/// the cell left of the sampled window to the last cell that touches it.
pub open spec fn field_output(tiles: &Tiles<i32>, end: int, collision: bool) -> Seq<(int, int)>
    decreases end + 1,
{
    if end <= -1 {
        Seq::empty()
    } else {
        field_output(tiles, end - 1, collision) + row_output(
            tiles,
            end - 1,
            tiles.width(),
            collision,
        )
    }
}

/// The field has no samples: one of its axes has size zero.
pub open spec fn without_samples(tiles: &Tiles<i32>) -> bool {
    tiles.width() == 0 || tiles.height() == 0
}

/// All vertices of the field and those that matter for collisions, in this
/// order. A field without samples has neither. In any other field the cells
/// are those whose bottom-left node has coordinates from `-1` to the last
/// index of the window, on both axes: the window and one ring of cells
/// around it.
pub open spec fn spec_marching_squares(tiles: &Tiles<i32>) -> (Seq<(int, int)>, Seq<(int, int)>) {
    if without_samples(tiles) {
        (Seq::empty(), Seq::empty())
    } else {
        (field_output(tiles, tiles.height(), false), field_output(tiles, tiles.height(), true))
    }
}

/// Every row of the triangle table holds whole triangles, made of the nine
/// positions of a cell.
pub proof fn lemma_triangle_mappings_entries(ruleset: int, map_id: int)
    ensures
        spec_triangle_mappings(ruleset, map_id).len() % 3 == 0,
        forall|k: int|
            0 <= k < spec_triangle_mappings(ruleset, map_id).len() ==> (
            #[trigger] spec_triangle_mappings(ruleset, map_id)[k]) <= CENTER,
{
}

/// The coordinates of a sequence with one more point.
proof fn lemma_positions_push(points: Seq<Point<i64, 2>>, p: Point<i64, 2>)
    ensures
        positions(points.push(p)) == positions(points).push(position(p)),
{
    assert(positions(points.push(p)) =~= positions(points).push(position(p)));
}

/// The offset of the `i`-th cell that shares an edge with a cell.
fn neighbor_offset(i: usize) -> (p: Point<i32, 2>)
    requires
        i < 4,
    ensures
        i == 0 ==> p@ == seq![-1i32, 0i32],
        i == 1 ==> p@ == seq![0i32, -1i32],
        i == 2 ==> p@ == seq![1i32, 0i32],
        i == 3 ==> p@ == seq![0i32, 1i32],
{
    let p = if i == 0 {
        Point::new([-1, 0])
    } else if i == 1 {
        Point::new([0, -1])
    } else if i == 2 {
        Point::new([1, 0])
    } else {
        Point::new([0, 1])
    };
    assert(p@ =~= if i == 0 {
        seq![-1i32, 0i32]
    } else if i == 1 {
        seq![0i32, -1i32]
    } else if i == 2 {
        seq![1i32, 0i32]
    } else {
        seq![0i32, 1i32]
    });
    p
}

/// Whether the vertices of the cell at `loc`, with the given ruleset and
/// classification, matter for collisions.
fn collision_relevant(loc: Point<i32, 2>, ruleset: usize, map_id: usize, tiles: &Tiles<i32>) -> (relevant: bool)
    requires
        i32::MIN < loc@[0] < i32::MAX - 1,
        i32::MIN < loc@[1] < i32::MAX - 1,
        ruleset == spec_ruleset(tiles, loc@[0] as int, loc@[1] as int),
        map_id == spec_map_id(tiles, loc@[0] as int, loc@[1] as int),
    ensures
        relevant == is_collision_cell(tiles, loc@[0] as int, loc@[1] as int),
{
    if ruleset == 0 {
        return map_id != 0;
    }
    if map_id != 15 {
        return false;
    }
    let ghost x = loc@[0] as int;
    let ghost y = loc@[1] as int;
    let mut boundary_nearby = false;
    for i in 0..4usize
        invariant
            x == loc@[0],
            y == loc@[1],
            i32::MIN < x < i32::MAX - 1,
            i32::MIN < y < i32::MAX - 1,
            boundary_nearby == ({
                ||| (i > 0 && has_boundary_pattern(tiles, x - 1, y))
                ||| (i > 1 && has_boundary_pattern(tiles, x, y - 1))
                ||| (i > 2 && has_boundary_pattern(tiles, x + 1, y))
                ||| (i > 3 && has_boundary_pattern(tiles, x, y + 1))
            }),
    {
        let (near_ruleset, near_map_id) = get_ruleset_and_map_id(loc + neighbor_offset(i), tiles);
        if near_ruleset == 0 && near_map_id != 0 {
            boundary_nearby = true;
        }
    }
    boundary_nearby
}

/// Appends the output of the cell at `loc` to both outputs.
fn push_cell(
    loc: Point<i32, 2>,
    tiles: &Tiles<i32>,
    vertices: &mut Vec<Point<i64, 2>>,
    collision_vertices: &mut Vec<Point<i64, 2>>,
)
    requires
        i32::MIN < loc@[0] < i32::MAX - 1,
        i32::MIN < loc@[1] < i32::MAX - 1,
    ensures
        positions(final(vertices)@) == positions(old(vertices)@) + cell_output(
            tiles,
            loc@[0] as int,
            loc@[1] as int,
            false,
        ),
        positions(final(collision_vertices)@) == positions(old(collision_vertices)@) + cell_output(
            tiles,
            loc@[0] as int,
            loc@[1] as int,
            true,
        ),
{
    let ghost x = loc@[0] as int;
    let ghost y = loc@[1] as int;
    let (ruleset, map_id) = get_ruleset_and_map_id(loc, tiles);
    let relevant = collision_relevant(loc, ruleset, map_id, tiles);
    let indices = triangle_mappings(ruleset, map_id);
    proof {
        lemma_triangle_mappings_entries(ruleset as int, map_id as int);
    }
    let count = indices.len();
    for k in 0..count
        invariant
            x == loc@[0],
            y == loc@[1],
            x < i32::MAX,
            y < i32::MAX,
            count == indices@.len(),
            indices@ == spec_triangle_mappings(
                spec_ruleset(tiles, x, y) as int,
                spec_map_id(tiles, x, y) as int,
            ),
            forall|j: int| 0 <= j < indices@.len() ==> (#[trigger] indices@[j]) <= CENTER,
            relevant == is_collision_cell(tiles, x, y),
            positions(vertices@) == positions(old(vertices)@) + cell_vertices(tiles, x, y).take(
                k as int,
            ),
            positions(collision_vertices@) == positions(old(collision_vertices)@) + if relevant {
                cell_vertices(tiles, x, y).take(k as int)
            } else {
                Seq::empty()
            },
    {
        let l = cell_vertex(loc, indices[k], tiles);
        proof {
            lemma_positions_push(vertices@, l);
            lemma_positions_push(collision_vertices@, l);
            let cell = cell_vertices(tiles, x, y);
            assert(cell.take(k + 1) =~= cell.take(k as int).push(position(l)));
            assert((positions(old(vertices)@) + cell.take(k as int)).push(position(l)) =~= positions(
                old(vertices)@,
            ) + cell.take(k + 1));
            assert((positions(old(collision_vertices)@) + cell.take(k as int)).push(position(l))
                =~= positions(old(collision_vertices)@) + cell.take(k + 1));
        }
        if relevant {
            collision_vertices.push(l);
        }
        vertices.push(l);
    }
    proof {
        let cell = cell_vertices(tiles, x, y);
        assert(cell.take(count as int) =~= cell);
        assert(positions(old(collision_vertices)@) + Seq::<(int, int)>::empty() =~= positions(
            old(collision_vertices)@,
        ));
    }
}

/// Extracts the boundary of the solid part of a density field as triangles.
///
/// Returns all vertices, three per triangle, and those among them that
/// matter for collisions. Cells are visited row by row from the bottom, each
/// row from the left, starting one cell outside the sampled window. A field
/// without samples has no cells and no vertices.
pub fn marching_squares(tiles: &Tiles<i32>) -> (out: (Vec<Point<i64, 2>>, Vec<Point<i64, 2>>))
    requires
        tiles.width() < i32::MAX,
        tiles.height() < i32::MAX,
    ensures
        positions(out.0@) == spec_marching_squares(tiles).0,
        positions(out.1@) == spec_marching_squares(tiles).1,
        out.0@.len() == spec_marching_squares(tiles).0.len(),
        out.1@.len() == spec_marching_squares(tiles).1.len(),
        without_samples(tiles) ==> out.0@.len() == 0 && out.1@.len() == 0,
        out.0@.len() % 3 == 0,
        out.1@.len() % 3 == 0,
{
    proof {
        lemma_outputs_are_triangles(tiles);
    }
    let dim = tiles.dimension();
    let mut collision_vertices: Vec<Point<i64, 2>> = Vec::new();
    let mut vertices: Vec<Point<i64, 2>> = Vec::new();
    if dim[0] == 0 || dim[1] == 0 {
        assert(positions(vertices@) =~= Seq::<(int, int)>::empty());
        assert(positions(collision_vertices@) =~= Seq::<(int, int)>::empty());
        return (vertices, collision_vertices);
    }
    let width = dim[0] as i32;
    let height = dim[1] as i32;
    assert(positions(vertices@) =~= field_output(tiles, -1, false));
    assert(positions(collision_vertices@) =~= field_output(tiles, -1, true));
    let mut y: i32 = -1;
    while y < height
        invariant
            -1 <= y <= height,
            width == tiles.width(),
            height == tiles.height(),
            width < i32::MAX,
            height < i32::MAX,
            positions(vertices@) == field_output(tiles, y as int, false),
            positions(collision_vertices@) == field_output(tiles, y as int, true),
        decreases height - y,
    {
        let mut x: i32 = -1;
        assert(field_output(tiles, y as int, false) + row_output(tiles, y as int, -1, false)
            =~= field_output(tiles, y as int, false));
        assert(field_output(tiles, y as int, true) + row_output(tiles, y as int, -1, true)
            =~= field_output(tiles, y as int, true));
        while x < width
            invariant
                -1 <= x <= width,
                -1 <= y < height,
                width == tiles.width(),
                height == tiles.height(),
                width < i32::MAX,
                height < i32::MAX,
                positions(vertices@) == field_output(tiles, y as int, false) + row_output(
                    tiles,
                    y as int,
                    x as int,
                    false,
                ),
                positions(collision_vertices@) == field_output(tiles, y as int, true) + row_output(
                    tiles,
                    y as int,
                    x as int,
                    true,
                ),
            decreases width - x,
        {
            let loc: Point<i32, 2> = [x, y].into();
            proof {
                let yi = y as int;
                let xi = x as int;
                assert((field_output(tiles, yi, false) + row_output(tiles, yi, xi, false))
                    + cell_output(tiles, xi, yi, false) =~= field_output(tiles, yi, false)
                    + row_output(tiles, yi, xi + 1, false));
                assert((field_output(tiles, yi, true) + row_output(tiles, yi, xi, true))
                    + cell_output(tiles, xi, yi, true) =~= field_output(tiles, yi, true)
                    + row_output(tiles, yi, xi + 1, true));
            }
            push_cell(loc, tiles, &mut vertices, &mut collision_vertices);
            x = x + 1;
        }
        y = y + 1;
    }
    (vertices, collision_vertices)
}

} // verus!
