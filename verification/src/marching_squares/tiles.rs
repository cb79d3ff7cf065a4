//! A density field: a grid of samples with a node spacing, empty outside the
//! sampled window.
use crate::marching_squares::matrix::{lemma_linear_index_2d, Matrix};
use crate::point::{Numeric, Point};
use vstd::prelude::*;

verus! {

/// A two-dimensional grid of densities. Lookups outside the sampled window
/// give the default density instead of failing.
pub struct Tiles<'a, T> where T: Numeric<T> + Default {
    densities: Matrix<'a, T, 2>,
    dist_between_nodes: u16,
}

impl<'a, T> Tiles<'a, T> where T: Numeric<T> + Default {
    /// The grid of samples.
    pub closed spec fn grid(&self) -> Matrix<'a, T, 2> {
        self.densities
    }

    /// The distance between neighbouring nodes, in world units.
    pub closed spec fn spacing(&self) -> u16 {
        self.dist_between_nodes
    }

    /// The number of samples along the first axis.
    pub open spec fn width(&self) -> int {
        self.grid().dims()[0] as int
    }

    /// The number of samples along the second axis.
    pub open spec fn height(&self) -> int {
        self.grid().dims()[1] as int
    }

    /// `(x, y)` lies inside the sampled window.
    pub open spec fn in_window(&self, x: int, y: int) -> bool {
        0 <= x < self.width() && 0 <= y < self.height()
    }

    /// The sample at `(x, y)`, for a node inside the window.
    pub open spec fn sample(&self, x: int, y: int) -> T {
        self.grid().elems()[x + y * self.width()]
    }

    /// The grid is well formed.
    pub open spec fn wf(&self) -> bool {
        self.grid().wf()
    }

    /// A density field over `densities` with the given node spacing.
    pub fn new(densities: Matrix<'a, T, 2>, dist_between_nodes: u16) -> (tiles: Self)
        ensures
            tiles.grid() == densities,
            tiles.spacing() == dist_between_nodes,
    {
        Self { densities, dist_between_nodes }
    }

    /// The density at `loc`: the sample there when `loc` lies inside the
    /// window, the default density otherwise.
    pub fn get(&self, loc: Point<i32, 2>) -> (density: T)
        ensures
            self.in_window(loc@[0] as int, loc@[1] as int) ==> density == self.sample(
                loc@[0] as int,
                loc@[1] as int,
            ),
            !self.in_window(loc@[0] as int, loc@[1] as int) ==> call_ensures(
                T::default,
                (),
                density,
            ),
    {
        let dim = self.densities.dim();
        let x = loc[0];
        let y = loc[1];
        if x >= 0 && y >= 0 && (x as usize) < dim[0] && (y as usize) < dim[1] {
            let at: [usize; 2] = [x as usize, y as usize];
            proof {
                lemma_linear_index_2d(self.densities.dims(), at@);
            }
            self.densities.get(at)
        } else {
            T::default()
        }
    }

    /// The number of samples along each axis.
    pub fn dimension(&self) -> (dim: [usize; 2])
        ensures
            dim@ == self.grid().dims(),
            dim@[0] == self.width(),
            dim@[1] == self.height(),
            self.wf(),
    {
        self.densities.dim()
    }

    /// The distance between neighbouring nodes, in world units.
    pub fn dist_between_nodes(&self) -> (spacing: u16)
        ensures
            spacing == self.spacing(),
    {
        self.dist_between_nodes
    }
}

} // verus!
