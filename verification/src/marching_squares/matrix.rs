//! A rectangular, read-only view over a flat buffer of samples.
use vstd::arithmetic::div_mod::lemma_fundamental_div_mod_converse;
use vstd::prelude::*;

verus! {

/// The product of the first `k` axis sizes.
pub open spec fn product_upto(dims: Seq<usize>, k: int) -> nat
    decreases k,
{
    if k <= 0 {
        1
    } else {
        product_upto(dims, k - 1) * (dims[k - 1] as nat)
    }
}

/// The number of elements of a grid with axis sizes `dims`.
pub open spec fn product(dims: Seq<usize>) -> nat {
    product_upto(dims, dims.len() as int)
}

/// The contribution of the first `k` axes to the position of `loc` in the
/// flat buffer.
pub open spec fn index_upto(dims: Seq<usize>, loc: Seq<usize>, k: int) -> nat
    decreases k,
{
    if k <= 0 {
        0
    } else {
        index_upto(dims, loc, k - 1) + (loc[k - 1] as nat) * product_upto(dims, k - 1)
    }
}

/// The position of `loc` in the flat buffer: the first axis varies fastest.
pub open spec fn linear_index(dims: Seq<usize>, loc: Seq<usize>) -> nat {
    index_upto(dims, loc, dims.len() as int)
}

/// `loc` names an element of a grid with axis sizes `dims`.
pub open spec fn in_bounds(dims: Seq<usize>, loc: Seq<usize>) -> bool {
    &&& loc.len() == dims.len()
    &&& forall|i: int| 0 <= i < dims.len() ==> loc[i] < dims[i]
}

/// A product of sizes that are all at least one does not shrink as more axes
/// are taken in.
pub proof fn lemma_product_monotone(dims: Seq<usize>, j: int, k: int)
    requires
        0 <= j <= k <= dims.len(),
        forall|i: int| j <= i < k ==> dims[i] >= 1,
    ensures
        product_upto(dims, j) <= product_upto(dims, k),
    decreases k - j,
{
    if j < k {
        lemma_product_monotone(dims, j, k - 1);
        assert(product_upto(dims, k - 1) <= product_upto(dims, k - 1) * (dims[k - 1] as nat))
            by (nonlinear_arith)
            requires
                dims[k - 1] >= 1,
        ;
    }
}

/// A grid with an axis of size zero has no elements.
pub proof fn lemma_product_zero(dims: Seq<usize>, z: int, k: int)
    requires
        0 <= z < k <= dims.len(),
        dims[z] == 0,
    ensures
        product_upto(dims, k) == 0,
    decreases k,
{
    if z < k - 1 {
        lemma_product_zero(dims, z, k - 1);
    }
    assert(product_upto(dims, k - 1) * (dims[k - 1] as nat) == 0) by (nonlinear_arith)
        requires
            product_upto(dims, k - 1) == 0 || dims[k - 1] == 0,
    ;
}

/// Coordinates that are in bounds on the first `k` axes stay below the
/// product of those axes.
pub proof fn lemma_index_upto_bound(dims: Seq<usize>, loc: Seq<usize>, k: int)
    requires
        0 <= k <= dims.len(),
        loc.len() == dims.len(),
        forall|i: int| 0 <= i < k ==> loc[i] < dims[i],
    ensures
        index_upto(dims, loc, k) < product_upto(dims, k),
    decreases k,
{
    if k > 0 {
        lemma_index_upto_bound(dims, loc, k - 1);
        let below = index_upto(dims, loc, k - 1);
        let stride = product_upto(dims, k - 1);
        let l = loc[k - 1] as nat;
        let d = dims[k - 1] as nat;
        assert(below + l * stride < stride * d) by (nonlinear_arith)
            requires
                below < stride,
                l < d,
        ;
    }
}

/// On a grid of two axes the element at `(x, y)` sits at `x + y * width`.
pub proof fn lemma_linear_index_2d(dims: Seq<usize>, loc: Seq<usize>)
    requires
        dims.len() == 2,
    ensures
        product(dims) == dims[0] * dims[1],
        linear_index(dims, loc) == loc[0] + loc[1] * dims[0],
{
    reveal_with_fuel(product_upto, 3);
    reveal_with_fuel(index_upto, 3);
    assert(1 * (dims[0] as nat) * (dims[1] as nat) == dims[0] * dims[1]) by (nonlinear_arith);
    assert((loc[0] as nat) * 1 + (loc[1] as nat) * (1 * (dims[0] as nat)) == loc[0] + loc[1]
        * dims[0]) by (nonlinear_arith);
}

/// In-bounds coordinates name a position inside the flat buffer.
pub proof fn lemma_linear_index_bound(dims: Seq<usize>, loc: Seq<usize>)
    requires
        in_bounds(dims, loc),
    ensures
        linear_index(dims, loc) < product(dims),
{
    lemma_index_upto_bound(dims, loc, dims.len() as int);
}

/// Coordinates that are in bounds and agree on their contribution from the
/// first `k` axes agree on those axes.
pub proof fn lemma_index_upto_injective(dims: Seq<usize>, a: Seq<usize>, b: Seq<usize>, k: int)
    requires
        0 <= k <= dims.len(),
        in_bounds(dims, a),
        in_bounds(dims, b),
        index_upto(dims, a, k) == index_upto(dims, b, k),
    ensures
        forall|i: int| 0 <= i < k ==> a[i] == b[i],
    decreases k,
{
    if k > 0 {
        lemma_index_upto_bound(dims, a, k - 1);
        lemma_index_upto_bound(dims, b, k - 1);
        let stride = product_upto(dims, k - 1) as int;
        let total = index_upto(dims, a, k) as int;
        assert((a[k - 1] as nat) * product_upto(dims, k - 1) == (a[k - 1] as int) * stride);
        assert((b[k - 1] as nat) * product_upto(dims, k - 1) == (b[k - 1] as int) * stride);
        lemma_fundamental_div_mod_converse(
            total,
            stride,
            a[k - 1] as int,
            index_upto(dims, a, k - 1) as int,
        );
        lemma_fundamental_div_mod_converse(
            total,
            stride,
            b[k - 1] as int,
            index_upto(dims, b, k - 1) as int,
        );
        lemma_index_upto_injective(dims, a, b, k - 1);
    }
}

/// Every node of a grid has a place of its own in the flat buffer: in-bounds
/// coordinates with the same position are the same coordinates.
pub proof fn lemma_linear_index_injective(dims: Seq<usize>, a: Seq<usize>, b: Seq<usize>)
    requires
        in_bounds(dims, a),
        in_bounds(dims, b),
        linear_index(dims, a) == linear_index(dims, b),
    ensures
        a == b,
{
    lemma_index_upto_injective(dims, a, b, dims.len() as int);
    assert(a =~= b);
}

/// An `N`-dimensional grid over a borrowed flat buffer. The buffer holds one
/// element per grid node, the first axis varying fastest.
pub struct Matrix<'a, T: Copy, const N: usize> {
    dim: [usize; N],
    elems: &'a [T],
}

impl<'a, T: Copy, const N: usize> Matrix<'a, T, N> {
    /// The axis sizes.
    pub closed spec fn dims(&self) -> Seq<usize> {
        self.dim@
    }

    /// The flat buffer.
    pub closed spec fn elems(&self) -> Seq<T> {
        self.elems@
    }

    /// The buffer holds exactly one element per grid node.
    #[verifier::type_invariant]
    pub open spec fn wf(&self) -> bool {
        &&& self.dims().len() == N
        &&& product(self.dims()) == self.elems().len()
    }

    /// A grid with axis sizes `dim` over `elems`. The caller provides a
    /// buffer with one element per node.
    pub fn new(dim: [usize; N], elems: &'a [T]) -> (m: Self)
        requires
            product(dim@) == elems@.len(),
        ensures
            m.wf(),
            m.dims() == dim@,
            m.elems() == elems@,
    {
        Self { dim, elems }
    }

    /// A grid with axis sizes `dim` over `elems`, or `None` when the buffer
    /// does not hold exactly one element per node.
    pub fn try_new(dim: [usize; N], elems: &'a [T]) -> (r: Option<Self>)
        ensures
            r is Some <==> product(dim@) == elems@.len(),
            r matches Some(m) ==> m.wf() && m.dims() == dim@ && m.elems() == elems@,
    {
        for i in 0..N
            invariant
                forall|j: int| 0 <= j < i ==> dim@[j] >= 1,
        {
            if dim[i] == 0 {
                proof {
                    lemma_product_zero(dim@, i as int, N as int);
                }
                if elems.len() == 0 {
                    return Some(Self { dim, elems });
                } else {
                    return None;
                }
            }
        }
        let len = elems.len();
        let mut size: usize = 1;
        for i in 0..N
            invariant
                forall|j: int| 0 <= j < N ==> dim@[j] >= 1,
                size == product_upto(dim@, i as int),
                len == elems@.len(),
        {
            match size.checked_mul(dim[i]) {
                Some(next) => {
                    size = next;
                },
                None => {
                    proof {
                        lemma_product_monotone(dim@, i + 1, N as int);
                        assert(product_upto(dim@, i + 1) == size * dim@[i as int]);
                    }
                    return None;
                },
            }
        }
        if size == len {
            Some(Self { dim, elems })
        } else {
            None
        }
    }

    /// The position of `loc` in the flat buffer.
    fn index(&self, loc: [usize; N]) -> (idx: usize)
        requires
            in_bounds(self.dims(), loc@),
        ensures
            idx == linear_index(self.dims(), loc@),
            idx < self.elems().len(),
    {
        proof {
            use_type_invariant(self);
        }
        let len = self.elems.len();
        let mut mul: usize = 1;
        let mut index: usize = 0;
        for i in 0..N
            invariant
                self.wf(),
                len == self.elems().len(),
                in_bounds(self.dims(), loc@),
                mul == product_upto(self.dims(), i as int),
                index == index_upto(self.dims(), loc@, i as int),
        {
            proof {
                let dims = self.dims();
                let k = i as int;
                lemma_index_upto_bound(dims, loc@, k + 1);
                lemma_product_monotone(dims, k + 1, N as int);
                assert(product_upto(dims, k + 1) <= usize::MAX);
                assert((loc@[k] as nat) * product_upto(dims, k) <= index_upto(dims, loc@, k + 1));
                assert(product_upto(dims, k) * (loc@[k] as nat) == (loc@[k] as nat) * product_upto(
                    dims,
                    k,
                )) by (nonlinear_arith);
            }
            index += mul * loc[i];
            mul *= self.dim[i];
        }
        proof {
            lemma_linear_index_bound(self.dims(), loc@);
        }
        index
    }

    /// The element at `loc`. The caller keeps `loc` inside the grid.
    pub fn get(&self, loc: [usize; N]) -> (elem: T)
        requires
            in_bounds(self.dims(), loc@),
        ensures
            elem == self.elems()[linear_index(self.dims(), loc@) as int],
    {
        self.elems[self.index(loc)]
    }

    /// The axis sizes.
    pub fn dim(&self) -> (dim: [usize; N])
        ensures
            dim@ == self.dims(),
            self.wf(),
    {
        proof {
            use_type_invariant(self);
        }
        self.dim
    }
}

} // verus!
