//! Fixed-size numeric tuples with componentwise arithmetic.
use crate::arith::{floor_div, lerp_fits, lerp_value, Fraction};
use std::ops::{Add, Div, Index, Mul, Sub};
use vstd::prelude::*;
use vstd::std_specs::convert::FromSpec;
use vstd::std_specs::ops::{AddSpec, DivSpec, MulSpec, SubSpec};

verus! {

/// The arithmetic that the components of a [`Point`] support.
pub trait Numeric<T>:
    Clone + Copy + Add<T, Output = T> + Div<T, Output = T> + Mul<T, Output = T> + Sub<T, Output = T>
{
}

/// Every type with the four basic operations is `Numeric`.
impl<
    T: Clone + Copy + Add<T, Output = T> + Div<T, Output = T> + Mul<T, Output = T> + Sub<T, Output = T>,
> Numeric<T> for T {
}

/// An `N`-component tuple of numbers. Two points are equal exactly when their
/// components are.
#[derive(Debug, Clone, Copy, PartialEq, Eq, PartialOrd, Ord, Hash)]
pub struct Point<T, const N: usize> where T: Numeric<T> {
    v: [T; N],
}

impl<T, const N: usize> View for Point<T, N> where T: Numeric<T> {
    type V = Seq<T>;

    /// The components, first axis first.
    closed spec fn view(&self) -> Seq<T> {
        self.v@
    }
}

/// A point has exactly `N` components.
pub broadcast proof fn lemma_point_len<T: Numeric<T>, const N: usize>(p: Point<T, N>)
    ensures
        #[trigger] p@.len() == N,
{
}

impl<T, const N: usize> Point<T, N> where T: Numeric<T> {
    /// The component on axis `i`.
    pub open spec fn spec_index(self, i: int) -> T {
        self@[i]
    }

    /// The point whose components are `s`; meaningful when `s` has `N`
    /// elements.
    pub open spec fn from_seq(s: Seq<T>) -> Self {
        choose|p: Self| p@ == s
    }

    /// Points with the same components are the same point.
    pub proof fn lemma_ext_equal(self, other: Self)
        requires
            self@ == other@,
        ensures
            self == other,
    {
        assert(self.v =~= other.v);
    }

    /// A point is the one chosen for its own components.
    pub proof fn lemma_from_seq(self)
        ensures
            Self::from_seq(self@) == self,
    {
        Self::from_seq(self@).lemma_ext_equal(self);
    }

    /// The point with components `v`.
    pub fn new(v: [T; N]) -> (p: Point<T, N>)
        ensures
            p@ == v@,
            p@.len() == N,
    {
        Point { v }
    }
}

/// The two coordinates of a point in the plane.
pub open spec fn position(p: Point<i64, 2>) -> (int, int) {
    (p@[0] as int, p@[1] as int)
}

/// The coordinates of every point of a sequence.
pub open spec fn positions(points: Seq<Point<i64, 2>>) -> Seq<(int, int)> {
    points.map_values(|p: Point<i64, 2>| position(p))
}

impl<const N: usize> Point<i64, N> {
    /// The weighted mean of two points, component by component: `self` for
    /// `amount = 1`, `other` for `amount = 0`, rounded towards negative
    /// infinity in between and beyond.
    pub fn lerp(self, other: Point<i64, N>, amount: Fraction) -> (mean: Point<i64, N>)
        requires
            amount.den > 0,
            forall|i: int|
                0 <= i < N ==> lerp_fits(
                    #[trigger] self@[i] as int,
                    other@[i] as int,
                    amount.num as int,
                    amount.den as int,
                ),
        ensures
            mean@.len() == N,
            forall|i: int|
                0 <= i < N ==> #[trigger] mean@[i] == lerp_value(
                    self@[i] as int,
                    other@[i] as int,
                    amount.num as int,
                    amount.den as int,
                ),
    {
        let mut combined = self.v;
        for i in 0..N
            invariant
                amount.den > 0,
                forall|j: int|
                    0 <= j < N ==> lerp_fits(
                        #[trigger] self@[j] as int,
                        other@[j] as int,
                        amount.num as int,
                        amount.den as int,
                    ),
                forall|j: int|
                    0 <= j < i ==> #[trigger] combined@[j] == lerp_value(
                        self@[j] as int,
                        other@[j] as int,
                        amount.num as int,
                        amount.den as int,
                    ),
        {
            assert(lerp_fits(
                self@[i as int] as int,
                other@[i as int] as int,
                amount.num as int,
                amount.den as int,
            ));
            let a = self.v[i] as i128;
            let b = other.v[i] as i128;
            let rest = amount.den as i128 - amount.num as i128;
            let weighted = (a * (amount.num as i128) + b * rest) as i64;
            combined[i] = floor_div(weighted, amount.den);
        }
        Point { v: combined }
    }
}

impl<T, const N: usize> vstd::std_specs::core::IndexSpecImpl<usize> for Point<T, N> where T: Numeric<T> {
    open spec fn index_req(&self, index: &usize) -> bool {
        *index < N
    }
}

impl<T, const N: usize> Index<usize> for Point<T, N> where T: Numeric<T> {
    type Output = T;

    /// The component on axis `index`.
    fn index(&self, index: usize) -> (output: &T)
        ensures
            *output == self@[index as int],
    {
        &self.v[index]
    }
}

impl<T, const N: usize> vstd::std_specs::ops::AddSpecImpl<Point<T, N>> for Point<T, N> where T: Numeric<T> {
    open spec fn obeys_add_spec() -> bool {
        T::obeys_add_spec()
    }

    open spec fn add_req(self, rhs: Point<T, N>) -> bool {
        forall|i: int| 0 <= i < N ==> #[trigger] self@[i].add_req(rhs@[i])
    }

    open spec fn add_spec(self, rhs: Point<T, N>) -> Point<T, N> {
        Point::from_seq(Seq::new(N as nat, |i: int| self@[i].add_spec(rhs@[i])))
    }
}

impl<T, const N: usize> Add<Point<T, N>> for Point<T, N> where T: Numeric<T> {
    type Output = Point<T, N>;

    /// The componentwise sum.
    fn add(self, rhs: Self) -> (sum: Point<T, N>)
        ensures
            sum@.len() == N,
            T::obeys_add_spec() ==> forall|i: int|
                0 <= i < N ==> #[trigger] sum@[i] == self@[i].add_spec(rhs@[i]),
    {
        let mut out = self.v;
        for i in 0..N
            invariant
                forall|j: int| 0 <= j < N ==> #[trigger] self@[j].add_req(rhs@[j]),
                forall|j: int| i <= j < N ==> out@[j] == self@[j],
                T::obeys_add_spec() ==> forall|j: int|
                    0 <= j < i ==> out@[j] == #[trigger] self@[j].add_spec(rhs@[j]),
        {
            assert(self@[i as int].add_req(rhs@[i as int]));
            out[i] = self.v[i] + rhs.v[i];
        }
        let sum = Point { v: out };
        proof {
            if T::obeys_add_spec() {
                assert(sum@ =~= Seq::new(N as nat, |i: int| self@[i].add_spec(rhs@[i])));
                sum.lemma_from_seq();
            }
        }
        sum
    }
}

impl<T, const N: usize> vstd::std_specs::ops::SubSpecImpl<Point<T, N>> for Point<T, N> where T: Numeric<T> {
    open spec fn obeys_sub_spec() -> bool {
        T::obeys_sub_spec()
    }

    open spec fn sub_req(self, rhs: Point<T, N>) -> bool {
        forall|i: int| 0 <= i < N ==> #[trigger] self@[i].sub_req(rhs@[i])
    }

    open spec fn sub_spec(self, rhs: Point<T, N>) -> Point<T, N> {
        Point::from_seq(Seq::new(N as nat, |i: int| self@[i].sub_spec(rhs@[i])))
    }
}

impl<T, const N: usize> Sub<Point<T, N>> for Point<T, N> where T: Numeric<T> {
    type Output = Point<T, N>;

    /// The componentwise difference.
    fn sub(self, rhs: Self) -> (difference: Point<T, N>)
        ensures
            difference@.len() == N,
            T::obeys_sub_spec() ==> forall|i: int|
                0 <= i < N ==> #[trigger] difference@[i] == self@[i].sub_spec(rhs@[i]),
    {
        let mut out = self.v;
        for i in 0..N
            invariant
                forall|j: int| 0 <= j < N ==> #[trigger] self@[j].sub_req(rhs@[j]),
                forall|j: int| i <= j < N ==> out@[j] == self@[j],
                T::obeys_sub_spec() ==> forall|j: int|
                    0 <= j < i ==> out@[j] == #[trigger] self@[j].sub_spec(rhs@[j]),
        {
            assert(self@[i as int].sub_req(rhs@[i as int]));
            out[i] = self.v[i] - rhs.v[i];
        }
        let difference = Point { v: out };
        proof {
            if T::obeys_sub_spec() {
                assert(difference@ =~= Seq::new(N as nat, |i: int| self@[i].sub_spec(rhs@[i])));
                difference.lemma_from_seq();
            }
        }
        difference
    }
}

impl<T, const N: usize> vstd::std_specs::ops::MulSpecImpl<Point<T, N>> for Point<T, N> where T: Numeric<T> {
    open spec fn obeys_mul_spec() -> bool {
        T::obeys_mul_spec()
    }

    open spec fn mul_req(self, rhs: Point<T, N>) -> bool {
        forall|i: int| 0 <= i < N ==> #[trigger] self@[i].mul_req(rhs@[i])
    }

    open spec fn mul_spec(self, rhs: Point<T, N>) -> Point<T, N> {
        Point::from_seq(Seq::new(N as nat, |i: int| self@[i].mul_spec(rhs@[i])))
    }
}

impl<T, const N: usize> Mul<Point<T, N>> for Point<T, N> where T: Numeric<T> {
    type Output = Point<T, N>;

    /// The componentwise product.
    fn mul(self, rhs: Self) -> (product: Point<T, N>)
        ensures
            product@.len() == N,
            T::obeys_mul_spec() ==> forall|i: int|
                0 <= i < N ==> #[trigger] product@[i] == self@[i].mul_spec(rhs@[i]),
    {
        let mut out = self.v;
        for i in 0..N
            invariant
                forall|j: int| 0 <= j < N ==> #[trigger] self@[j].mul_req(rhs@[j]),
                forall|j: int| i <= j < N ==> out@[j] == self@[j],
                T::obeys_mul_spec() ==> forall|j: int|
                    0 <= j < i ==> out@[j] == #[trigger] self@[j].mul_spec(rhs@[j]),
        {
            assert(self@[i as int].mul_req(rhs@[i as int]));
            out[i] = self.v[i] * rhs.v[i];
        }
        let product = Point { v: out };
        proof {
            if T::obeys_mul_spec() {
                assert(product@ =~= Seq::new(N as nat, |i: int| self@[i].mul_spec(rhs@[i])));
                product.lemma_from_seq();
            }
        }
        product
    }
}

impl<T, const N: usize> vstd::std_specs::ops::DivSpecImpl<Point<T, N>> for Point<T, N> where T: Numeric<T> {
    open spec fn obeys_div_spec() -> bool {
        T::obeys_div_spec()
    }

    open spec fn div_req(self, rhs: Point<T, N>) -> bool {
        forall|i: int| 0 <= i < N ==> #[trigger] self@[i].div_req(rhs@[i])
    }

    open spec fn div_spec(self, rhs: Point<T, N>) -> Point<T, N> {
        Point::from_seq(Seq::new(N as nat, |i: int| self@[i].div_spec(rhs@[i])))
    }
}

impl<T, const N: usize> Div<Point<T, N>> for Point<T, N> where T: Numeric<T> {
    type Output = Point<T, N>;

    /// The componentwise quotient.
    fn div(self, rhs: Self) -> (quotient: Point<T, N>)
        ensures
            quotient@.len() == N,
            T::obeys_div_spec() ==> forall|i: int|
                0 <= i < N ==> #[trigger] quotient@[i] == self@[i].div_spec(rhs@[i]),
    {
        let mut out = self.v;
        for i in 0..N
            invariant
                forall|j: int| 0 <= j < N ==> #[trigger] self@[j].div_req(rhs@[j]),
                forall|j: int| i <= j < N ==> out@[j] == self@[j],
                T::obeys_div_spec() ==> forall|j: int|
                    0 <= j < i ==> out@[j] == #[trigger] self@[j].div_spec(rhs@[j]),
        {
            assert(self@[i as int].div_req(rhs@[i as int]));
            out[i] = self.v[i] / rhs.v[i];
        }
        let quotient = Point { v: out };
        proof {
            if T::obeys_div_spec() {
                assert(quotient@ =~= Seq::new(N as nat, |i: int| self@[i].div_spec(rhs@[i])));
                quotient.lemma_from_seq();
            }
        }
        quotient
    }
}

impl<T, const N: usize> vstd::std_specs::ops::DivSpecImpl<T> for Point<T, N> where T: Numeric<T> {
    open spec fn obeys_div_spec() -> bool {
        T::obeys_div_spec()
    }

    open spec fn div_req(self, rhs: T) -> bool {
        forall|i: int| 0 <= i < N ==> #[trigger] self@[i].div_req(rhs)
    }

    open spec fn div_spec(self, rhs: T) -> Point<T, N> {
        Point::from_seq(Seq::new(N as nat, |i: int| self@[i].div_spec(rhs)))
    }
}

impl<T, const N: usize> Div<T> for Point<T, N> where T: Numeric<T> {
    type Output = Point<T, N>;

    /// Every component divided by `rhs`.
    fn div(self, rhs: T) -> (scaled: Point<T, N>)
        ensures
            scaled@.len() == N,
            T::obeys_div_spec() ==> forall|i: int|
                0 <= i < N ==> #[trigger] scaled@[i] == self@[i].div_spec(rhs),
    {
        let mut out = self.v;
        for i in 0..N
            invariant
                forall|j: int| 0 <= j < N ==> #[trigger] self@[j].div_req(rhs),
                forall|j: int| i <= j < N ==> out@[j] == self@[j],
                T::obeys_div_spec() ==> forall|j: int|
                    0 <= j < i ==> out@[j] == #[trigger] self@[j].div_spec(rhs),
        {
            assert(self@[i as int].div_req(rhs));
            out[i] = self.v[i] / rhs;
        }
        let scaled = Point { v: out };
        proof {
            if T::obeys_div_spec() {
                assert(scaled@ =~= Seq::new(N as nat, |i: int| self@[i].div_spec(rhs)));
                scaled.lemma_from_seq();
            }
        }
        scaled
    }
}

impl<T, const N: usize> vstd::std_specs::ops::MulSpecImpl<T> for Point<T, N> where T: Numeric<T> {
    open spec fn obeys_mul_spec() -> bool {
        T::obeys_mul_spec()
    }

    open spec fn mul_req(self, rhs: T) -> bool {
        forall|i: int| 0 <= i < N ==> #[trigger] self@[i].mul_req(rhs)
    }

    open spec fn mul_spec(self, rhs: T) -> Point<T, N> {
        Point::from_seq(Seq::new(N as nat, |i: int| self@[i].mul_spec(rhs)))
    }
}

impl<T, const N: usize> Mul<T> for Point<T, N> where T: Numeric<T> {
    type Output = Point<T, N>;

    /// Every component multiplied by `rhs`.
    fn mul(self, rhs: T) -> (scaled: Point<T, N>)
        ensures
            scaled@.len() == N,
            T::obeys_mul_spec() ==> forall|i: int|
                0 <= i < N ==> #[trigger] scaled@[i] == self@[i].mul_spec(rhs),
    {
        let mut out = self.v;
        for i in 0..N
            invariant
                forall|j: int| 0 <= j < N ==> #[trigger] self@[j].mul_req(rhs),
                forall|j: int| i <= j < N ==> out@[j] == self@[j],
                T::obeys_mul_spec() ==> forall|j: int|
                    0 <= j < i ==> out@[j] == #[trigger] self@[j].mul_spec(rhs),
        {
            assert(self@[i as int].mul_req(rhs));
            out[i] = self.v[i] * rhs;
        }
        let scaled = Point { v: out };
        proof {
            if T::obeys_mul_spec() {
                assert(scaled@ =~= Seq::new(N as nat, |i: int| self@[i].mul_spec(rhs)));
                scaled.lemma_from_seq();
            }
        }
        scaled
    }
}

impl<T, const N: usize> vstd::std_specs::convert::FromSpecImpl<[T; N]> for Point<T, N> where T: Numeric<T> {
    open spec fn obeys_from_spec() -> bool {
        true
    }

    open spec fn from_spec(value: [T; N]) -> Self {
        Point::from_seq(value@)
    }
}

impl<T, const N: usize> From<[T; N]> for Point<T, N> where T: Numeric<T> {
    /// The point with components `value`.
    fn from(value: [T; N]) -> (p: Self)
        ensures
            p@ == value@,
    {
        let p = Point::new(value);
        proof {
            p.lemma_from_seq();
        }
        p
    }
}

impl<T, const N: usize> vstd::std_specs::convert::FromSpecImpl<Point<T, N>> for [T; N] where T: Numeric<T> {
    open spec fn obeys_from_spec() -> bool {
        true
    }

    open spec fn from_spec(value: Point<T, N>) -> Self {
        choose|a: [T; N]| a@ == value@
    }
}

impl<T, const N: usize> From<Point<T, N>> for [T; N] where T: Numeric<T> {
    /// The components of `value`.
    fn from(value: Point<T, N>) -> (a: Self)
        ensures
            a@ == value@,
    {
        proof {
            let chosen = choose|a: [T; N]| a@ == value@;
            assert(chosen =~= value.v);
        }
        value.v
    }
}

/// `<[A; K]>::map` of the standard library: the result holds, at each index,
/// what `f` returned for the element of `a` at that index.
pub assume_specification<A, const K: usize, F, B>[ <[A; K]>::map::<F, B> ](a: [A; K], f: F) -> (out: [B; K]) where F: FnMut(A) -> B
    requires
        forall|i: int| 0 <= i < K ==> call_requires(f, (#[trigger] a@[i],)),
    ensures
        forall|i: int| 0 <= i < K ==> call_ensures(f, (a@[i],), #[trigger] out@[i]),
;

impl<T, U, const N: usize> vstd::std_specs::convert::FromSpecImpl<(Point<T, N>,)> for Point<U, N> where U: From<T> + Numeric<U>, T: Numeric<T> {
    open spec fn obeys_from_spec() -> bool {
        U::obeys_from_spec()
    }

    open spec fn from_spec(value: (Point<T, N>,)) -> Self {
        Point::from_seq(Seq::new(N as nat, |i: int| U::from_spec(value.0@[i])))
    }
}

impl<T, U, const N: usize> From<(Point<T, N>,)> for Point<U, N> where U: From<T> + Numeric<U>, T: Numeric<T> {
    /// The point whose components are those of `value.0`, each converted.
    fn from(value: (Point<T, N>,)) -> (p: Self)
        ensures
            p@.len() == N,
            U::obeys_from_spec() ==> forall|i: int|
                0 <= i < N ==> #[trigger] p@[i] == U::from_spec(value.0@[i]),
    {
        let converted = value.0.v.map(U::from);
        let p = Point { v: converted };
        proof {
            if U::obeys_from_spec() {
                assert(p@ =~= Seq::new(N as nat, |i: int| U::from_spec(value.0@[i])));
                p.lemma_from_seq();
            }
        }
        p
    }
}

} // verus!
