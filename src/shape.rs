//! Shapes as types: `Value` is a single slot, `Array<L, N>` is `N` rows of
//! shape `L`. Each shape knows its dimension sizes, outermost first, and how to
//! move between flat offsets and coordinates.

use vstd::prelude::*;
use crate::coord;
use vstd::arithmetic::div_mod::lemma_fundamental_div_mod;

verus! {

/// Type-level list of dimension sizes, outermost first.
pub trait CUList {
    /// A coordinate in this shape: one index per dimension, nested as pairs,
    /// outermost first.
    type CoordType;

    /// The dimension sizes, outermost first.
    spec fn dims() -> Seq<nat>;

    /// The indices held by a coordinate, outermost first.
    spec fn coord_view(c: Self::CoordType) -> Seq<nat>;

    /// The coordinate that holds the given indices.
    spec fn coord_of(s: Seq<nat>) -> Self::CoordType;

    /// Number of dimensions.
    fn dimensionality() -> (r: usize)
        requires
            Self::dims().len() <= usize::MAX,
        ensures
            r == Self::dims().len(),
    ;

    /// Number of slots, or `None` where it does not fit in a `usize`.
    fn element_count() -> (r: Option<usize>)
        ensures
            match r {
                Some(n) => n == coord::element_count(Self::dims()),
                None => coord::element_count(Self::dims()) > usize::MAX,
            },
    ;

    /// The coordinate of flat offset `i`, the outermost dimension varying slowest.
    fn decompose(i: usize) -> (r: Self::CoordType)
        requires
            i < coord::element_count(Self::dims()),
        ensures
            r == Self::coord_of(coord::decompose(Self::dims(), i as nat)),
            Self::coord_view(r) == coord::decompose(Self::dims(), i as nat),
    ;

    /// The flat offset of a coordinate.
    fn flatten(c: &Self::CoordType) -> (r: usize)
        requires
            coord::is_coord(Self::dims(), Self::coord_view(*c)),
            coord::element_count(Self::dims()) <= usize::MAX,
        ensures
            r == coord::flatten(Self::dims(), Self::coord_view(*c)),
    ;
}

/// A single value, not in an array: the shape with no dimension.
pub struct Value {}

impl CUList for Value {
    type CoordType = ();

    open spec fn dims() -> Seq<nat> {
        Seq::empty()
    }

    open spec fn coord_view(c: ()) -> Seq<nat> {
        Seq::empty()
    }

    open spec fn coord_of(s: Seq<nat>) -> () {
        ()
    }

    fn dimensionality() -> (r: usize) {
        0
    }

    fn element_count() -> (r: Option<usize>) {
        Some(1)
    }

    fn decompose(i: usize) -> (r: ()) {
        ()
    }

    fn flatten(c: &()) -> (r: usize) {
        0
    }
}

/// `N` rows of shape `L`: the outermost dimension has size `N`.
pub struct Array<L: CUList, const N: usize> {
    _l: core::marker::PhantomData<L>,
}

impl<L: CUList, const N: usize> CUList for Array<L, N> {
    type CoordType = (usize, L::CoordType);

    open spec fn dims() -> Seq<nat> {
        seq![N as nat].add(L::dims())
    }

    open spec fn coord_view(c: (usize, L::CoordType)) -> Seq<nat> {
        seq![c.0 as nat].add(L::coord_view(c.1))
    }

    open spec fn coord_of(s: Seq<nat>) -> (usize, L::CoordType) {
        (s[0] as usize, L::coord_of(s.drop_first()))
    }

    fn dimensionality() -> (r: usize) {
        assert(Self::dims().drop_first() =~= L::dims());
        1 + L::dimensionality()
    }

    fn element_count() -> (r: Option<usize>) {
        assert(Self::dims().drop_first() =~= L::dims());
        assert(coord::element_count(Self::dims()) == N as nat * coord::element_count(L::dims()));
        if N == 0 {
            assert(N as nat * coord::element_count(L::dims()) == 0) by (nonlinear_arith)
                requires N == 0,
            ;
            return Some(0);
        }
        match L::element_count() {
            Some(inner) => {
                let r = N.checked_mul(inner);
                proof {
                    if r.is_none() {
                        assert(N as nat * inner as nat > usize::MAX);
                    }
                }
                r
            },
            None => {
                assert(N as nat * coord::element_count(L::dims())
                    >= coord::element_count(L::dims())) by (nonlinear_arith)
                    requires N >= 1,
                ;
                None
            },
        }
    }

    fn decompose(i: usize) -> (r: (usize, L::CoordType)) {
        let ghost dims = Self::dims();
        let ghost count = coord::element_count(L::dims());
        assert(dims.drop_first() =~= L::dims());
        let ghost spec_c = coord::decompose(dims, i as nat);
        assert(count > 0) by (nonlinear_arith)
            requires i < N * count,
        ;
        proof {
            lemma_fundamental_div_mod(i as int, count as int);
        }
        match L::element_count() {
            Some(inner) => {
                let c0 = i / inner;
                let rest = L::decompose(i % inner);
                proof {
                    assert(c0 < N) by (nonlinear_arith)
                        requires i < N * inner, i == inner * c0 + (i % inner), i % inner >= 0,
                            inner > 0,
                    ;
                    assert(spec_c.drop_first() =~= coord::decompose(L::dims(), (i % inner) as nat));
                    assert(Self::coord_view((c0, rest)) =~= spec_c);
                }
                (c0, rest)
            },
            None => {
                let rest = L::decompose(i);
                proof {
                    vstd::arithmetic::div_mod::lemma_basic_div(i as int, count as int);
                    vstd::arithmetic::div_mod::lemma_small_mod(i as nat, count);
                    assert(spec_c.drop_first() =~= coord::decompose(L::dims(), i as nat));
                    assert(Self::coord_view((0, rest)) =~= spec_c);
                }
                (0, rest)
            },
        }
    }

    fn flatten(c: &(usize, L::CoordType)) -> (r: usize) {
        let ghost dims = Self::dims();
        let ghost cv = Self::coord_view(*c);
        assert(dims.drop_first() =~= L::dims());
        assert(cv.drop_first() =~= L::coord_view(c.1));
        assert(cv[0] < dims[0]);
        let inner = match L::element_count() {
            Some(n) => n,
            None => {
                assert(false) by (nonlinear_arith)
                    requires N >= 1,
                        coord::element_count(dims) == N * coord::element_count(L::dims()),
                        coord::element_count(dims) <= usize::MAX,
                        coord::element_count(L::dims()) > usize::MAX,
                ;
                0
            },
        };
        assert(coord::is_coord(L::dims(), L::coord_view(c.1))) by {
            assert forall|k: int| 0 <= k < cv.len() - 1 implies L::coord_view(c.1)[k]
                < L::dims()[k] by {
                assert(cv[k + 1] < dims[k + 1]);
            }
        }
        proof {
            coord::lemma_flatten_decompose(L::dims(), L::coord_view(c.1));
            coord::lemma_flatten_decompose(dims, cv);
        }
        let tail = L::flatten(&c.1);
        assert(c.0 * inner + tail < N * inner) by (nonlinear_arith)
            requires c.0 < N, tail < inner,
        ;
        c.0 * inner + tail
    }
}

/// The value that a shape type stands for.
pub trait Reify<T> {
    /// Whether that value fits in `T`.
    spec fn reifiable() -> bool;

    /// The value, where it fits.
    spec fn reified() -> T;

    fn reify() -> (r: T)
        requires
            Self::reifiable(),
        ensures
            r == Self::reified(),
    ;
}

/// A shape as a number: its count of dimensions.
impl Reify<usize> for Value {
    open spec fn reifiable() -> bool {
        true
    }

    open spec fn reified() -> usize {
        0
    }

    fn reify() -> (r: usize) {
        0
    }
}

/// A shape as a number: its count of dimensions.
impl<L: CUList, const N: usize> Reify<usize> for Array<L, N> {
    open spec fn reifiable() -> bool {
        Self::dims().len() <= usize::MAX
    }

    open spec fn reified() -> usize {
        Self::dims().len() as usize
    }

    fn reify() -> (r: usize) {
        Self::dimensionality()
    }
}

/// A shape as a coordinate: its dimension sizes, nested as pairs.
impl Reify<()> for Value {
    open spec fn reifiable() -> bool {
        true
    }

    open spec fn reified() -> () {
        ()
    }

    fn reify() -> (r: ()) {
        ()
    }
}

/// A shape as a coordinate: its dimension sizes, nested as pairs.
impl<L: CUList + Reify<L::CoordType>, const N: usize> Reify<(usize, L::CoordType)> for Array<
    L,
    N,
> {
    open spec fn reifiable() -> bool {
        <L as Reify<L::CoordType>>::reifiable()
    }

    open spec fn reified() -> (usize, L::CoordType) {
        (N, <L as Reify<L::CoordType>>::reified())
    }

    fn reify() -> (r: (usize, L::CoordType)) {
        (N, <L as Reify<L::CoordType>>::reify())
    }
}

} // verus!
