//! Nested fixed-size arrays that conform to a shape, and their construction
//! in a `Box`.

use vstd::prelude::*;
use crate::coord;
use crate::shape::{Array, CUList, Value};
use vstd::arithmetic::div_mod::lemma_fundamental_div_mod;

verus! {

/// Constrains valid nested arrays: `Self` is `E` itself for the shape
/// `Value`, and `[A; N]` for the shape `Array<L, N>` where `A` conforms to
/// `L`. Any other type, or another element type, has no impl.
pub trait Arrays<E: Copy, L: CUList>: Copy {
    /// The element in flat slot `k`, the outermost dimension varying slowest.
    spec fn slot(a: Self, k: nat) -> E;

    /// A value with `e` in every slot.
    fn broadcast(e: E) -> (r: Self)
        ensures
            forall|k: nat| k < coord::element_count(L::dims()) ==> #[trigger] Self::slot(r, k) == e,
    ;
}

impl<E: Copy> Arrays<E, Value> for E {
    open spec fn slot(a: E, k: nat) -> E {
        a
    }

    fn broadcast(e: E) -> (r: E) {
        e
    }
}

impl<E: Copy, L: CUList, A: Arrays<E, L>, const N: usize> Arrays<E, Array<L, N>> for [A; N] {
    open spec fn slot(a: [A; N], k: nat) -> E {
        let inner = coord::element_count(L::dims());
        <A as Arrays<E, L>>::slot(a@[(k / inner) as int], k % inner)
    }

    fn broadcast(e: E) -> (r: [A; N]) {
        let row = A::broadcast(e);
        let r = [row; N];
        let ghost inner = coord::element_count(L::dims());
        assert(Array::<L, N>::dims().drop_first() =~= L::dims());
        assert forall|k: nat| k < coord::element_count(Array::<L, N>::dims()) implies #[trigger] <[A; N] as Arrays<
            E,
            Array<L, N>,
        >>::slot(r, k) == e by {
            assert(inner > 0) by (nonlinear_arith)
                requires k < N * inner,
            ;
            lemma_fundamental_div_mod(k as int, inner as int);
            assert(k / inner < N) by (nonlinear_arith)
                requires k < N * inner, k == inner * (k / inner) + (k % inner), k % inner >= 0,
                    inner > 0,
            ;
            assert(r@[(k / inner) as int] == row);
        }
        r
    }
}

/// A box holding a nested array of shape `L` with `e` in every slot.
///
/// The array is built by value and then moved into the box; `HeapArray`
/// fills a heap block in place, for shapes too large to pass by value.
pub fn boxarray<E: Copy, L: CUList, A: Arrays<E, L>>(e: E) -> (r: Box<A>)
    ensures
        forall|k: nat| k < coord::element_count(L::dims()) ==> #[trigger] <A as Arrays<E, L>>::slot(*r, k) == e,
{
    Box::new(A::broadcast(e))
}

} // verus!
