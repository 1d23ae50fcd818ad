//! Row-major coordinates: counting the slots of a shape and mapping flat
//! offsets to coordinates and back.

use vstd::prelude::*;
use vstd::arithmetic::div_mod::{lemma_fundamental_div_mod, lemma_fundamental_div_mod_converse};

verus! {

/// Number of slots in a shape: the product of its dimension sizes.
pub open spec fn element_count(dims: Seq<nat>) -> nat
    decreases dims.len(),
{
    if dims.len() == 0 {
        1
    } else {
        dims[0] * element_count(dims.drop_first())
    }
}

/// A coordinate of the shape: one index per dimension, each below its size.
pub open spec fn is_coord(dims: Seq<nat>, c: Seq<nat>) -> bool {
    &&& c.len() == dims.len()
    &&& forall|k: int| 0 <= k < c.len() ==> c[k] < dims[k]
}

/// The coordinate of flat offset `i`, the outermost dimension varying slowest.
pub open spec fn decompose(dims: Seq<nat>, i: nat) -> Seq<nat>
    decreases dims.len(),
{
    if dims.len() == 0 {
        Seq::empty()
    } else {
        let inner = element_count(dims.drop_first());
        seq![i / inner].add(decompose(dims.drop_first(), i % inner))
    }
}

/// The flat offset of a coordinate: `c0 * (d1 * ... ) + c1 * (d2 * ...) + ... + ck`.
pub open spec fn flatten(dims: Seq<nat>, c: Seq<nat>) -> nat
    decreases dims.len(),
{
    if dims.len() == 0 || c.len() == 0 {
        0
    } else {
        c[0] * element_count(dims.drop_first()) + flatten(dims.drop_first(), c.drop_first())
    }
}

/// A flat offset below the slot count decomposes into a coordinate, which
/// flattens back to the offset.
pub proof fn lemma_decompose_flatten(dims: Seq<nat>, i: nat)
    requires
        i < element_count(dims),
    ensures
        is_coord(dims, decompose(dims, i)),
        flatten(dims, decompose(dims, i)) == i,
    decreases dims.len(),
{
    if dims.len() > 0 {
        let rest = dims.drop_first();
        let inner = element_count(rest);
        let d0 = dims[0];
        assert(inner > 0) by (nonlinear_arith)
            requires i < d0 * inner,
        ;
        lemma_fundamental_div_mod(i as int, inner as int);
        let q = i / inner;
        let r = i % inner;
        assert(q < d0) by (nonlinear_arith)
            requires i < d0 * inner, i == inner * q + r, r >= 0, inner > 0,
        ;
        lemma_decompose_flatten(rest, r);
        let c = decompose(dims, i);
        assert(c.drop_first() =~= decompose(rest, r));
        assert forall|k: int| 0 <= k < c.len() implies c[k] < dims[k] by {
            if k > 0 {
                assert(c[k] == decompose(rest, r)[k - 1]);
            }
        }
        assert(flatten(dims, c) == q * inner + r) by (nonlinear_arith)
            requires flatten(dims, c) == c[0] * inner + flatten(rest, c.drop_first()),
                c[0] == q, flatten(rest, c.drop_first()) == r,
        ;
    }
}

/// A coordinate flattens to an offset below the slot count, which decomposes
/// back into the same coordinate.
pub proof fn lemma_flatten_decompose(dims: Seq<nat>, c: Seq<nat>)
    requires
        is_coord(dims, c),
    ensures
        flatten(dims, c) < element_count(dims),
        decompose(dims, flatten(dims, c)) == c,
    decreases dims.len(),
{
    if dims.len() == 0 {
        assert(c =~= Seq::<nat>::empty());
    } else {
        let rest = dims.drop_first();
        let tail = c.drop_first();
        let inner = element_count(rest);
        assert(is_coord(rest, tail)) by {
            assert forall|k: int| 0 <= k < tail.len() implies tail[k] < rest[k] by {
                assert(tail[k] == c[k + 1]);
            }
        }
        lemma_flatten_decompose(rest, tail);
        let fr = flatten(rest, tail);
        let x = flatten(dims, c);
        let c0 = c[0];
        let d0 = dims[0];
        assert(c0 < d0);
        assert(x < d0 * inner) by (nonlinear_arith)
            requires x == c0 * inner + fr, fr < inner, c0 < d0,
        ;
        lemma_fundamental_div_mod_converse(x as int, inner as int, c0 as int, fr as int);
        assert(decompose(dims, x) =~= c);
    }
}

/// Decomposition is a bijection from the flat offsets below the slot count
/// onto the coordinates of the shape: every offset gives a coordinate, no two
/// offsets give the same one, and every coordinate is given by some offset.
pub proof fn lemma_decompose_bijective(dims: Seq<nat>)
    ensures
        forall|i: nat| i < element_count(dims) ==> is_coord(dims, #[trigger] decompose(dims, i)),
        forall|i: nat, j: nat|
            i < element_count(dims) && j < element_count(dims) && #[trigger] decompose(dims, i)
                == #[trigger] decompose(dims, j) ==> i == j,
        forall|c: Seq<nat>|
            is_coord(dims, c) ==> exists|i: nat|
                i < element_count(dims) && #[trigger] decompose(dims, i) == c,
{
    assert forall|i: nat| i < element_count(dims) implies is_coord(
        dims,
        #[trigger] decompose(dims, i),
    ) by {
        lemma_decompose_flatten(dims, i);
    }
    assert forall|i: nat, j: nat|
        i < element_count(dims) && j < element_count(dims) && #[trigger] decompose(dims, i)
            == #[trigger] decompose(dims, j) implies i == j by {
        lemma_decompose_flatten(dims, i);
        lemma_decompose_flatten(dims, j);
    }
    assert forall|c: Seq<nat>| is_coord(dims, c) implies exists|i: nat|
        i < element_count(dims) && #[trigger] decompose(dims, i) == c by {
        lemma_flatten_decompose(dims, c);
    }
}

/// The slot count of the scalar shape is one, and adding an outer dimension of
/// size `n` multiplies it by `n`.
pub proof fn lemma_element_count_steps(dims: Seq<nat>, n: nat)
    ensures
        element_count(Seq::empty()) == 1,
        element_count(seq![n].add(dims)) == n * element_count(dims),
{
    assert(seq![n].add(dims).drop_first() =~= dims);
}

} // verus!
