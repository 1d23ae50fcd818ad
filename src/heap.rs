//! Heap blocks laid out by a shape: every slot written once, in flat
//! row-major order, before the block is handed out.

use vstd::prelude::*;
use crate::coord;
use crate::shape::CUList;

verus! {

/// An owned heap block holding one element per slot of shape `L`, in flat
/// row-major order (the outermost dimension varies slowest).
pub struct HeapArray<E, L: CUList> {
    data: Vec<E>,
    _l: core::marker::PhantomData<L>,
}

impl<E, L: CUList> View for HeapArray<E, L> {
    type V = Seq<E>;

    /// The elements in flat order.
    closed spec fn view(&self) -> Seq<E> {
        self.data@
    }
}

impl<E, L: CUList> HeapArray<E, L> {
    /// The block has exactly one element per slot of the shape.
    pub open spec fn wf(&self) -> bool {
        self@.len() == coord::element_count(L::dims())
    }

    /// Whether `s` holds one element per slot, each a value that `f` returns
    /// for the coordinate of its flat offset.
    pub open spec fn filled_by<F: Fn(L::CoordType) -> E>(f: F, s: Seq<E>) -> bool {
        &&& s.len() == coord::element_count(L::dims())
        &&& forall|k: int|
            0 <= k < s.len() ==> f.ensures(
                (L::coord_of(coord::decompose(L::dims(), k as nat)),),
                #[trigger] s[k],
            )
    }

    /// Filling two blocks by the same function gives equal contents, where the
    /// function returns a single value for each coordinate.
    pub proof fn lemma_from_coordinates_deterministic<F: Fn(L::CoordType) -> E>(
        f: F,
        a: Self,
        b: Self,
    )
        requires
            forall|c: L::CoordType, v: E, w: E|
                f.ensures((c,), v) && f.ensures((c,), w) ==> v == w,
            Self::filled_by(f, a@),
            Self::filled_by(f, b@),
        ensures
            a@ == b@,
    {
        assert forall|k: int| 0 <= k < a@.len() implies a@[k] == b@[k] by {
            let c = L::coord_of(coord::decompose(L::dims(), k as nat));
            assert(f.ensures((c,), a@[k]));
            assert(f.ensures((c,), b@[k]));
        }
        assert(a@ =~= b@);
    }

    /// The element at coordinate `c`, in the model.
    pub open spec fn at(&self, c: Seq<nat>) -> E {
        self@[coord::flatten(L::dims(), c) as int]
    }

    /// Fills a new block by calling `f` on the coordinate of each slot, once
    /// per slot and in increasing flat order, also where `E` has size zero.
    /// `None` where the slot count does not fit in a `usize`.
    pub fn from_coordinates<F: Fn(L::CoordType) -> E>(f: F) -> (r: Option<Self>)
        requires
            forall|c: L::CoordType| #[trigger] f.requires((c,)),
        ensures
            match r {
                Some(a) => Self::filled_by(f, a@),
                None => coord::element_count(L::dims()) > usize::MAX,
            },
    {
        let n = match L::element_count() {
            Some(n) => n,
            None => {
                return None;
            },
        };
        let mut data: Vec<E> = Vec::with_capacity(n);
        let mut i: usize = 0;
        while i < n
            invariant
                n == coord::element_count(L::dims()),
                i <= n,
                data@.len() == i,
                forall|c: L::CoordType| #[trigger] f.requires((c,)),
                forall|k: int|
                    0 <= k < i ==> f.ensures(
                        (L::coord_of(coord::decompose(L::dims(), k as nat)),),
                        #[trigger] data@[k],
                    ),
            decreases n - i,
        {
            let c = L::decompose(i);
            let v = f(c);
            data.push(v);
            i = i + 1;
        }
        let r = HeapArray { data, _l: core::marker::PhantomData };
        assert(Self::filled_by(f, r@));
        Some(r)
    }

    /// Number of elements held.
    pub fn len(&self) -> (r: usize)
        ensures
            r == self@.len(),
    {
        self.data.len()
    }

    /// The elements in flat order.
    pub fn as_slice(&self) -> (r: &[E])
        ensures
            r@ == self@,
    {
        self.data.as_slice()
    }

    /// Gives up the block as a vector of the elements in flat order.
    pub fn into_vec(self) -> (r: Vec<E>)
        ensures
            r@ == self@,
    {
        self.data
    }

    /// The element at coordinate `c`.
    pub fn get(&self, c: &L::CoordType) -> (r: &E)
        requires
            self.wf(),
            coord::is_coord(L::dims(), L::coord_view(*c)),
        ensures
            *r == self.at(L::coord_view(*c)),
    {
        // the block's length fits in a usize, so the slot count does too
        let _ = self.data.len();
        proof {
            coord::lemma_flatten_decompose(L::dims(), L::coord_view(*c));
        }
        let k = L::flatten(c);
        &self.data[k]
    }
}

impl<E: Copy, L: CUList> HeapArray<E, L> {
    /// Fills a new block with `e` in every slot. `None` where the slot count
    /// does not fit in a `usize`.
    pub fn broadcast(e: E) -> (r: Option<Self>)
        ensures
            match r {
                Some(a) => a@ == Seq::new(coord::element_count(L::dims()), |k: int| e),
                None => coord::element_count(L::dims()) > usize::MAX,
            },
    {
        let n = match L::element_count() {
            Some(n) => n,
            None => {
                return None;
            },
        };
        let mut data: Vec<E> = Vec::with_capacity(n);
        let mut i: usize = 0;
        while i < n
            invariant
                i <= n,
                data@ == Seq::new(i as nat, |k: int| e),
            decreases n - i,
        {
            data.push(e);
            i = i + 1;
            assert(data@ =~= Seq::new(i as nat, |k: int| e));
        }
        Some(HeapArray { data, _l: core::marker::PhantomData })
    }

    /// Filling two blocks with the same value gives equal contents.
    pub proof fn lemma_broadcast_deterministic(a: Self, b: Self, e: E)
        requires
            a@ == Seq::new(coord::element_count(L::dims()), |k: int| e),
            b@ == Seq::new(coord::element_count(L::dims()), |k: int| e),
        ensures
            a@ == b@,
    {
    }
}

} // verus!
