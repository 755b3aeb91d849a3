//! Offset arithmetic: how a coordinate tuple maps to a position in the
//! flat buffer. The stride of an axis is the product of the extents of
//! the axes before it, so the first axis varies fastest.

use vstd::prelude::*;

verus! {

/// Product of the first `k` extents of `shape`.
pub open spec fn prefix_product(shape: Seq<usize>, k: int) -> int
    decreases k,
{
    if k <= 0 {
        1
    } else {
        prefix_product(shape, k - 1) * shape[k - 1]
    }
}

/// Number of elements a buffer of this shape holds: the product of all
/// extents (1 for an empty shape).
pub open spec fn size_of(shape: Seq<usize>) -> int {
    prefix_product(shape, shape.len() as int)
}

/// Every prefix product of the extents fits in a machine word, so the
/// element count can be computed without overflow.
pub open spec fn sizes_fit(shape: Seq<usize>) -> bool {
    forall|k: int| 0 <= k <= shape.len() ==> prefix_product(shape, k) <= usize::MAX
}

/// The coordinates name one element: one component per axis, each within
/// its extent.
pub open spec fn valid_coords(shape: Seq<usize>, coords: Seq<usize>) -> bool {
    &&& coords.len() == shape.len()
    &&& forall|i: int| 0 <= i < coords.len() ==> coords[i] < shape[i]
}

/// Offset contributed by the first `k` coordinates: each component scaled
/// by the product of the extents before its axis.
pub open spec fn offset_upto(shape: Seq<usize>, coords: Seq<usize>, k: int) -> int
    decreases k,
{
    if k <= 0 {
        0
    } else {
        offset_upto(shape, coords, k - 1) + coords[k - 1] * prefix_product(shape, k - 1)
    }
}

/// Position of the element named by `coords` in the flat buffer.
pub open spec fn offset_of(shape: Seq<usize>, coords: Seq<usize>) -> int {
    offset_upto(shape, coords, coords.len() as int)
}

pub proof fn lemma_prefix_product_nonneg(shape: Seq<usize>, k: int)
    ensures
        prefix_product(shape, k) >= 0,
    decreases k,
{
    if k > 0 {
        lemma_prefix_product_nonneg(shape, k - 1);
        let p = prefix_product(shape, k - 1);
        let s = shape[k - 1] as int;
        assert(p * s >= 0) by (nonlinear_arith)
            requires
                p >= 0,
                s >= 0,
        ;
    }
}

/// With every extent from axis `k` on at least 1, the prefix product at
/// `k` is no more than the whole product.
pub proof fn lemma_prefix_product_le_size(shape: Seq<usize>, k: int)
    requires
        0 <= k <= shape.len(),
        forall|i: int| k <= i < shape.len() ==> shape[i] >= 1,
    ensures
        prefix_product(shape, k) <= size_of(shape),
    decreases shape.len() - k,
{
    if k < shape.len() {
        lemma_prefix_product_nonneg(shape, k);
        let p = prefix_product(shape, k);
        let s = shape[k] as int;
        assert(p <= p * s) by (nonlinear_arith)
            requires
                p >= 0,
                s >= 1,
        ;
        lemma_prefix_product_le_size(shape, k + 1);
    }
}

pub proof fn lemma_offset_upto_in_bounds(shape: Seq<usize>, coords: Seq<usize>, k: int)
    requires
        0 <= k <= coords.len(),
        coords.len() == shape.len(),
        forall|i: int| 0 <= i < k ==> coords[i] < shape[i],
    ensures
        0 <= offset_upto(shape, coords, k) < prefix_product(shape, k),
    decreases k,
{
    if k > 0 {
        lemma_offset_upto_in_bounds(shape, coords, k - 1);
        let o = offset_upto(shape, coords, k - 1);
        let p = prefix_product(shape, k - 1);
        let c = coords[k - 1] as int;
        let s = shape[k - 1] as int;
        assert(0 <= o + c * p < p * s) by (nonlinear_arith)
            requires
                0 <= o < p,
                0 <= c < s,
        ;
    }
}

/// A valid coordinate tuple lands inside the buffer.
pub proof fn lemma_offset_in_bounds(shape: Seq<usize>, coords: Seq<usize>)
    requires
        valid_coords(shape, coords),
    ensures
        0 <= offset_of(shape, coords) < size_of(shape),
{
    lemma_offset_upto_in_bounds(shape, coords, coords.len() as int);
}

/// Position of the element named by `coordinates` in the flat buffer.
/// Pure stride arithmetic: each component scaled by the product of the
/// extents before its axis, summed.
pub fn offset(shape: &[usize], coordinates: &[usize]) -> (r: usize)
    requires
        valid_coords(shape@, coordinates@),
        size_of(shape@) <= usize::MAX,
    ensures
        r == offset_of(shape@, coordinates@),
        r < size_of(shape@),
{
    let mut off: usize = 0;
    let mut stride: usize = 1;
    let mut i: usize = 0;
    while i < coordinates.len()
        invariant
            valid_coords(shape@, coordinates@),
            size_of(shape@) <= usize::MAX,
            i <= coordinates@.len(),
            off == offset_upto(shape@, coordinates@, i as int),
            stride == prefix_product(shape@, i as int),
        decreases coordinates@.len() - i,
    {
        proof {
            lemma_offset_upto_in_bounds(shape@, coordinates@, i + 1);
            lemma_prefix_product_le_size(shape@, i + 1);
            assert(offset_upto(shape@, coordinates@, i + 1) == off + coordinates@[i as int]
                * stride);
            assert(prefix_product(shape@, i + 1) == stride * shape@[i as int]);
        }
        off = off + coordinates[i] * stride;
        stride = stride * shape[i];
        i = i + 1;
    }
    proof {
        lemma_offset_in_bounds(shape@, coordinates@);
    }
    off
}

} // verus!
