//! The array itself: a shape and a flat element buffer, with the
//! bounds-checked lookup that is the single authority on coordinate
//! validity.

use vstd::prelude::*;

use crate::layout::{lemma_offset_in_bounds, offset, offset_of, size_of, valid_coords};

verus! {

/// An N-dimensional array: one extent per axis, and a flat buffer holding
/// one element per point of the shape, the first axis varying fastest.
#[derive(Debug)]
pub struct QArray {
    pub shape: Vec<usize>,
    pub data: Vec<isize>,
}

impl QArray {
    /// The buffer holds exactly one element per point of the shape.
    pub open spec fn wf(self) -> bool {
        self.data@.len() == size_of(self.shape@)
    }

    /// What `index` returns: the element at the coordinates' offset when
    /// they name a point of the shape, and no value otherwise.
    pub open spec fn index_spec(self, coords: Seq<usize>) -> Option<isize> {
        if valid_coords(self.shape@, coords) {
            Some(self.data@[offset_of(self.shape@, coords)])
        } else {
            None
        }
    }

    /// Element at the given coordinates, or `None` when the number of
    /// coordinates differs from the rank or any component reaches past
    /// its axis's extent.
    pub fn index(&self, coordinates: &[usize]) -> (r: Option<isize>)
        requires
            self.wf(),
        ensures
            r == self.index_spec(coordinates@),
    {
        if coordinates.len() != self.shape.len() {
            return None;
        }
        let mut i: usize = 0;
        while i < coordinates.len()
            invariant
                coordinates@.len() == self.shape@.len(),
                i <= coordinates@.len(),
                forall|j: int| 0 <= j < i ==> coordinates@[j] < self.shape@[j],
            decreases coordinates@.len() - i,
        {
            if coordinates[i] >= self.shape[i] {
                assert(!valid_coords(self.shape@, coordinates@));
                return None;
            }
            i = i + 1;
        }
        proof {
            lemma_offset_in_bounds(self.shape@, coordinates@);
        }
        // The buffer's length, a usize, bounds the product of the extents.
        let _stored = self.data.len();
        assert(size_of(self.shape@) == _stored);
        let off = offset(self.shape.as_slice(), coordinates);
        Some(self.data[off])
    }
}

/// An array answers no query whose coordinate count differs from its rank.
pub proof fn lemma_index_rank_mismatch(a: QArray, coords: Seq<usize>)
    requires
        coords.len() != a.shape@.len(),
    ensures
        a.index_spec(coords) is None,
{
}

/// An array answers no query with a component at or past its axis's
/// extent.
pub proof fn lemma_index_out_of_bounds(a: QArray, coords: Seq<usize>, i: int)
    requires
        0 <= i < coords.len(),
        coords[i] >= a.shape@[i],
    ensures
        a.index_spec(coords) is None,
{
}

} // verus!
