//! Conversion from nested vectors (one, two or three levels) into an
//! array: the shape is inferred from the nesting — the outer length,
//! then the length of the first element at each deeper level — and the
//! buffer is the input flattened in iteration order, outer level first.

use vstd::prelude::*;

use crate::array::QArray;
use crate::layout::{offset_of, offset_upto, prefix_product, valid_coords};

verus! {

/// The inner sequences of a vector of vectors.
pub open spec fn rows2(v: Seq<Vec<isize>>) -> Seq<Seq<isize>> {
    Seq::new(v.len(), |i: int| v[i]@)
}

/// The two-level nests of a vector of vectors of vectors.
pub open spec fn rows3(v: Seq<Vec<Vec<isize>>>) -> Seq<Seq<Seq<isize>>> {
    Seq::new(v.len(), |i: int| rows2(v[i]@))
}

/// The rows of `v` laid out one after another, earlier rows first.
pub open spec fn flat2(v: Seq<Seq<isize>>) -> Seq<isize>
    decreases v.len(),
{
    if v.len() == 0 {
        Seq::empty()
    } else {
        flat2(v.drop_last()) + v.last()
    }
}

/// The two-level nests of `v` flattened and laid out one after another.
pub open spec fn flat3(v: Seq<Seq<Seq<isize>>>) -> Seq<isize>
    decreases v.len(),
{
    if v.len() == 0 {
        Seq::empty()
    } else {
        flat3(v.drop_last()) + flat2(v.last())
    }
}

/// Length of the first element, or zero when there is none.
pub open spec fn first_len2(v: Seq<Seq<isize>>) -> usize {
    if v.len() == 0 {
        0usize
    } else {
        v[0].len() as usize
    }
}

/// Length of the first two-level nest, or zero when there is none.
pub open spec fn first_len3(v: Seq<Seq<Seq<isize>>>) -> usize {
    if v.len() == 0 {
        0usize
    } else {
        v[0].len() as usize
    }
}

/// Conversion of a nested vector into a `QArray`. The shape comes from
/// the nesting depth and the first element's length at each level; the
/// buffer is the flattening in iteration order.
pub trait ToQArray {
    /// The shape the conversion infers.
    spec fn to_shape(&self) -> Seq<usize>;

    /// The flattened elements.
    spec fn to_flat(&self) -> Seq<isize>;

    fn to_qarray(&self) -> (r: QArray)
        ensures
            r.shape@ == self.to_shape(),
            r.data@ == self.to_flat(),
    ;
}

impl ToQArray for Vec<isize> {
    open spec fn to_shape(&self) -> Seq<usize> {
        seq![self@.len() as usize]
    }

    open spec fn to_flat(&self) -> Seq<isize> {
        self@
    }

    fn to_qarray(&self) -> (r: QArray) {
        let mut shape: Vec<usize> = Vec::new();
        shape.push(self.len());
        assert(shape@ =~= self.to_shape());
        let mut data: Vec<isize> = Vec::new();
        let mut i: usize = 0;
        while i < self.len()
            invariant
                i <= self@.len(),
                data@ == self@.take(i as int),
            decreases self@.len() - i,
        {
            data.push(self[i]);
            assert(data@ =~= self@.take(i + 1));
            i = i + 1;
        }
        assert(data@ =~= self@);
        QArray { shape, data }
    }
}

impl ToQArray for Vec<Vec<isize>> {
    open spec fn to_shape(&self) -> Seq<usize> {
        seq![self@.len() as usize, first_len2(rows2(self@))]
    }

    open spec fn to_flat(&self) -> Seq<isize> {
        flat2(rows2(self@))
    }

    fn to_qarray(&self) -> (r: QArray) {
        let l1: usize = self.len();
        let l2: usize = if self.len() == 0 {
            0
        } else {
            self[0].len()
        };
        let mut shape: Vec<usize> = Vec::new();
        shape.push(l1);
        shape.push(l2);
        assert(shape@ =~= self.to_shape());
        let mut data: Vec<isize> = Vec::new();
        let mut i: usize = 0;
        while i < self.len()
            invariant
                i <= self@.len(),
                data@ == flat2(rows2(self@).take(i as int)),
            decreases self@.len() - i,
        {
            let row = &self[i];
            let mut j: usize = 0;
            while j < row.len()
                invariant
                    i < self@.len(),
                    j <= row@.len(),
                    row@ == self@[i as int]@,
                    data@ == flat2(rows2(self@).take(i as int)) + row@.take(j as int),
                decreases row@.len() - j,
            {
                data.push(row[j]);
                assert(data@ =~= flat2(rows2(self@).take(i as int)) + row@.take(j + 1));
                j = j + 1;
            }
            proof {
                let r = rows2(self@);
                assert(r.take(i + 1).drop_last() =~= r.take(i as int));
                assert(r.take(i + 1).last() == row@);
                assert(data@ =~= flat2(r.take(i + 1)));
            }
            i = i + 1;
        }
        assert(rows2(self@).take(self@.len() as int) =~= rows2(self@));
        QArray { shape, data }
    }
}

impl ToQArray for Vec<Vec<Vec<isize>>> {
    open spec fn to_shape(&self) -> Seq<usize> {
        seq![
            self@.len() as usize,
            first_len3(rows3(self@)),
            if self@.len() == 0 {
                0usize
            } else {
                first_len2(rows2(self@[0]@))
            },
        ]
    }

    open spec fn to_flat(&self) -> Seq<isize> {
        flat3(rows3(self@))
    }

    fn to_qarray(&self) -> (r: QArray) {
        let l1: usize = self.len();
        let mut l2: usize = 0;
        let mut l3: usize = 0;
        if self.len() > 0 {
            let first = &self[0];
            l2 = first.len();
            if first.len() > 0 {
                l3 = first[0].len();
            }
        }
        let mut shape: Vec<usize> = Vec::new();
        shape.push(l1);
        shape.push(l2);
        shape.push(l3);
        assert(shape@ =~= self.to_shape());
        let mut data: Vec<isize> = Vec::new();
        let mut i: usize = 0;
        while i < self.len()
            invariant
                i <= self@.len(),
                data@ == flat3(rows3(self@).take(i as int)),
            decreases self@.len() - i,
        {
            let plane = &self[i];
            let mut j: usize = 0;
            while j < plane.len()
                invariant
                    i < self@.len(),
                    j <= plane@.len(),
                    plane@ == self@[i as int]@,
                    data@ == flat3(rows3(self@).take(i as int)) + flat2(
                        rows2(plane@).take(j as int),
                    ),
                decreases plane@.len() - j,
            {
                let row = &plane[j];
                let mut k: usize = 0;
                while k < row.len()
                    invariant
                        i < self@.len(),
                        j < plane@.len(),
                        plane@ == self@[i as int]@,
                        row@ == plane@[j as int]@,
                        k <= row@.len(),
                        data@ == flat3(rows3(self@).take(i as int)) + flat2(
                            rows2(plane@).take(j as int),
                        ) + row@.take(k as int),
                    decreases row@.len() - k,
                {
                    data.push(row[k]);
                    assert(data@ =~= flat3(rows3(self@).take(i as int)) + flat2(
                        rows2(plane@).take(j as int),
                    ) + row@.take(k + 1));
                    k = k + 1;
                }
                proof {
                    let r = rows2(plane@);
                    assert(r.take(j + 1).drop_last() =~= r.take(j as int));
                    assert(r.take(j + 1).last() == row@);
                    assert(data@ =~= flat3(rows3(self@).take(i as int)) + flat2(r.take(j + 1)));
                }
                j = j + 1;
            }
            proof {
                let r = rows3(self@);
                assert(r.take(i + 1).drop_last() =~= r.take(i as int));
                assert(r.take(i + 1).last() =~= rows2(plane@));
                assert(rows2(plane@).take(plane@.len() as int) =~= rows2(plane@));
                assert(data@ =~= flat3(r.take(i + 1)));
            }
            i = i + 1;
        }
        assert(rows3(self@).take(self@.len() as int) =~= rows3(self@));
        QArray { shape, data }
    }
}

/// All rows have length `l2`.
pub open spec fn rect2(v: Seq<Seq<isize>>, l2: int) -> bool {
    forall|i: int| 0 <= i < v.len() ==> v[i].len() == l2
}

/// All planes have `l2` rows and every row has length `l3`.
pub open spec fn rect3(v: Seq<Seq<Seq<isize>>>, l2: int, l3: int) -> bool {
    &&& forall|i: int| 0 <= i < v.len() ==> v[i].len() == l2
    &&& forall|i: int, j: int| 0 <= i < v.len() && 0 <= j < v[i].len() ==> v[i][j].len() == l3
}

pub proof fn lemma_flat2_len(v: Seq<Seq<isize>>, l2: int)
    requires
        rect2(v, l2),
    ensures
        flat2(v).len() == v.len() * l2,
    decreases v.len(),
{
    if v.len() == 0 {
        assert(flat2(v).len() == 0);
    } else {
        let d = v.drop_last();
        lemma_flat2_len(d, l2);
        let m = d.len() as int;
        assert((m + 1) * l2 == m * l2 + l2) by (nonlinear_arith);
    }
}

/// Where a flattened element lands: row `i`, column `j` of a rectangular
/// nest sits at flat position `i * l2 + j`.
pub proof fn lemma_flat2_index(v: Seq<Seq<isize>>, l2: int, i: int, j: int)
    requires
        rect2(v, l2),
        0 <= i < v.len(),
        0 <= j < l2,
    ensures
        flat2(v)[i * l2 + j] == v[i][j],
    decreases v.len(),
{
    let d = v.drop_last();
    let m = d.len() as int;
    lemma_flat2_len(d, l2);
    assert((m + 1) * l2 == m * l2 + l2) by (nonlinear_arith);
    if i == m {
        assert(i * l2 + j - m * l2 == j);
    } else {
        assert(i * l2 + j < m * l2) by (nonlinear_arith)
            requires
                0 <= i < m,
                0 <= j < l2,
        ;
        lemma_flat2_index(d, l2, i, j);
    }
}

pub proof fn lemma_flat3_len(v: Seq<Seq<Seq<isize>>>, l2: int, l3: int)
    requires
        rect3(v, l2, l3),
    ensures
        flat3(v).len() == v.len() * (l2 * l3),
    decreases v.len(),
{
    if v.len() == 0 {
        assert(flat3(v).len() == 0);
    } else {
        let d = v.drop_last();
        let m = d.len() as int;
        lemma_flat3_len(d, l2, l3);
        lemma_flat2_len(v.last(), l3);
        assert(v.last().len() * l3 == l2 * l3);
        assert((m + 1) * (l2 * l3) == m * (l2 * l3) + l2 * l3) by (nonlinear_arith);
    }
}

/// Where a flattened element lands: position `(i, j, k)` of a
/// rectangular two-level nest sits at flat position
/// `i * (l2 * l3) + j * l3 + k`.
pub proof fn lemma_flat3_index(v: Seq<Seq<Seq<isize>>>, l2: int, l3: int, i: int, j: int, k: int)
    requires
        rect3(v, l2, l3),
        0 <= i < v.len(),
        0 <= j < l2,
        0 <= k < l3,
    ensures
        flat3(v)[i * (l2 * l3) + j * l3 + k] == v[i][j][k],
    decreases v.len(),
{
    let d = v.drop_last();
    let m = d.len() as int;
    assert(flat3(v) == flat3(d) + flat2(v.last()));
    lemma_flat3_len(d, l2, l3);
    assert((m + 1) * (l2 * l3) == m * (l2 * l3) + l2 * l3) by (nonlinear_arith);
    if i == m {
        assert(rect2(v.last(), l3 as int));
        lemma_flat2_index(v.last(), l3, j, k);
        lemma_flat2_len(v.last(), l3);
        assert(0 <= j * l3 + k < l2 * l3) by (nonlinear_arith)
            requires
                0 <= j < l2,
                0 <= k < l3,
        ;
        assert(i * (l2 * l3) + j * l3 + k - m * (l2 * l3) == j * l3 + k);
    } else {
        assert(rect3(d, l2, l3));
        assert(i * (l2 * l3) + j * l3 + k < m * (l2 * l3)) by (nonlinear_arith)
            requires
                0 <= i < m,
                0 <= j < l2,
                0 <= k < l3,
        ;
        assert(0 <= i * (l2 * l3) + j * l3 + k) by (nonlinear_arith)
            requires
                0 <= i,
                0 <= j,
                0 <= k,
                0 < l2,
                0 < l3,
        ;
        lemma_flat3_index(d, l2, l3, i, j, k);
    }
}

/// A one-level conversion is well formed: the buffer holds one element
/// per point of the inferred shape.
pub proof fn lemma_converted_1d_wf(a: QArray, v: Seq<isize>)
    requires
        v.len() <= usize::MAX,
        a.shape@ == seq![v.len() as usize],
        a.data@ == v,
    ensures
        a.wf(),
{
    let s = a.shape@;
    assert(prefix_product(s, 1) == prefix_product(s, 0) * s[0]);
}

/// A two-level conversion of rectangular input is well formed.
pub proof fn lemma_converted_2d_wf(a: QArray, v: Seq<Seq<isize>>, l2: usize)
    requires
        v.len() <= usize::MAX,
        rect2(v, l2 as int),
        a.shape@ == seq![v.len() as usize, l2],
        a.data@ == flat2(v),
    ensures
        a.wf(),
{
    let s = a.shape@;
    assert(prefix_product(s, 1) == prefix_product(s, 0) * s[0]);
    assert(prefix_product(s, 2) == prefix_product(s, 1) * s[1]);
    lemma_flat2_len(v, l2 as int);
}

/// A three-level conversion of rectangular input is well formed.
pub proof fn lemma_converted_3d_wf(a: QArray, v: Seq<Seq<Seq<isize>>>, l2: usize, l3: usize)
    requires
        v.len() <= usize::MAX,
        rect3(v, l2 as int, l3 as int),
        a.shape@ == seq![v.len() as usize, l2, l3],
        a.data@ == flat3(v),
    ensures
        a.wf(),
{
    let s = a.shape@;
    let l1 = v.len() as int;
    assert(prefix_product(s, 1) == prefix_product(s, 0) * s[0]);
    assert(prefix_product(s, 2) == prefix_product(s, 1) * s[1]);
    assert(prefix_product(s, 3) == prefix_product(s, 2) * s[2]);
    lemma_flat3_len(v, l2 as int, l3 as int);
    assert(l1 * l2 * l3 == l1 * (l2 * l3)) by (nonlinear_arith);
}

/// Law: a one-level vector round-trips. Indexing the conversion at `[i]`
/// returns the element at position `i` of the input.
pub proof fn lemma_round_trip_1d(a: QArray, v: Seq<isize>, i: usize)
    requires
        v.len() <= usize::MAX,
        a.shape@ == seq![v.len() as usize],
        a.data@ == v,
        i < v.len(),
    ensures
        a.index_spec(seq![i]) == Some(v[i as int]),
{
    let s = a.shape@;
    let c = seq![i];
    assert(valid_coords(s, c));
    assert(offset_upto(s, c, 1) == offset_upto(s, c, 0) + c[0] * prefix_product(s, 0));
    assert(offset_of(s, c) == i);
}

/// Law: a two-level rectangular vector round-trips at the coordinates
/// where the flattening position `i * l2 + j` coincides with the offset
/// `i + j * l1`. The conversion lays rows out one after another, while
/// `index` reads the buffer with the first axis fastest, so the two
/// agree exactly there: everywhere when either extent is 1, and on the
/// diagonal of any square input.
pub proof fn lemma_round_trip_2d(a: QArray, v: Seq<Seq<isize>>, l2: usize, i: usize, j: usize)
    requires
        v.len() <= usize::MAX,
        rect2(v, l2 as int),
        a.shape@ == seq![v.len() as usize, l2],
        a.data@ == flat2(v),
        i < v.len(),
        j < l2,
        i + j * v.len() == i * l2 + j,
    ensures
        a.index_spec(seq![i, j]) == Some(v[i as int][j as int]),
{
    let s = a.shape@;
    let c = seq![i, j];
    let l1 = v.len() as int;
    assert(valid_coords(s, c));
    assert(prefix_product(s, 1) == prefix_product(s, 0) * s[0]);
    assert(offset_upto(s, c, 1) == offset_upto(s, c, 0) + c[0] * prefix_product(s, 0));
    assert(offset_upto(s, c, 2) == offset_upto(s, c, 1) + c[1] * prefix_product(s, 1));
    assert(offset_of(s, c) == i + j * l1);
    lemma_flat2_index(v, l2 as int, i as int, j as int);
}

/// Law: a three-level rectangular vector round-trips at the coordinates
/// where the flattening position `i * (l2 * l3) + j * l3 + k` coincides
/// with the offset `i + j * l1 + k * (l1 * l2)`.
pub proof fn lemma_round_trip_3d(
    a: QArray,
    v: Seq<Seq<Seq<isize>>>,
    l2: usize,
    l3: usize,
    i: usize,
    j: usize,
    k: usize,
)
    requires
        v.len() <= usize::MAX,
        rect3(v, l2 as int, l3 as int),
        a.shape@ == seq![v.len() as usize, l2, l3],
        a.data@ == flat3(v),
        i < v.len(),
        j < l2,
        k < l3,
        i + j * v.len() + k * (v.len() * l2) == i * (l2 * l3) + j * l3 + k,
    ensures
        a.index_spec(seq![i, j, k]) == Some(v[i as int][j as int][k as int]),
{
    let s = a.shape@;
    let c = seq![i, j, k];
    let l1 = v.len() as int;
    assert(valid_coords(s, c));
    assert(prefix_product(s, 1) == prefix_product(s, 0) * s[0]);
    assert(prefix_product(s, 2) == prefix_product(s, 1) * s[1]);
    assert(offset_upto(s, c, 1) == offset_upto(s, c, 0) + c[0] * prefix_product(s, 0));
    assert(offset_upto(s, c, 2) == offset_upto(s, c, 1) + c[1] * prefix_product(s, 1));
    assert(offset_upto(s, c, 3) == offset_upto(s, c, 2) + c[2] * prefix_product(s, 2));
    assert(offset_of(s, c) == i + j * l1 + k * (l1 * l2));
    lemma_flat3_index(v, l2 as int, l3 as int, i as int, j as int, k as int);
}

} // verus!
