//! Builders: arrays filled with zero or an arbitrary value, and the
//! identity matrix, together with the laws that connect each builder's
//! output to `index`.

use vstd::prelude::*;
use vstd::pervasive::VecAdditionalExecFns;

use crate::array::QArray;
use crate::layout::{
    lemma_offset_in_bounds, offset, offset_of, offset_upto, prefix_product, size_of, sizes_fit,
    valid_coords,
};

verus! {

/// `a` has shape `s` and every one of its `size_of(s)` elements equals
/// `v`.
pub open spec fn is_full(a: QArray, s: Seq<usize>, v: isize) -> bool {
    &&& a.shape@ == s
    &&& a.data@.len() == size_of(s)
    &&& forall|k: int| 0 <= k < a.data@.len() ==> a.data@[k] == v
}

/// New array of the given shape with every element equal to
/// `fill_value`.
pub fn full(shape: Vec<usize>, fill_value: isize) -> (r: QArray)
    requires
        sizes_fit(shape@),
    ensures
        is_full(r, shape@, fill_value),
        r.wf(),
{
    let mut n: usize = 1;
    let mut i: usize = 0;
    while i < shape.len()
        invariant
            sizes_fit(shape@),
            i <= shape@.len(),
            n == prefix_product(shape@, i as int),
        decreases shape@.len() - i,
    {
        proof {
            assert(prefix_product(shape@, i + 1) == n * shape@[i as int]);
        }
        n = n * shape[i];
        i = i + 1;
    }
    let mut data: Vec<isize> = Vec::new();
    let mut k: usize = 0;
    while k < n
        invariant
            k <= n,
            data@.len() == k,
            forall|j: int| 0 <= j < k ==> data@[j] == fill_value,
        decreases n - k,
    {
        data.push(fill_value);
        k = k + 1;
    }
    QArray { shape, data }
}

/// New array of the given shape with every element zero.
pub fn zeros(shape: Vec<usize>) -> (r: QArray)
    requires
        sizes_fit(shape@),
    ensures
        is_full(r, shape@, 0isize),
        r.wf(),
{
    full(shape, 0)
}

/// Entry of the square array whose first `x` diagonal elements have been
/// set to one: 1 exactly where the coordinates agree and lie below `x`.
pub open spec fn unit_entry(i: int, j: int, x: int) -> isize {
    if i == j && i < x {
        1isize
    } else {
        0isize
    }
}

/// `a` is the identity matrix of order `n`: square, ones on the
/// diagonal, zeroes elsewhere. Element `(i, j)` sits at flat position
/// `i + j * n`, the first axis varying fastest.
pub open spec fn is_identity(a: QArray, n: usize) -> bool {
    &&& a.shape@ == seq![n, n]
    &&& a.data@.len() == n * n
    &&& forall|i: int, j: int|
        0 <= i < n && 0 <= j < n ==> a.data@[i + j * n] == #[trigger] unit_entry(i, j, n as int)
}

proof fn lemma_pair_shape(n: usize)
    ensures
        prefix_product(seq![n, n], 0) == 1,
        prefix_product(seq![n, n], 1) == n,
        prefix_product(seq![n, n], 2) == n * n,
        size_of(seq![n, n]) == n * n,
        n * n <= usize::MAX ==> sizes_fit(seq![n, n]),
{
    let s = seq![n, n];
    assert(prefix_product(s, 0) == 1);
    assert(prefix_product(s, 1) == prefix_product(s, 0) * s[0]);
    assert(prefix_product(s, 2) == prefix_product(s, 1) * s[1]);
    assert(s.len() == 2);
    if n * n <= usize::MAX {
        assert forall|k: int| 0 <= k <= s.len() implies prefix_product(s, k) <= usize::MAX by {
            if k == 0 {
                assert(prefix_product(s, 0) == 1);
            } else if k == 1 {
                assert(prefix_product(s, 1) == n);
            } else {
                assert(prefix_product(s, 2) == n * n);
            }
        }
    }
}

/// Offset of the diagonal coordinates `[x, x]` in an `n` by `n` shape.
proof fn lemma_diag_offset(n: usize, x: usize)
    ensures
        offset_of(seq![n, n], seq![x, x]) == x + x * n,
{
    let s = seq![n, n];
    let c = seq![x, x];
    lemma_pair_shape(n);
    assert(offset_upto(s, c, 1) == offset_upto(s, c, 0) + c[0] * prefix_product(s, 0));
    assert(offset_upto(s, c, 2) == offset_upto(s, c, 1) + c[1] * prefix_product(s, 1));
}

/// Every grid point of an `n` by `n` shape sits inside its buffer.
proof fn lemma_grid_position_in_bounds(i: int, j: int, n: int)
    requires
        0 <= i < n,
        0 <= j < n,
    ensures
        0 <= i + j * n < n * n,
{
    assert(0 <= i + j * n < n * n) by (nonlinear_arith)
        requires
            0 <= i < n,
            0 <= j < n,
    ;
}

/// Only the diagonal point `(x, x)` sits at flat position `x + x * n`.
proof fn lemma_diag_position_unique(i: int, j: int, x: int, n: int)
    requires
        0 <= i < n,
        0 <= j < n,
        0 <= x < n,
        i + j * n == x + x * n,
    ensures
        i == x,
        j == x,
{
    assert(i == x && j == x) by (nonlinear_arith)
        requires
            0 <= i < n,
            0 <= j < n,
            0 <= x < n,
            i + j * n == x + x * n,
    ;
}

/// New square array of order `num_rows`, zero-filled, with the diagonal
/// set to one through the same offset formula that `index` uses.
pub fn identity(num_rows: usize) -> (r: QArray)
    requires
        num_rows * num_rows <= usize::MAX,
    ensures
        is_identity(r, num_rows),
        r.wf(),
{
    proof {
        lemma_pair_shape(num_rows);
    }
    let mut square: Vec<usize> = Vec::new();
    square.push(num_rows);
    square.push(num_rows);
    assert(square@ =~= seq![num_rows, num_rows]);
    let QArray { shape, mut data } = zeros(square);
    proof {
        assert forall|i: int, j: int|
            0 <= i < num_rows && 0 <= j < num_rows implies data@[i + j * num_rows]
            == #[trigger] unit_entry(i, j, 0) by {
            lemma_grid_position_in_bounds(i, j, num_rows as int);
        }
    }
    let mut x: usize = 0;
    while x < num_rows
        invariant
            shape@ == seq![num_rows, num_rows],
            data@.len() == num_rows * num_rows,
            num_rows * num_rows <= usize::MAX,
            x <= num_rows,
            forall|i: int, j: int|
                0 <= i < num_rows && 0 <= j < num_rows ==> data@[i + j * num_rows]
                    == #[trigger] unit_entry(i, j, x as int),
        decreases num_rows - x,
    {
        let mut diag: Vec<usize> = Vec::new();
        diag.push(x);
        diag.push(x);
        assert(diag@ =~= seq![x, x]);
        proof {
            lemma_pair_shape(num_rows);
            lemma_diag_offset(num_rows, x);
        }
        let off = offset(shape.as_slice(), diag.as_slice());
        let ghost before = data@;
        data.set(off, 1);
        proof {
            assert forall|i: int, j: int|
                0 <= i < num_rows && 0 <= j < num_rows implies data@[i + j * num_rows]
                == #[trigger] unit_entry(i, j, x + 1) by {
                lemma_grid_position_in_bounds(i, j, num_rows as int);
                assert(before[i + j * num_rows] == unit_entry(i, j, x as int));
                if i + j * num_rows == off {
                    lemma_diag_position_unique(i, j, x as int, num_rows as int);
                } else {
                    assert(data@[i + j * num_rows] == before[i + j * num_rows]);
                    if i == j && i < x + 1 && !(i < x) {
                        lemma_diag_position_unique(i, j, x as int, num_rows as int);
                    }
                }
            }
        }
        x = x + 1;
    }
    QArray { shape, data }
}

/// Law: every valid lookup in a filled array yields the fill value.
pub proof fn lemma_full_index(a: QArray, s: Seq<usize>, v: isize, c: Seq<usize>)
    requires
        is_full(a, s, v),
        valid_coords(s, c),
    ensures
        a.index_spec(c) == Some(v),
{
    lemma_offset_in_bounds(s, c);
    assert(a.data@[offset_of(s, c)] == v);
}

/// Law: every valid lookup in a zero-filled array yields zero.
pub proof fn lemma_zeros_index(a: QArray, s: Seq<usize>, c: Seq<usize>)
    requires
        is_full(a, s, 0isize),
        valid_coords(s, c),
    ensures
        a.index_spec(c) == Some(0isize),
{
    lemma_full_index(a, s, 0isize, c);
}

/// Law: the identity matrix answers 1 on the diagonal and 0 at every
/// other valid point.
pub proof fn lemma_identity_index(a: QArray, n: usize, i: usize, j: usize)
    requires
        is_identity(a, n),
        i < n,
        j < n,
    ensures
        a.index_spec(seq![i, j]) == Some(if i == j {
            1isize
        } else {
            0isize
        }),
{
    let s = seq![n, n];
    let c = seq![i, j];
    lemma_pair_shape(n);
    assert(valid_coords(s, c));
    assert(offset_upto(s, c, 1) == offset_upto(s, c, 0) + c[0] * prefix_product(s, 0));
    assert(offset_upto(s, c, 2) == offset_upto(s, c, 1) + c[1] * prefix_product(s, 1));
    assert(offset_of(s, c) == i + j * n);
    assert(a.data@[i + j * n] == unit_entry(i as int, j as int, n as int));
}

} // verus!
