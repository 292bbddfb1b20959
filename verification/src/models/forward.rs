//! What the steps of a forward pass are made of.
//!
//! The relations here say what one operation may make of its inputs; a forward
//! pass is stated as a chain of them.

use vstd::prelude::*;
use core::ops::{Add, Mul};
use crate::num::{adds_to, multiplies_to};
use crate::ops::embedding::rows_picked;
use crate::ops::linear::linear_gives;
use crate::tensor::Tensor;

verus! {

/// A vector of `n` elements.
pub open spec fn is_vector<T>(t: Tensor<T>, n: usize) -> bool {
    t.wf() && t.dims() == seq![n]
}

/// A matrix with `m` rows and `n` columns.
pub open spec fn is_matrix<T>(t: Tensor<T>, m: usize, n: usize) -> bool {
    t.wf() && t.dims() == seq![m, n]
}

/// `out` may be the sum of `a` and `b`.
pub open spec fn is_sum<T: Add<Output = T>>(out: Tensor<T>, a: Tensor<T>, b: Tensor<T>) -> bool {
    &&& out.wf()
    &&& out.dims() == a.dims()
    &&& forall|i: int|
        0 <= i < out.elems().len() ==> adds_to(
            a.elems()[i],
            b.elems()[i],
            #[trigger] out.elems()[i],
        )
}

/// `out` may be the elementwise product of `a` and `b`.
pub open spec fn is_elementwise_product<T: Mul<Output = T>>(
    out: Tensor<T>,
    a: Tensor<T>,
    b: Tensor<T>,
) -> bool {
    &&& out.wf()
    &&& out.dims() == a.dims()
    &&& forall|i: int|
        0 <= i < out.elems().len() ==> multiplies_to(
            a.elems()[i],
            b.elems()[i],
            #[trigger] out.elems()[i],
        )
}

/// `out` may be what `f` makes of every element of `x`.
pub open spec fn is_mapped<T, F: Fn(T) -> T>(out: Tensor<T>, x: Tensor<T>, f: F) -> bool {
    &&& out.wf()
    &&& out.dims() == x.dims()
    &&& forall|i: int|
        0 <= i < out.elems().len() ==> call_ensures(f, (x.elems()[i],), #[trigger] out.elems()[i])
}

/// `out` may be `x @ W^T + b`.
pub open spec fn is_linear<T: Default + Add<Output = T> + Mul<Output = T>>(
    out: Tensor<T>,
    x: Tensor<T>,
    weight: Tensor<T>,
    bias: Option<&Tensor<T>>,
) -> bool {
    &&& out.wf()
    &&& out.dims() == seq![x.dims()[0], weight.dims()[0]]
    &&& linear_gives(x.elems(), x.dims()[0] as int, &weight, bias, out.elems())
}

/// The rows of `out` are the rows of `table` that the ids name.
pub open spec fn is_lookup<T>(out: Tensor<T>, ids: Seq<u32>, table: Tensor<T>) -> bool {
    &&& out.wf()
    &&& out.dims() == seq![ids.len() as usize, table.dims()[1]]
    &&& rows_picked(out.elems(), table.elems(), table.dims()[1] as int, ids)
}

/// Every id names a row of a table with `rows` rows.
pub open spec fn ids_below(ids: Seq<u32>, rows: usize) -> bool {
    forall|i: int| 0 <= i < ids.len() ==> #[trigger] ids[i] < rows
}

/// The numbers from zero up.
pub open spec fn positions(n: nat) -> Seq<u32> {
    Seq::new(n, |i: int| i as u32)
}

/// Whether a tensor is a vector of `n` elements.
pub fn check_vector<T>(t: &Tensor<T>, n: usize) -> (res: bool)
    ensures
        res == is_vector(*t, n),
{
    let shape = *t.shape();
    let dims = shape.as_slice();
    let res = t.is_consistent() && dims.len() == 1 && dims[0] == n;
    assert(dims@.len() == 1 ==> dims@ =~= seq![dims@[0]]);
    assert(seq![n][0] == n);
    res
}

/// Whether a tensor is a matrix with `m` rows and `n` columns.
pub fn check_matrix<T>(t: &Tensor<T>, m: usize, n: usize) -> (res: bool)
    ensures
        res == is_matrix(*t, m, n),
{
    let shape = *t.shape();
    let dims = shape.as_slice();
    let res = t.is_consistent() && dims.len() == 2 && dims[0] == m && dims[1] == n;
    assert(dims@.len() == 2 ==> dims@ =~= seq![dims@[0], dims@[1]]);
    assert(seq![m, n][0] == m && seq![m, n][1] == n);
    res
}

/// Whether every id names a row of a table with `rows` rows.
pub fn check_ids(ids: &[u32], rows: usize) -> (res: bool)
    ensures
        res == ids_below(ids@, rows),
{
    let n: usize = ids.len();
    let mut i: usize = 0;
    while i < n
        invariant
            i <= n,
            n == ids@.len(),
            forall|k: int| 0 <= k < i ==> #[trigger] ids@[k] < rows,
        decreases n - i,
    {
        if ids[i] as usize >= rows {
            assert(!(ids@[i as int] < rows));
            return false;
        }
        i = i + 1;
    }
    true
}

/// The numbers from zero up.
pub fn position_ids(n: usize) -> (res: Vec<u32>)
    requires
        n <= u32::MAX,
    ensures
        res@ == positions(n as nat),
{
    let mut out: Vec<u32> = Vec::new();
    let mut i: usize = 0;
    while i < n
        invariant
            i <= n,
            n <= u32::MAX,
            out@ == positions(i as nat),
        decreases n - i,
    {
        out.push(i as u32);
        i = i + 1;
        assert(out@ =~= positions(i as nat));
    }
    out
}

} // verus!
