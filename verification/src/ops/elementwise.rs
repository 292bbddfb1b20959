//! Elementwise tensor operations.
//!
//! All operations support tensors of identical shape. A single broadcast
//! pattern is supported: adding a 1D `[n]` tensor against the last dimension of
//! a `[.., n]` tensor, which covers transformer biases.

use vstd::prelude::*;
use core::ops::{Add, Mul, Sub};
use crate::num::{
    adds_to, can_add, can_multiply, can_subtract, minus, multiplies_to, plus, subtracts_to, times,
};
use crate::tensor::{Tensor, lemma_product_1};

verus! {

/// Returns `a + b` for tensors of identical shape.
pub fn add<T: Copy + Add<Output = T>>(a: &Tensor<T>, b: &Tensor<T>) -> (res: Tensor<T>)
    requires
        a.wf(),
        b.wf(),
        a.dims() == b.dims(),
        can_add::<T>(),
    ensures
        res.wf(),
        res.dims() == a.dims(),
        forall|i: int|
            0 <= i < res.elems().len() ==> adds_to(
                a.elems()[i],
                b.elems()[i],
                #[trigger] res.elems()[i],
            ),
{
    let x = a.data();
    let y = b.data();
    let n: usize = x.len();
    let mut out: Vec<T> = Vec::new();
    let mut i: usize = 0;
    while i < n
        invariant
            i <= n,
            n == x@.len(),
            n == y@.len(),
            can_add::<T>(),
            out@.len() == i,
            forall|k: int| 0 <= k < i ==> adds_to(x@[k], y@[k], #[trigger] out@[k]),
        decreases n - i,
    {
        out.push(plus(x[i], y[i]));
        i = i + 1;
    }
    Tensor::from_vec(out, a.shape().as_slice())
}

/// Returns `a - b` for tensors of identical shape.
pub fn sub<T: Copy + Sub<Output = T>>(a: &Tensor<T>, b: &Tensor<T>) -> (res: Tensor<T>)
    requires
        a.wf(),
        b.wf(),
        a.dims() == b.dims(),
        can_subtract::<T>(),
    ensures
        res.wf(),
        res.dims() == a.dims(),
        forall|i: int|
            0 <= i < res.elems().len() ==> subtracts_to(
                a.elems()[i],
                b.elems()[i],
                #[trigger] res.elems()[i],
            ),
{
    let x = a.data();
    let y = b.data();
    let n: usize = x.len();
    let mut out: Vec<T> = Vec::new();
    let mut i: usize = 0;
    while i < n
        invariant
            i <= n,
            n == x@.len(),
            n == y@.len(),
            can_subtract::<T>(),
            out@.len() == i,
            forall|k: int| 0 <= k < i ==> subtracts_to(x@[k], y@[k], #[trigger] out@[k]),
        decreases n - i,
    {
        out.push(minus(x[i], y[i]));
        i = i + 1;
    }
    Tensor::from_vec(out, a.shape().as_slice())
}

/// Returns elementwise `a * b` for tensors of identical shape.
pub fn mul<T: Copy + Mul<Output = T>>(a: &Tensor<T>, b: &Tensor<T>) -> (res: Tensor<T>)
    requires
        a.wf(),
        b.wf(),
        a.dims() == b.dims(),
        can_multiply::<T>(),
    ensures
        res.wf(),
        res.dims() == a.dims(),
        forall|i: int|
            0 <= i < res.elems().len() ==> multiplies_to(
                a.elems()[i],
                b.elems()[i],
                #[trigger] res.elems()[i],
            ),
{
    let x = a.data();
    let y = b.data();
    let n: usize = x.len();
    let mut out: Vec<T> = Vec::new();
    let mut i: usize = 0;
    while i < n
        invariant
            i <= n,
            n == x@.len(),
            n == y@.len(),
            can_multiply::<T>(),
            out@.len() == i,
            forall|k: int| 0 <= k < i ==> multiplies_to(x@[k], y@[k], #[trigger] out@[k]),
        decreases n - i,
    {
        out.push(times(x[i], y[i]));
        i = i + 1;
    }
    Tensor::from_vec(out, a.shape().as_slice())
}

/// Returns `a * scalar`.
pub fn scale<T: Copy + Mul<Output = T>>(a: &Tensor<T>, scalar: T) -> (res: Tensor<T>)
    requires
        a.wf(),
        can_multiply::<T>(),
    ensures
        res.wf(),
        res.dims() == a.dims(),
        forall|i: int|
            0 <= i < res.elems().len() ==> multiplies_to(
                a.elems()[i],
                scalar,
                #[trigger] res.elems()[i],
            ),
{
    let x = a.data();
    let n: usize = x.len();
    let mut out: Vec<T> = Vec::new();
    let mut i: usize = 0;
    while i < n
        invariant
            i <= n,
            n == x@.len(),
            can_multiply::<T>(),
            out@.len() == i,
            forall|k: int| 0 <= k < i ==> multiplies_to(x@[k], scalar, #[trigger] out@[k]),
        decreases n - i,
    {
        out.push(times(x[i], scalar));
        i = i + 1;
    }
    Tensor::from_vec(out, a.shape().as_slice())
}

/// Applies `f` to every element.
pub fn map<T: Copy, F: Fn(T) -> T>(a: &Tensor<T>, f: &F) -> (res: Tensor<T>)
    requires
        a.wf(),
        forall|v: T| #[trigger] call_requires(*f, (v,)),
    ensures
        res.wf(),
        res.dims() == a.dims(),
        forall|i: int|
            0 <= i < res.elems().len() ==> call_ensures(
                *f,
                (a.elems()[i],),
                #[trigger] res.elems()[i],
            ),
{
    let x = a.data();
    let n: usize = x.len();
    let mut out: Vec<T> = Vec::new();
    let mut i: usize = 0;
    while i < n
        invariant
            i <= n,
            n == x@.len(),
            forall|v: T| #[trigger] call_requires(*f, (v,)),
            out@.len() == i,
            forall|k: int| 0 <= k < i ==> call_ensures(*f, (x@[k],), #[trigger] out@[k]),
        decreases n - i,
    {
        out.push(f(x[i]));
        i = i + 1;
    }
    Tensor::from_vec(out, a.shape().as_slice())
}

/// Each element of `out` is the element of `x` there plus the bias of its
/// column.
pub open spec fn biased<T: Add<Output = T>>(out: Seq<T>, x: Seq<T>, bias: Seq<T>) -> bool {
    &&& out.len() == x.len()
    &&& forall|i: int|
        0 <= i < out.len() ==> adds_to(
            x[i],
            bias[i % bias.len() as int],
            #[trigger] out[i],
        )
}

/// Adds a 1D bias `[n]` to the last dimension of `x: [.., n]`.
///
/// This is the only broadcast pattern supported: it covers the bias term in
/// `Linear` layers and the gamma/beta channels in normalization.
pub fn add_bias<T: Copy + Add<Output = T>>(x: &Tensor<T>, bias: &Tensor<T>) -> (res: Tensor<T>)
    requires
        x.wf(),
        bias.wf(),
        x.dims().len() > 0,
        bias.dims() == seq![x.dims().last()],
        x.dims().last() > 0,
        can_add::<T>(),
    ensures
        res.wf(),
        res.dims() == x.dims(),
        biased(res.elems(), x.elems(), bias.elems()),
{
    proof {
        lemma_product_1(bias.dims());
    }
    let data = x.data();
    let bias_data = bias.data();
    let n: usize = data.len();
    let width: usize = bias_data.len();
    let mut out: Vec<T> = Vec::new();
    let mut i: usize = 0;
    while i < n
        invariant
            i <= n,
            n == data@.len(),
            width == bias_data@.len(),
            width > 0,
            can_add::<T>(),
            out@.len() == i,
            forall|k: int|
                0 <= k < i ==> adds_to(data@[k], bias_data@[k % width as int], #[trigger] out@[k]),
        decreases n - i,
    {
        out.push(plus(data[i], bias_data[i % width]));
        i = i + 1;
    }
    Tensor::from_vec(out, x.shape().as_slice())
}

} // verus!
