//! Linear (fully-connected) layer.
//!
//! Convention matches PyTorch: weights are stored as `[out_features, in_features]`,
//! so the operation is `y = x @ W^T + b`.

use vstd::prelude::*;
use core::ops::{Add, Mul};
use crate::num::{can_add, can_multiply};
use crate::ops::elementwise::{add_bias, biased};
use crate::ops::matmul::{matmul_t_b, product_t_gives};
use crate::tensor::{Tensor, product};

verus! {

/// `out` is `y` plus the bias, if there is one.
pub open spec fn with_bias<T: Add<Output = T>>(
    out: Seq<T>,
    y: Seq<T>,
    bias: Option<&Tensor<T>>,
) -> bool {
    match bias {
        Some(b) => biased(out, y, b.elems()),
        None => out == y,
    }
}

/// `x @ W^T + b`, where `x` has `m` rows, may come out as `out`.
pub open spec fn linear_gives<T: Default + Add<Output = T> + Mul<Output = T>>(
    x: Seq<T>,
    m: int,
    weight: &Tensor<T>,
    bias: Option<&Tensor<T>>,
    out: Seq<T>,
) -> bool {
    exists|y: Seq<T>|
        product_t_gives(
            x,
            weight.elems(),
            m,
            weight.dims()[1] as int,
            weight.dims()[0] as int,
            y,
        ) && #[trigger] with_bias(out, y, bias)
}

/// A bias for `n` columns, if there is one.
pub open spec fn bias_fits<T>(bias: Option<&Tensor<T>>, n: usize) -> bool {
    bias matches Some(b) ==> b.wf() && b.dims() == seq![n] && n > 0
}

/// Applies a linear transformation: `y = x @ W^T + b`.
///
/// - `x`: shape `[m, in_features]`
/// - `weight`: shape `[out_features, in_features]` (PyTorch layout)
/// - `bias`: optional, shape `[out_features]`
/// - returned tensor shape: `[m, out_features]`
pub fn linear<T: Copy + Default + Add<Output = T> + Mul<Output = T>>(
    x: &Tensor<T>,
    weight: &Tensor<T>,
    bias: Option<&Tensor<T>>,
) -> (res: Tensor<T>)
    requires
        x.wf(),
        weight.wf(),
        x.dims().len() == 2,
        weight.dims().len() == 2,
        x.dims()[1] == weight.dims()[1],
        x.dims()[0] * weight.dims()[0] <= usize::MAX,
        bias_fits(bias, weight.dims()[0]),
        can_add::<T>(),
        can_multiply::<T>(),
    ensures
        res.wf(),
        res.dims() == seq![x.dims()[0], weight.dims()[0]],
        linear_gives(x.elems(), x.dims()[0] as int, weight, bias, res.elems()),
{
    let y = matmul_t_b(x, weight);
    let ghost product = y.elems();
    match bias {
        Some(b) => {
            let res = add_bias(&y, b);
            assert(with_bias(res.elems(), product, bias));
            res
        },
        None => {
            assert(with_bias(y.elems(), product, bias));
            y
        },
    }
}

} // verus!
