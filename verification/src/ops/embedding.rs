//! Embedding lookup: index a weight matrix by token ids.

use vstd::prelude::*;
use vstd::slice::slice_subrange;
use crate::num::{cell, lemma_row_bounds};
use crate::ops::matmul::{append_row, lemma_rows_after_append};
use crate::tensor::{Tensor, lemma_product_2};

verus! {

/// Row number `i` of `out` is the row of `weight` with number `ids[i]`.
pub open spec fn rows_picked<T>(out: Seq<T>, weight: Seq<T>, dim: int, ids: Seq<u32>) -> bool {
    &&& out.len() == ids.len() * dim
    &&& forall|i: int, j: int|
        0 <= i < ids.len() && 0 <= j < dim ==> #[trigger] cell(out, dim, i, j) == cell(
            weight,
            dim,
            ids[i] as int,
            j,
        )
}

/// Looks up rows of the `weight` matrix for each id in `ids`.
///
/// - `ids`: flat slice of token indices.
/// - `weight`: shape `[vocab_size, embed_dim]`.
/// - returned tensor shape: `[ids.len(), embed_dim]`.
pub fn embedding<T: Copy>(ids: &[u32], weight: &Tensor<T>) -> (res: Tensor<T>)
    requires
        weight.wf(),
        weight.dims().len() == 2,
        weight.dims()[1] > 0,
        forall|i: int| 0 <= i < ids@.len() ==> #[trigger] ids@[i] < weight.dims()[0],
        ids@.len() * weight.dims()[1] <= usize::MAX,
    ensures
        res.wf(),
        res.dims() == seq![ids@.len() as usize, weight.dims()[1]],
        rows_picked(res.elems(), weight.elems(), weight.dims()[1] as int, ids@),
{
    proof {
        lemma_product_2(weight.dims());
    }
    let shape = *weight.shape();
    let vocab_size: usize = shape.as_slice()[0];
    let dim: usize = shape.as_slice()[1];
    let data = weight.data();
    let _len: usize = data.len();
    let n: usize = ids.len();
    let mut out: Vec<T> = Vec::new();
    let mut i: usize = 0;
    while i < n
        invariant
            i <= n,
            n == ids@.len(),
            data@.len() == vocab_size * dim,
            vocab_size * dim <= usize::MAX,
            forall|k: int| 0 <= k < n ==> #[trigger] ids@[k] < vocab_size,
            rows_picked(out@, data@, dim as int, ids@.take(i as int)),
        decreases n - i,
    {
        let id: usize = ids[i] as usize;
        proof {
            assert(ids@[i as int] < vocab_size);
            lemma_row_bounds(id as int, vocab_size as int, dim as int);
        }
        let row = slice_subrange(data, id * dim, (id + 1) * dim);
        let ghost before = out@;
        proof {
            lemma_rows_after_append(out@, row@, i as int, dim as int);
        }
        append_row(&mut out, row);
        proof {
            let shown = ids@.take(i + 1);
            assert forall|r: int, j: int| 0 <= r < i + 1 && 0 <= j < dim implies #[trigger] cell(
                out@,
                dim as int,
                r,
                j,
            ) == cell(data@, dim as int, shown[r] as int, j) by {
                if r < i {
                    assert(cell(before, dim as int, r, j) == cell(out@, dim as int, r, j));
                    assert(shown[r] == ids@.take(i as int)[r]);
                } else {
                    assert(row@[j] == cell(data@, dim as int, id as int, j));
                }
            }
        }
        i = i + 1;
    }
    proof {
        assert(ids@.take(n as int) =~= ids@);
        lemma_product_2(seq![n, dim]);
    }
    Tensor::from_vec(out, &[n, dim])
}

} // verus!
