//! Small weight-only quantized tensor types.
//!
//! These types do not replace [`Tensor`]. They are narrow storage formats for
//! transformer weights, paired with explicit quantized linear ops. Activations
//! stay in full precision, which keeps the runtime simple and avoids a general
//! dtype system. The type `T` of the scales is that of the activations.

pub mod meaning;
pub mod scale;

use vstd::prelude::*;
use vstd::slice::{slice_subrange, slice_to_vec};
use core::ops::Mul;
use crate::error::{Error, Result};
use crate::header::EntryView;
use crate::loader::{Dtype, ModelFile, decoded, entry_named, load_error, rank_fits};
use crate::num::{can_multiply, lemma_row_bounds, lemma_row_of_index, multiplies_to, row_of, times};
use crate::tensor::{Shape, Tensor, lemma_product_2, product};

verus! {

/// One parameter for the whole matrix, or one per row.
pub open spec fn params_fit(len: nat, rows: int) -> bool {
    len == 1 || len == rows
}

/// The parameter that applies to a row.
pub open spec fn param_for_row<P>(params: Seq<P>, row: int) -> P {
    if params.len() == 1 {
        params[0]
    } else {
        params[row]
    }
}

/// A matrix of `len` elements with `params` parameters has the given shape.
pub open spec fn is_quantized_matrix(len: nat, dims: Seq<usize>, params: nat) -> bool {
    &&& dims.len() == 2
    &&& len == product(dims)
    &&& params_fit(params, dims[0] as int)
}

/// The signed byte `q` times `scale` may come out as `out`.
pub open spec fn i8_scales_to<T: From<i8> + Mul<Output = T>>(q: i8, scale: T, out: T) -> bool {
    exists|value: T|
        #[trigger] call_ensures(<T as From<i8>>::from, (q,), value) && multiplies_to(
            value,
            scale,
            out,
        )
}

/// The difference `q` times `scale` may come out as `out`.
pub open spec fn i16_scales_to<T: From<i16> + Mul<Output = T>>(q: i16, scale: T, out: T) -> bool {
    exists|value: T|
        #[trigger] call_ensures(<T as From<i16>>::from, (q,), value) && multiplies_to(
            value,
            scale,
            out,
        )
}

// ---------------------------------------------------------------------------
// Signed 8-bit
// ---------------------------------------------------------------------------

/// Signed 8-bit quantized matrix with per-tensor or per-row scales.
#[derive(Debug)]
pub struct QuantizedTensorI8<T> {
    data: Vec<i8>,
    shape: Shape,
    scales: Vec<T>,
}

impl<T: Copy> Clone for QuantizedTensorI8<T> {
    fn clone(&self) -> (res: Self)
        ensures
            res.values() == self.values(),
            res.dims() == self.dims(),
            res.scale_list() == self.scale_list(),
    {
        proof {
            use_type_invariant(self);
        }
        QuantizedTensorI8 {
            data: slice_to_vec(self.data.as_slice()),
            shape: self.shape,
            scales: slice_to_vec(self.scales.as_slice()),
        }
    }
}

impl<T> QuantizedTensorI8<T> {
    /// The quantized values in row-major order.
    pub closed spec fn values(&self) -> Seq<i8> {
        self.data@
    }

    /// The dimensions.
    pub closed spec fn dims(&self) -> Seq<usize> {
        self.shape@
    }

    /// The scales.
    pub closed spec fn scale_list(&self) -> Seq<T> {
        self.scales@
    }

    #[verifier::type_invariant]
    spec fn inv(&self) -> bool {
        is_quantized_matrix(self.data@.len(), self.shape@, self.scales@.len())
    }

    /// Creates a signed 8-bit quantized tensor from owned data.
    ///
    /// `shape` must be 2D. `scales` must contain either one global scale or
    /// one scale per output row.
    pub fn from_vec(data: Vec<i8>, shape: &[usize], scales: Vec<T>) -> (res: Self)
        requires
            is_quantized_matrix(data@.len(), shape@, scales@.len()),
        ensures
            res.values() == data@,
            res.dims() == shape@,
            res.scale_list() == scales@,
    {
        QuantizedTensorI8 { data, shape: Shape::new(shape), scales }
    }

    /// Raw signed 8-bit quantized values.
    pub fn data(&self) -> (res: &[i8])
        ensures
            res@ == self.values(),
    {
        self.data.as_slice()
    }

    /// Matrix shape. The values are as many as it says, and there is one scale
    /// for the whole matrix or one per row.
    pub fn shape(&self) -> (res: &Shape)
        ensures
            res@ == self.dims(),
            is_quantized_matrix(self.values().len(), self.dims(), self.scale_list().len()),
    {
        proof {
            use_type_invariant(self);
        }
        &self.shape
    }

    /// Per-tensor or per-row scales.
    pub fn scales(&self) -> (res: &[T])
        ensures
            res@ == self.scale_list(),
    {
        self.scales.as_slice()
    }
}

impl<T: Copy> QuantizedTensorI8<T> {
    /// The scale that applies to a row.
    pub(crate) fn scale_for_row(&self, row: usize) -> (res: T)
        requires
            row < self.dims()[0],
        ensures
            res == param_for_row(self.scale_list(), row as int),
    {
        proof {
            use_type_invariant(self);
        }
        if self.scales.len() == 1 {
            self.scales[0]
        } else {
            self.scales[row]
        }
    }
}

impl<T: Copy + From<i8> + Mul<Output = T>> QuantizedTensorI8<T> {
    /// Dequantizes into an owned tensor.
    pub fn dequantize(&self) -> (res: Tensor<T>)
        requires
            can_multiply::<T>(),
            forall|q: i8| #[trigger] call_requires(<T as From<i8>>::from, (q,)),
        ensures
            res.wf(),
            res.dims() == self.dims(),
            forall|i: int|
                0 <= i < res.elems().len() ==> i8_scales_to(
                    self.values()[i],
                    param_for_row(self.scale_list(), i / self.dims()[1] as int),
                    #[trigger] res.elems()[i],
                ),
    {
        proof {
            use_type_invariant(self);
            lemma_product_2(self.shape@);
        }
        let dims = self.shape.as_slice();
        let rows: usize = dims[0];
        let cols: usize = dims[1];
        let mut out: Vec<T> = Vec::new();
        let n: usize = self.data.len();
        let mut i: usize = 0;
        while i < n
            invariant
                i <= n,
                n == self.values().len(),
                self.inv(),
                n == rows * cols,
                rows == self.dims()[0],
                cols == self.dims()[1],
                can_multiply::<T>(),
                forall|q: i8| #[trigger] call_requires(<T as From<i8>>::from, (q,)),
                out@.len() == i,
                forall|k: int|
                    0 <= k < i ==> i8_scales_to(
                        self.values()[k],
                        param_for_row(self.scale_list(), k / cols as int),
                        #[trigger] out@[k],
                    ),
            decreases n - i,
        {
            proof {
                lemma_row_of_index(i as int, rows as int, cols as int);
            }
            let scale = self.scale_for_row(i / cols);
            let value = T::from(self.data[i]);
            let scaled = times(value, scale);
            assert(i8_scales_to(self.values()[i as int], scale, scaled));
            out.push(scaled);
            i = i + 1;
        }
        Tensor::from_vec(out, dims)
    }
}

// ---------------------------------------------------------------------------
// Rows
// ---------------------------------------------------------------------------

/// `f` may give `p` for a row of these elements.
pub open spec fn row_gives<T, P, F: Fn(&[T]) -> P>(f: F, row: Seq<T>, p: P) -> bool {
    exists|x: &[T]| x@ == row && #[trigger] call_ensures(f, (x,), p)
}

/// Each parameter is what `f` may give for its row.
pub open spec fn params_from_rows<T, P, F: Fn(&[T]) -> P>(
    params: Seq<P>,
    elems: Seq<T>,
    rows: int,
    cols: int,
    f: F,
) -> bool {
    &&& params.len() == rows
    &&& forall|r: int|
        0 <= r < rows ==> row_gives(f, row_of(elems, cols, r), #[trigger] params[r])
}

/// Each value is what `quantize` may give for its element and the scale of its
/// row.
pub open spec fn quantized_with_scales<T, Q, G: Fn(T, T) -> Q>(
    values: Seq<Q>,
    elems: Seq<T>,
    scales: Seq<T>,
    cols: int,
    quantize: G,
) -> bool {
    &&& values.len() == elems.len()
    &&& forall|i: int|
        0 <= i < values.len() ==> call_ensures(
            quantize,
            (elems[i], scales[i / cols]),
            #[trigger] values[i],
        )
}

/// What `f` gives for each row of a matrix.
fn per_row<T, P, F: Fn(&[T]) -> P>(elems: &[T], rows: usize, cols: usize, f: &F) -> (res: Vec<P>)
    requires
        elems@.len() == rows * cols,
        forall|x: &[T]| #[trigger] call_requires(*f, (x,)),
    ensures
        params_from_rows(res@, elems@, rows as int, cols as int, *f),
{
    let _n: usize = elems.len();
    let mut out: Vec<P> = Vec::new();
    let mut r: usize = 0;
    while r < rows
        invariant
            r <= rows,
            elems@.len() == rows * cols,
            rows * cols <= usize::MAX,
            forall|x: &[T]| #[trigger] call_requires(*f, (x,)),
            params_from_rows(out@, elems@, r as int, cols as int, *f),
        decreases rows - r,
    {
        proof {
            lemma_row_bounds(r as int, rows as int, cols as int);
        }
        let row = slice_subrange(elems, r * cols, (r + 1) * cols);
        assert(row@ == row_of(elems@, cols as int, r as int));
        let p = f(row);
        assert(call_ensures(*f, (row,), p));
        let ghost before = out@;
        out.push(p);
        proof {
            assert forall|k: int| 0 <= k < r + 1 implies row_gives(
                *f,
                row_of(elems@, cols as int, k),
                #[trigger] out@[k],
            ) by {
                if k < r {
                    assert(out@[k] == before[k]);
                }
            }
        }
        r = r + 1;
    }
    out
}

/// What `quantize` gives for each element and the scale of its row.
fn per_element<T: Copy, Q, G: Fn(T, T) -> Q>(
    elems: &[T],
    scales: &Vec<T>,
    rows: usize,
    cols: usize,
    quantize: &G,
) -> (res: Vec<Q>)
    requires
        elems@.len() == rows * cols,
        scales@.len() == rows,
        forall|a: T, s: T| #[trigger] call_requires(*quantize, (a, s)),
    ensures
        quantized_with_scales(res@, elems@, scales@, cols as int, *quantize),
{
    let n: usize = elems.len();
    let mut out: Vec<Q> = Vec::new();
    let mut i: usize = 0;
    while i < n
        invariant
            i <= n,
            n == elems@.len(),
            n == rows * cols,
            scales@.len() == rows,
            forall|a: T, s: T| #[trigger] call_requires(*quantize, (a, s)),
            out@.len() == i,
            forall|k: int|
                0 <= k < i ==> call_ensures(
                    *quantize,
                    (elems@[k], scales@[k / cols as int]),
                    #[trigger] out@[k],
                ),
        decreases n - i,
    {
        proof {
            lemma_row_of_index(i as int, rows as int, cols as int);
        }
        out.push(quantize(elems[i], scales[i / cols]));
        i = i + 1;
    }
    out
}

impl<T: Copy> QuantizedTensorI8<T> {
    /// Quantizes a matrix row by row into signed 8-bit weights. `scale_of` gives
    /// the scale of a row, `quantize` the value of an element at a scale.
    pub fn quantize_per_row<F: Fn(&[T]) -> T, G: Fn(T, T) -> i8>(
        weight: &Tensor<T>,
        scale_of: &F,
        quantize: &G,
    ) -> (res: Self)
        requires
            weight.wf(),
            weight.dims().len() == 2,
            forall|x: &[T]| #[trigger] call_requires(*scale_of, (x,)),
            forall|a: T, s: T| #[trigger] call_requires(*quantize, (a, s)),
        ensures
            res.dims() == weight.dims(),
            params_from_rows(
                res.scale_list(),
                weight.elems(),
                weight.dims()[0] as int,
                weight.dims()[1] as int,
                *scale_of,
            ),
            quantized_with_scales(
                res.values(),
                weight.elems(),
                res.scale_list(),
                weight.dims()[1] as int,
                *quantize,
            ),
    {
        proof {
            lemma_product_2(weight.dims());
        }
        let shape = *weight.shape();
        let dims = shape.as_slice();
        let rows: usize = dims[0];
        let cols: usize = dims[1];
        let scales = per_row(weight.data(), rows, cols, scale_of);
        let data = per_element(weight.data(), &scales, rows, cols, quantize);
        QuantizedTensorI8 { data, shape, scales }
    }

    /// Loads signed 8-bit values plus scales from a safetensors file. `decode`
    /// turns the bit pattern of a scale into the scale.
    pub fn from_safetensors<F: Fn(u32) -> T>(
        file: &ModelFile<'_>,
        values_name: &str,
        scales_name: &str,
        decode: &F,
    ) -> (res: Result<Self>)
        requires
            forall|word: u32| call_requires(*decode, (word,)),
            rank_fits(file.entries(), scales_name@),
            bytes_and_scales_error(file.entries(), values_name@, scales_name@, Dtype::I8) is None
                ==> quantized_entries_fit(file.entries(), values_name@, scales_name@),
        ensures
            match bytes_and_scales_error(file.entries(), values_name@, scales_name@, Dtype::I8) {
                Some(e) => res == Err::<Self, Error>(e),
                None => res matches Ok(q) && ({
                    let entry = entry_named(file.entries(), values_name@).unwrap();
                    &&& q.dims() == entry.shape
                    &&& q.values() == file.bytes().subrange(
                        entry.data_start,
                        entry.data_end,
                    ).map_values(|b: u8| b as i8)
                    &&& scales_loaded(
                        q.scale_list(),
                        file.entries(),
                        file.bytes(),
                        scales_name@,
                        *decode,
                    )
                }),
            },
    {
        let values = match file.get(values_name) {
            Ok(view) => view,
            Err(e) => {
                return Err(e);
            },
        };
        let scales = match file.load(scales_name, decode) {
            Ok(tensor) => tensor,
            Err(e) => {
                return Err(e);
            },
        };
        let data = match values.as_i8() {
            Ok(data) => data,
            Err(e) => {
                return Err(e);
            },
        };
        let scale_data = slice_to_vec(scales.data());
        assert(product(values.shape@) == values.raw@.len()) by {
            assert(values.consistent());
            assert(product(values.shape@) * 1 == product(values.shape@));
        }
        Ok(Self::from_vec(data, values.shape, scale_data))
    }
}

/// Why 8-bit values of type `dtype` and their scales cannot be loaded, if they
/// cannot.
pub open spec fn bytes_and_scales_error(
    entries: Seq<EntryView>,
    values_name: Seq<char>,
    scales_name: Seq<char>,
    dtype: Dtype,
) -> Option<Error> {
    match entry_named(entries, values_name) {
        None => Some(Error::TensorNotFound),
        Some(values) => match load_error(entries, scales_name) {
            Some(e) => Some(e),
            None => if values.dtype != dtype {
                Some(Error::DtypeMismatch)
            } else {
                None
            },
        },
    }
}

/// The named values form a matrix with one scale or one scale per row.
pub open spec fn quantized_entries_fit(
    entries: Seq<EntryView>,
    values_name: Seq<char>,
    scales_name: Seq<char>,
) -> bool {
    let shape = entry_named(entries, values_name).unwrap().shape;
    &&& shape.len() == 2
    &&& params_fit(product(entry_named(entries, scales_name).unwrap().shape), shape[0] as int)
}

/// The scales are the elements of the named tensor.
pub open spec fn scales_loaded<T, F: Fn(u32) -> T>(
    scales: Seq<T>,
    entries: Seq<EntryView>,
    bytes: Seq<u8>,
    name: Seq<char>,
    decode: F,
) -> bool {
    entry_named(entries, name) matches Some(entry) && decoded(
        scales,
        bytes.subrange(entry.data_start, entry.data_end),
        decode,
    )
}

// ---------------------------------------------------------------------------
// Unsigned affine 8-bit
// ---------------------------------------------------------------------------

/// Unsigned affine 8-bit quantized matrix with per-tensor or per-row params.
#[derive(Debug)]
pub struct QuantizedTensorU8<T> {
    data: Vec<u8>,
    shape: Shape,
    scales: Vec<T>,
    zero_points: Vec<u8>,
}

impl<T: Copy> Clone for QuantizedTensorU8<T> {
    fn clone(&self) -> (res: Self)
        ensures
            res.values() == self.values(),
            res.dims() == self.dims(),
            res.scale_list() == self.scale_list(),
            res.zero_point_list() == self.zero_point_list(),
    {
        proof {
            use_type_invariant(self);
        }
        QuantizedTensorU8 {
            data: slice_to_vec(self.data.as_slice()),
            shape: self.shape,
            scales: slice_to_vec(self.scales.as_slice()),
            zero_points: slice_to_vec(self.zero_points.as_slice()),
        }
    }
}

impl<T> QuantizedTensorU8<T> {
    /// The quantized values in row-major order.
    pub closed spec fn values(&self) -> Seq<u8> {
        self.data@
    }

    /// The dimensions.
    pub closed spec fn dims(&self) -> Seq<usize> {
        self.shape@
    }

    /// The scales.
    pub closed spec fn scale_list(&self) -> Seq<T> {
        self.scales@
    }

    /// The zero points.
    pub closed spec fn zero_point_list(&self) -> Seq<u8> {
        self.zero_points@
    }

    #[verifier::type_invariant]
    spec fn inv(&self) -> bool {
        &&& is_quantized_matrix(self.data@.len(), self.shape@, self.scales@.len())
        &&& params_fit(self.zero_points@.len(), self.shape@[0] as int)
    }

    /// Creates an unsigned affine 8-bit quantized tensor from owned data.
    ///
    /// `shape` must be 2D. `scales` and `zero_points` must contain either one
    /// global parameter or one parameter per output row.
    pub fn from_vec(
        data: Vec<u8>,
        shape: &[usize],
        scales: Vec<T>,
        zero_points: Vec<u8>,
    ) -> (res: Self)
        requires
            is_quantized_matrix(data@.len(), shape@, scales@.len()),
            params_fit(zero_points@.len(), shape@[0] as int),
        ensures
            res.values() == data@,
            res.dims() == shape@,
            res.scale_list() == scales@,
            res.zero_point_list() == zero_points@,
    {
        QuantizedTensorU8 { data, shape: Shape::new(shape), scales, zero_points }
    }

    /// Raw unsigned 8-bit quantized values.
    pub fn data(&self) -> (res: &[u8])
        ensures
            res@ == self.values(),
    {
        self.data.as_slice()
    }

    /// Matrix shape. The values are as many as it says, and there is one scale
    /// and one zero point for the whole matrix or one per row.
    pub fn shape(&self) -> (res: &Shape)
        ensures
            res@ == self.dims(),
            is_quantized_matrix(self.values().len(), self.dims(), self.scale_list().len()),
            params_fit(self.zero_point_list().len(), self.dims()[0] as int),
    {
        proof {
            use_type_invariant(self);
        }
        &self.shape
    }

    /// Per-tensor or per-row scales.
    pub fn scales(&self) -> (res: &[T])
        ensures
            res@ == self.scale_list(),
    {
        self.scales.as_slice()
    }

    /// Per-tensor or per-row zero points.
    pub fn zero_points(&self) -> (res: &[u8])
        ensures
            res@ == self.zero_point_list(),
    {
        self.zero_points.as_slice()
    }

    /// The zero point that applies to a row.
    pub(crate) fn zero_point_for_row(&self, row: usize) -> (res: u8)
        requires
            row < self.dims()[0],
        ensures
            res == param_for_row(self.zero_point_list(), row as int),
    {
        proof {
            use_type_invariant(self);
        }
        if self.zero_points.len() == 1 {
            self.zero_points[0]
        } else {
            self.zero_points[row]
        }
    }
}

impl<T: Copy> QuantizedTensorU8<T> {
    /// The scale that applies to a row.
    pub(crate) fn scale_for_row(&self, row: usize) -> (res: T)
        requires
            row < self.dims()[0],
        ensures
            res == param_for_row(self.scale_list(), row as int),
    {
        proof {
            use_type_invariant(self);
        }
        if self.scales.len() == 1 {
            self.scales[0]
        } else {
            self.scales[row]
        }
    }

    /// Quantizes a matrix row by row into unsigned affine 8-bit weights.
    /// `params_of` gives scale and zero point of a row, `quantize` the value of
    /// an element at a scale and zero point.
    pub fn quantize_per_row<F: Fn(&[T]) -> (T, u8), G: Fn(T, T, u8) -> u8>(
        weight: &Tensor<T>,
        params_of: &F,
        quantize: &G,
    ) -> (res: Self)
        requires
            weight.wf(),
            weight.dims().len() == 2,
            forall|x: &[T]| #[trigger] call_requires(*params_of, (x,)),
            forall|a: T, s: T, z: u8| #[trigger] call_requires(*quantize, (a, s, z)),
        ensures
            res.dims() == weight.dims(),
            res.zero_point_list().len() == res.scale_list().len(),
            params_from_rows(
                Seq::new(
                    res.scale_list().len(),
                    |r: int| (res.scale_list()[r], res.zero_point_list()[r]),
                ),
                weight.elems(),
                weight.dims()[0] as int,
                weight.dims()[1] as int,
                *params_of,
            ),
            quantized_affine(
                res.values(),
                weight.elems(),
                res.scale_list(),
                res.zero_point_list(),
                weight.dims()[1] as int,
                *quantize,
            ),
    {
        proof {
            lemma_product_2(weight.dims());
        }
        let shape = *weight.shape();
        let dims = shape.as_slice();
        let rows: usize = dims[0];
        let cols: usize = dims[1];
        let elems = weight.data();
        let params = per_row(elems, rows, cols, params_of);
        let mut scales: Vec<T> = Vec::new();
        let mut zero_points: Vec<u8> = Vec::new();
        let mut r: usize = 0;
        while r < rows
            invariant
                r <= rows,
                params@.len() == rows,
                scales@.len() == r,
                zero_points@.len() == r,
                forall|k: int|
                    0 <= k < r ==> params@[k] == (#[trigger] scales@[k], zero_points@[k]),
            decreases rows - r,
        {
            let (scale, zero_point) = params[r];
            scales.push(scale);
            zero_points.push(zero_point);
            r = r + 1;
        }
        assert(Seq::new(scales@.len(), |r: int| (scales@[r], zero_points@[r])) =~= params@);
        let n: usize = elems.len();
        let mut data: Vec<u8> = Vec::new();
        let mut i: usize = 0;
        while i < n
            invariant
                i <= n,
                n == elems@.len(),
                n == rows * cols,
                scales@.len() == rows,
                zero_points@.len() == rows,
                forall|a: T, s: T, z: u8| #[trigger] call_requires(*quantize, (a, s, z)),
                data@.len() == i,
                forall|k: int|
                    0 <= k < i ==> call_ensures(
                        *quantize,
                        (elems@[k], scales@[k / cols as int], zero_points@[k / cols as int]),
                        #[trigger] data@[k],
                    ),
            decreases n - i,
        {
            proof {
                lemma_row_of_index(i as int, rows as int, cols as int);
            }
            data.push(quantize(elems[i], scales[i / cols], zero_points[i / cols]));
            i = i + 1;
        }
        QuantizedTensorU8 { data, shape, scales, zero_points }
    }

    /// Loads unsigned affine 8-bit values, scales, and zero points from a
    /// safetensors file. `decode` turns the bit pattern of a scale into the
    /// scale.
    pub fn from_safetensors<F: Fn(u32) -> T>(
        file: &ModelFile<'_>,
        values_name: &str,
        scales_name: &str,
        zero_points_name: &str,
        decode: &F,
    ) -> (res: Result<Self>)
        requires
            forall|word: u32| call_requires(*decode, (word,)),
            rank_fits(file.entries(), scales_name@),
            affine_error(
                file.entries(),
                values_name@,
                scales_name@,
                zero_points_name@,
            ) is None ==> quantized_entries_fit(file.entries(), values_name@, scales_name@)
                && params_fit(
                product(entry_named(file.entries(), zero_points_name@).unwrap().shape),
                entry_named(file.entries(), values_name@).unwrap().shape[0] as int,
            ),
        ensures
            match affine_error(file.entries(), values_name@, scales_name@, zero_points_name@) {
                Some(e) => res == Err::<Self, Error>(e),
                None => res matches Ok(q) && ({
                    let entry = entry_named(file.entries(), values_name@).unwrap();
                    let zeros = entry_named(file.entries(), zero_points_name@).unwrap();
                    &&& q.dims() == entry.shape
                    &&& q.values() == file.bytes().subrange(entry.data_start, entry.data_end)
                    &&& q.zero_point_list() == file.bytes().subrange(
                        zeros.data_start,
                        zeros.data_end,
                    )
                    &&& scales_loaded(
                        q.scale_list(),
                        file.entries(),
                        file.bytes(),
                        scales_name@,
                        *decode,
                    )
                }),
            },
    {
        let values = match file.get(values_name) {
            Ok(view) => view,
            Err(e) => {
                return Err(e);
            },
        };
        let scales = match file.load(scales_name, decode) {
            Ok(tensor) => tensor,
            Err(e) => {
                return Err(e);
            },
        };
        let zero_points = match file.get(zero_points_name) {
            Ok(view) => view,
            Err(e) => {
                return Err(e);
            },
        };
        let data = match values.as_u8() {
            Ok(data) => slice_to_vec(data),
            Err(e) => {
                return Err(e);
            },
        };
        let zeros = match zero_points.as_u8() {
            Ok(data) => slice_to_vec(data),
            Err(e) => {
                return Err(e);
            },
        };
        let scale_data = slice_to_vec(scales.data());
        assert(product(values.shape@) == values.raw@.len()) by {
            assert(values.consistent());
            assert(product(values.shape@) * 1 == product(values.shape@));
        }
        assert(product(zero_points.shape@) == zero_points.raw@.len()) by {
            assert(zero_points.consistent());
            assert(product(zero_points.shape@) * 1 == product(zero_points.shape@));
        }
        Ok(Self::from_vec(data, values.shape, scale_data, zeros))
    }
}

/// Each value is what `quantize` may give for its element and the parameters of
/// its row.
pub open spec fn quantized_affine<T, G: Fn(T, T, u8) -> u8>(
    values: Seq<u8>,
    elems: Seq<T>,
    scales: Seq<T>,
    zero_points: Seq<u8>,
    cols: int,
    quantize: G,
) -> bool {
    &&& values.len() == elems.len()
    &&& forall|i: int|
        0 <= i < values.len() ==> call_ensures(
            quantize,
            (elems[i], scales[i / cols], zero_points[i / cols]),
            #[trigger] values[i],
        )
}

/// Why unsigned values, scales and zero points cannot be loaded, if they cannot.
pub open spec fn affine_error(
    entries: Seq<EntryView>,
    values_name: Seq<char>,
    scales_name: Seq<char>,
    zero_points_name: Seq<char>,
) -> Option<Error> {
    match entry_named(entries, values_name) {
        None => Some(Error::TensorNotFound),
        Some(values) => match load_error(entries, scales_name) {
            Some(e) => Some(e),
            None => match entry_named(entries, zero_points_name) {
                None => Some(Error::TensorNotFound),
                Some(zeros) => if values.dtype != Dtype::U8 || zeros.dtype != Dtype::U8 {
                    Some(Error::DtypeMismatch)
                } else {
                    None
                },
            },
        },
    }
}

impl<T: Copy + From<i16> + Mul<Output = T>> QuantizedTensorU8<T> {
    /// Dequantizes into an owned tensor.
    pub fn dequantize(&self) -> (res: Tensor<T>)
        requires
            can_multiply::<T>(),
            forall|q: i16| #[trigger] call_requires(<T as From<i16>>::from, (q,)),
        ensures
            res.wf(),
            res.dims() == self.dims(),
            forall|i: int|
                0 <= i < res.elems().len() ==> i16_scales_to(
                    (self.values()[i] - param_for_row(
                        self.zero_point_list(),
                        i / self.dims()[1] as int,
                    )) as i16,
                    param_for_row(self.scale_list(), i / self.dims()[1] as int),
                    #[trigger] res.elems()[i],
                ),
    {
        proof {
            use_type_invariant(self);
            lemma_product_2(self.shape@);
        }
        let dims = self.shape.as_slice();
        let rows: usize = dims[0];
        let cols: usize = dims[1];
        let mut out: Vec<T> = Vec::new();
        let n: usize = self.data.len();
        let mut i: usize = 0;
        while i < n
            invariant
                i <= n,
                n == self.values().len(),
                self.inv(),
                n == rows * cols,
                rows == self.dims()[0],
                cols == self.dims()[1],
                can_multiply::<T>(),
                forall|q: i16| #[trigger] call_requires(<T as From<i16>>::from, (q,)),
                out@.len() == i,
                forall|k: int|
                    0 <= k < i ==> i16_scales_to(
                        (self.values()[k] - param_for_row(
                            self.zero_point_list(),
                            k / cols as int,
                        )) as i16,
                        param_for_row(self.scale_list(), k / cols as int),
                        #[trigger] out@[k],
                    ),
            decreases n - i,
        {
            proof {
                lemma_row_of_index(i as int, rows as int, cols as int);
            }
            let row: usize = i / cols;
            let scale = self.scale_for_row(row);
            let q: i16 = self.data[i] as i16 - self.zero_point_for_row(row) as i16;
            let value = T::from(q);
            let scaled = times(value, scale);
            assert(i16_scales_to(q, scale, scaled));
            out.push(scaled);
            i = i + 1;
        }
        Tensor::from_vec(out, dims)
    }
}

// ---------------------------------------------------------------------------
// Packed signed 4-bit
// ---------------------------------------------------------------------------

/// The four bits of a value between `-8` and `7`, as a number below `16`.
pub open spec fn nibble_of(value: i8) -> int {
    if value < 0 {
        value + 16
    } else {
        value as int
    }
}

/// The value between `-8` and `7` whose four bits are the number `nibble`.
pub open spec fn value_of_nibble(nibble: int) -> int {
    if nibble >= 8 {
        nibble - 16
    } else {
        nibble
    }
}

/// A value that four bits can hold.
pub open spec fn is_i4(value: i8) -> bool {
    -8 <= value <= 7
}

/// Nibble number `i` of packed bytes: the low one of a byte is the even one.
pub open spec fn nibble_at(packed: Seq<u8>, i: int) -> int {
    if i % 2 == 0 {
        packed[i / 2] as int % 16
    } else {
        packed[i / 2] as int / 16
    }
}

/// Number of bytes that `len` nibbles take.
pub open spec fn packed_len(len: int) -> int {
    (len + 1) / 2
}

/// The packed bytes of a sequence of values. The unused high nibble of the last
/// byte is zero.
pub open spec fn packed_bytes(values: Seq<i8>) -> Seq<u8> {
    Seq::new(
        packed_len(values.len() as int) as nat,
        |k: int|
            (nibble_of(values[2 * k]) + 16 * if 2 * k + 1 < values.len() {
                nibble_of(values[2 * k + 1])
            } else {
                0
            }) as u8,
    )
}

/// Packing values and reading one of them back gives the value again.
pub proof fn lemma_packing_round_trip(values: Seq<i8>, i: int)
    requires
        forall|k: int| 0 <= k < values.len() ==> is_i4(#[trigger] values[k]),
        0 <= i < values.len(),
    ensures
        value_of_nibble(nibble_at(packed_bytes(values), i)) == values[i],
{
    let k = i / 2;
    assert(is_i4(values[i]));
    assert(is_i4(values[2 * k]));
    if 2 * k + 1 < values.len() {
        assert(is_i4(values[2 * k + 1]));
    }
}

/// The four bits of a value between `-8` and `7`.
fn pack_i4(value: i8) -> (res: u8)
    requires
        is_i4(value),
    ensures
        res == nibble_of(value),
        res < 16,
{
    assert(-8 <= value <= 7 ==> (value & 0x0f) as u8 == if value < 0 {
        (value + 16) as u8
    } else {
        value as u8
    }) by (bit_vector);
    (value & 0x0f) as u8
}

/// The value between `-8` and `7` that four bits denote.
fn unpack_i4(nibble: u8) -> (res: i8)
    requires
        nibble < 16,
    ensures
        res == value_of_nibble(nibble as int),
        is_i4(res),
{
    assert(nibble < 16 ==> nibble & 0x0f == nibble) by (bit_vector);
    let value: i8 = (nibble & 0x0f) as i8;
    if value >= 8 {
        value - 16
    } else {
        value
    }
}

/// Packed signed 4-bit quantized matrix with per-tensor or per-row scales.
#[derive(Debug)]
pub struct QuantizedTensorQ4<T> {
    data: Vec<u8>,
    len: usize,
    shape: Shape,
    scales: Vec<T>,
}

impl<T: Copy> Clone for QuantizedTensorQ4<T> {
    fn clone(&self) -> (res: Self)
        ensures
            res.packed() == self.packed(),
            res.count() == self.count(),
            res.dims() == self.dims(),
            res.scale_list() == self.scale_list(),
    {
        proof {
            use_type_invariant(self);
        }
        QuantizedTensorQ4 {
            data: slice_to_vec(self.data.as_slice()),
            len: self.len,
            shape: self.shape,
            scales: slice_to_vec(self.scales.as_slice()),
        }
    }
}

impl<T> QuantizedTensorQ4<T> {
    /// The packed bytes.
    pub closed spec fn packed(&self) -> Seq<u8> {
        self.data@
    }

    /// Number of values.
    pub closed spec fn count(&self) -> nat {
        self.len as nat
    }

    /// The dimensions.
    pub closed spec fn dims(&self) -> Seq<usize> {
        self.shape@
    }

    /// The scales.
    pub closed spec fn scale_list(&self) -> Seq<T> {
        self.scales@
    }

    /// Value number `i`.
    pub open spec fn value(&self, i: int) -> i8 {
        value_of_nibble(nibble_at(self.packed(), i)) as i8
    }

    #[verifier::type_invariant]
    spec fn inv(&self) -> bool {
        &&& is_quantized_matrix(self.len as nat, self.shape@, self.scales@.len())
        &&& self.data@.len() == packed_len(self.len as int)
    }

    /// Creates a packed signed 4-bit tensor from owned packed bytes.
    ///
    /// `len` is the number of unpacked elements. Low nibble stores the even
    /// element, high nibble stores the odd element.
    pub fn from_packed(data: Vec<u8>, len: usize, shape: &[usize], scales: Vec<T>) -> (res: Self)
        requires
            is_quantized_matrix(len as nat, shape@, scales@.len()),
            data@.len() == packed_len(len as int),
        ensures
            res.packed() == data@,
            res.count() == len,
            res.dims() == shape@,
            res.scale_list() == scales@,
    {
        QuantizedTensorQ4 { data, len, shape: Shape::new(shape), scales }
    }

    /// Creates a packed signed 4-bit tensor from unpacked values in `[-8, 7]`.
    pub fn from_i4_values(values: &[i8], shape: &[usize], scales: Vec<T>) -> (res: Self)
        requires
            is_quantized_matrix(values@.len(), shape@, scales@.len()),
            forall|k: int| 0 <= k < values@.len() ==> is_i4(#[trigger] values@[k]),
        ensures
            res.packed() == packed_bytes(values@),
            res.count() == values@.len(),
            res.dims() == shape@,
            res.scale_list() == scales@,
            forall|i: int|
                0 <= i < values@.len() ==> #[trigger] res.value(i) == values@[i],
    {
        let n: usize = values.len();
        let mut data: Vec<u8> = Vec::new();
        let mut idx: usize = 0;
        while idx < n
            invariant
                idx <= n,
                n == values@.len(),
                forall|k: int| 0 <= k < n ==> is_i4(#[trigger] values@[k]),
                data@ == packed_bytes(values@.take(idx as int)),
            decreases n - idx,
        {
            let ghost done = values@.take(idx as int);
            let ghost more = values@.take(idx + 1);
            assert(is_i4(values@[idx as int]));
            let packed: u8 = pack_i4(values[idx]);
            if idx % 2 == 0 {
                data.push(packed);
                proof {
                    assert forall|k: int| 0 <= k < data@.len() implies data@[k] == packed_bytes(
                        more,
                    )[k] by {
                        if k < packed_bytes(done).len() {
                            assert(packed_bytes(done)[k] == packed_bytes(more)[k]);
                        }
                    }
                    assert(data@ =~= packed_bytes(more));
                }
            } else {
                let slot: u8 = data[idx / 2];
                proof {
                    let last = idx as int / 2;
                    assert(is_i4(values@[2 * last]));
                    assert(slot == nibble_of(values@[2 * last]));
                    assert(slot < 16 && packed < 16 ==> (slot & 0x0f) | (packed << 4) == slot + 16
                        * packed) by (bit_vector);
                }
                data.set(idx / 2, (slot & 0x0f) | (packed << 4));
                proof {
                    assert forall|k: int| 0 <= k < data@.len() implies data@[k] == packed_bytes(
                        more,
                    )[k] by {
                        if k < idx as int / 2 {
                            assert(packed_bytes(done)[k] == packed_bytes(more)[k]);
                        }
                    }
                    assert(data@ =~= packed_bytes(more));
                }
            }
            idx = idx + 1;
        }
        assert(values@.take(n as int) =~= values@);
        proof {
            assert forall|i: int| 0 <= i < values@.len() implies value_of_nibble(
                nibble_at(packed_bytes(values@), i),
            ) as i8 == #[trigger] values@[i] by {
                lemma_packing_round_trip(values@, i);
            }
        }
        Self::from_packed(data, n, shape, scales)
    }

    /// Packed signed 4-bit data.
    pub fn data(&self) -> (res: &[u8])
        ensures
            res@ == self.packed(),
    {
        self.data.as_slice()
    }

    /// Number of unpacked elements.
    pub fn len(&self) -> (res: usize)
        ensures
            res == self.count(),
    {
        self.len
    }

    /// Returns `true` if there are no unpacked elements.
    pub fn is_empty(&self) -> (res: bool)
        ensures
            res == (self.count() == 0),
    {
        self.len == 0
    }

    /// Matrix shape. The values are as many as it says, and there is one scale
    /// for the whole matrix or one per row.
    pub fn shape(&self) -> (res: &Shape)
        ensures
            res@ == self.dims(),
            is_quantized_matrix(self.count(), self.dims(), self.scale_list().len()),
            self.packed().len() == packed_len(self.count() as int),
    {
        proof {
            use_type_invariant(self);
        }
        &self.shape
    }

    /// Per-tensor or per-row scales.
    pub fn scales(&self) -> (res: &[T])
        ensures
            res@ == self.scale_list(),
    {
        self.scales.as_slice()
    }

    /// Returns one unpacked signed 4-bit value.
    pub fn get(&self, idx: usize) -> (res: i8)
        requires
            idx < self.count(),
        ensures
            res == self.value(idx as int),
            is_i4(res),
    {
        proof {
            use_type_invariant(self);
        }
        let byte: u8 = self.data[idx / 2];
        assert(byte & 0x0f == byte % 16 && byte >> 4 == byte / 16) by (bit_vector);
        let nibble: u8 = if idx % 2 == 0 {
            byte & 0x0f
        } else {
            byte >> 4
        };
        unpack_i4(nibble)
    }
}

impl<T: Copy> QuantizedTensorQ4<T> {
    /// The scale that applies to a row.
    pub(crate) fn scale_for_row(&self, row: usize) -> (res: T)
        requires
            row < self.dims()[0],
        ensures
            res == param_for_row(self.scale_list(), row as int),
    {
        proof {
            use_type_invariant(self);
        }
        if self.scales.len() == 1 {
            self.scales[0]
        } else {
            self.scales[row]
        }
    }

    /// Quantizes a matrix row by row into packed signed 4-bit weights.
    /// `scale_of` gives the scale of a row, `quantize` the value of an element
    /// at a scale.
    pub fn quantize_per_row<F: Fn(&[T]) -> T, G: Fn(T, T) -> i8>(
        weight: &Tensor<T>,
        scale_of: &F,
        quantize: &G,
    ) -> (res: Self)
        requires
            weight.wf(),
            weight.dims().len() == 2,
            forall|x: &[T]| #[trigger] call_requires(*scale_of, (x,)),
            forall|a: T, s: T| #[trigger] call_requires(*quantize, (a, s)),
            forall|a: T, s: T, q: i8| #[trigger] call_ensures(*quantize, (a, s), q) ==> is_i4(q),
        ensures
            res.dims() == weight.dims(),
            params_from_rows(
                res.scale_list(),
                weight.elems(),
                weight.dims()[0] as int,
                weight.dims()[1] as int,
                *scale_of,
            ),
            quantized_with_scales(
                Seq::new(res.count(), |i: int| res.value(i)),
                weight.elems(),
                res.scale_list(),
                weight.dims()[1] as int,
                *quantize,
            ),
    {
        proof {
            lemma_product_2(weight.dims());
        }
        let shape = *weight.shape();
        let dims = shape.as_slice();
        let rows: usize = dims[0];
        let cols: usize = dims[1];
        let scales = per_row(weight.data(), rows, cols, scale_of);
        let values = per_element(weight.data(), &scales, rows, cols, quantize);
        let res = Self::from_i4_values(values.as_slice(), dims, scales);
        assert(Seq::new(res.count(), |i: int| res.value(i)) =~= values@);
        res
    }
}

impl<T: Copy + From<i8> + Mul<Output = T>> QuantizedTensorQ4<T> {
    /// Dequantizes into an owned tensor.
    pub fn dequantize(&self) -> (res: Tensor<T>)
        requires
            can_multiply::<T>(),
            forall|q: i8| #[trigger] call_requires(<T as From<i8>>::from, (q,)),
        ensures
            res.wf(),
            res.dims() == self.dims(),
            forall|i: int|
                0 <= i < res.elems().len() ==> i8_scales_to(
                    self.value(i),
                    param_for_row(self.scale_list(), i / self.dims()[1] as int),
                    #[trigger] res.elems()[i],
                ),
    {
        proof {
            use_type_invariant(self);
            lemma_product_2(self.shape@);
        }
        let dims = self.shape.as_slice();
        let rows: usize = dims[0];
        let cols: usize = dims[1];
        let mut out: Vec<T> = Vec::new();
        let n: usize = self.len;
        let mut i: usize = 0;
        while i < n
            invariant
                i <= n,
                n == self.count(),
                self.inv(),
                n == rows * cols,
                rows == self.dims()[0],
                cols == self.dims()[1],
                can_multiply::<T>(),
                forall|q: i8| #[trigger] call_requires(<T as From<i8>>::from, (q,)),
                out@.len() == i,
                forall|k: int|
                    0 <= k < i ==> i8_scales_to(
                        self.value(k),
                        param_for_row(self.scale_list(), k / cols as int),
                        #[trigger] out@[k],
                    ),
            decreases n - i,
        {
            proof {
                lemma_row_of_index(i as int, rows as int, cols as int);
            }
            let scale = self.scale_for_row(i / cols);
            let value = T::from(self.get(i));
            let scaled = times(value, scale);
            assert(i8_scales_to(self.value(i as int), scale, scaled));
            out.push(scaled);
            i = i + 1;
        }
        Tensor::from_vec(out, dims)
    }
}

} // verus!
