//! Plain, forward-only tensor.
//!
//! Data is owned (`Vec<T>`) in row-major order. The shape is stored inline (up
//! to four dimensions, which covers every transformer op without a heap
//! allocation for the shape).

use vstd::prelude::*;
use vstd::slice::{slice_subrange, slice_to_vec};

verus! {

/// Maximum number of dimensions stored inline. Transformer ops never exceed 4.
pub const MAX_DIMS: usize = 4;

/// Product of a sequence of dimensions; `1` for the empty sequence.
pub open spec fn product(dims: Seq<usize>) -> nat
    decreases dims.len(),
{
    if dims.len() == 0 {
        1
    } else {
        product(dims.drop_last()) * dims.last() as nat
    }
}

/// A dimension of zero makes the whole product zero.
pub proof fn lemma_product_zero(dims: Seq<usize>, k: int)
    requires
        0 <= k < dims.len(),
        dims[k] == 0,
    ensures
        product(dims) == 0,
    decreases dims.len(),
{
    if k < dims.len() - 1 {
        lemma_product_zero(dims.drop_last(), k);
        assert(product(dims) == 0 * dims.last() as nat);
    } else {
        assert(product(dims) == product(dims.drop_last()) * 0) by (nonlinear_arith)
            requires
                product(dims) == product(dims.drop_last()) * dims.last() as nat,
                dims.last() == 0,
        ;
    }
}

/// Without a zero dimension, taking a prefix does not make the product larger.
proof fn lemma_product_prefix(dims: Seq<usize>, k: int)
    requires
        0 <= k <= dims.len(),
        forall|i: int| 0 <= i < dims.len() ==> dims[i] != 0,
    ensures
        product(dims.take(k)) <= product(dims),
    decreases dims.len(),
{
    if k == dims.len() {
        assert(dims.take(k) =~= dims);
    } else {
        let init = dims.drop_last();
        lemma_product_prefix(init, k);
        assert(init.take(k) =~= dims.take(k));
        assert(dims.last() >= 1);
        assert(product(init) <= product(init) * dims.last() as nat) by (nonlinear_arith)
            requires
                dims.last() >= 1,
        ;
    }
}

/// Product of the two dimensions of a matrix shape.
pub proof fn lemma_product_2(dims: Seq<usize>)
    requires
        dims.len() == 2,
    ensures
        product(dims) == dims[0] * dims[1],
{
    reveal_with_fuel(product, 3);
    assert(dims.drop_last().drop_last() =~= Seq::<usize>::empty());
    assert(product(dims) == (1 * dims[0] as nat) * dims[1] as nat);
}

/// Product of three dimensions.
pub proof fn lemma_product_3(dims: Seq<usize>)
    requires
        dims.len() == 3,
    ensures
        product(dims) == dims[0] * dims[1] * dims[2],
{
    lemma_product_2(dims.drop_last());
}

/// Product of a single dimension.
pub proof fn lemma_product_1(dims: Seq<usize>)
    requires
        dims.len() == 1,
    ensures
        product(dims) == dims[0],
{
    reveal_with_fuel(product, 2);
    assert(dims.drop_last() =~= Seq::<usize>::empty());
    assert(product(dims) == 1 * dims[0] as nat);
}

/// Product of the dimensions in `dims`, or `None` when it exceeds `usize::MAX`.
pub fn checked_product(dims: &[usize]) -> (res: Option<usize>)
    ensures
        match res {
            Some(p) => p == product(dims@),
            None => product(dims@) > usize::MAX,
        },
{
    let n: usize = dims.len();
    let mut i: usize = 0;
    while i < n
        invariant
            i <= n,
            n == dims@.len(),
            forall|j: int| 0 <= j < i ==> dims@[j] != 0,
        decreases n - i,
    {
        if dims[i] == 0 {
            proof {
                lemma_product_zero(dims@, i as int);
            }
            return Some(0);
        }
        i = i + 1;
    }
    let mut acc: usize = 1;
    i = 0;
    assert(dims@.take(0) =~= Seq::<usize>::empty());
    while i < n
        invariant
            i <= n,
            n == dims@.len(),
            forall|j: int| 0 <= j < n ==> dims@[j] != 0,
            acc == product(dims@.take(i as int)),
        decreases n - i,
    {
        assert(dims@.take(i + 1).drop_last() =~= dims@.take(i as int));
        match acc.checked_mul(dims[i]) {
            Some(next) => {
                acc = next;
            },
            None => {
                proof {
                    lemma_product_prefix(dims@, i + 1);
                }
                return None;
            },
        }
        i = i + 1;
    }
    assert(dims@.take(n as int) =~= dims@);
    Some(acc)
}

/// Inline shape: up to `MAX_DIMS` dimensions, no heap allocation.
#[derive(Clone, Copy, Eq, Debug)]
pub struct Shape {
    dims: [usize; 4],
    ndim: u8,
}

impl View for Shape {
    type V = Seq<usize>;

    closed spec fn view(&self) -> Seq<usize> {
        self.dims@.take(self.ndim as int)
    }
}

impl Shape {
    /// Validity: at most `MAX_DIMS` dimensions, and zeros behind them.
    #[verifier::type_invariant]
    pub closed spec fn wf(self) -> bool {
        &&& self.ndim <= 4
        &&& forall|i: int| self.ndim <= i < 4 ==> #[trigger] self.dims@[i] == 0
    }

    /// Shapes are equal if and only if their dimensions are.
    pub proof fn lemma_same_dims(self, other: Self)
        requires
            self.wf(),
            other.wf(),
        ensures
            (self == other) == (self@ == other@),
    {
        if self@ == other@ {
            assert(self@.len() == self.ndim && other@.len() == other.ndim);
            assert forall|i: int| 0 <= i < 4 implies self.dims@[i] == other.dims@[i] by {
                if i < self.ndim {
                    assert(self@[i] == self.dims@[i]);
                    assert(other@[i] == other.dims@[i]);
                }
            }
            assert(self.dims@ =~= other.dims@);
            assert(self.dims == other.dims);
        }
    }

    /// Creates a shape from a slice of dimensions.
    pub fn new(dims: &[usize]) -> (res: Self)
        requires
            dims@.len() <= MAX_DIMS,
        ensures
            res@ == dims@,
            res.wf(),
    {
        let mut out: [usize; 4] = [0usize; 4];
        let n: usize = dims.len();
        let mut i: usize = 0;
        while i < n
            invariant
                i <= n <= 4,
                n == dims@.len(),
                forall|j: int| 0 <= j < i ==> out@[j] == dims@[j],
                forall|j: int| i <= j < 4 ==> out@[j] == 0,
            decreases n - i,
        {
            out[i] = dims[i];
            i = i + 1;
        }
        let res = Shape { dims: out, ndim: n as u8 };
        assert(res@ =~= dims@);
        res
    }

    /// Number of dimensions.
    pub fn ndim(&self) -> (res: usize)
        ensures
            res == self@.len(),
            res <= MAX_DIMS,
    {
        proof {
            use_type_invariant(self);
        }
        self.ndim as usize
    }

    /// Slice view of the dimensions.
    pub fn as_slice(&self) -> (res: &[usize])
        ensures
            res@ == self@,
            res@.len() <= MAX_DIMS,
    {
        proof {
            use_type_invariant(self);
        }
        let res = slice_subrange(self.dims.as_slice(), 0, self.ndim as usize);
        assert(res@ =~= self@);
        res
    }

    /// Total number of elements (product of dimensions).
    pub fn numel(&self) -> (res: usize)
        requires
            product(self@) <= usize::MAX,
        ensures
            res == product(self@),
    {
        match checked_product(self.as_slice()) {
            Some(p) => p,
            None => 0,
        }
    }
}

impl PartialEq for Shape {
    fn eq(&self, other: &Self) -> (res: bool) {
        let a = self.as_slice();
        let b = other.as_slice();
        let n: usize = a.len();
        if n != b.len() {
            return false;
        }
        let mut i: usize = 0;
        while i < n
            invariant
                i <= n,
                n == a@.len(),
                n == b@.len(),
                a@ == self@,
                b@ == other@,
                forall|j: int| 0 <= j < i ==> a@[j] == b@[j],
            decreases n - i,
        {
            if a[i] != b[i] {
                return false;
            }
            i = i + 1;
        }
        assert(a@ =~= b@);
        true
    }
}

impl vstd::std_specs::cmp::PartialEqSpecImpl for Shape {
    open spec fn obeys_eq_spec() -> bool {
        true
    }

    open spec fn eq_spec(&self, other: &Self) -> bool {
        self@ == other@
    }
}

/// Owned row-major tensor.
///
/// Designed for inference: no gradient tracking, no reference counting.
/// Cheap to move, explicit to clone. The element type is `f32` in every
/// numeric use; the structure does not depend on it.
#[derive(Debug)]
pub struct Tensor<T> {
    data: Vec<T>,
    shape: Shape,
}

impl<T: Copy> Clone for Tensor<T> {
    fn clone(&self) -> (res: Self)
        ensures
            res.elems() == self.elems(),
            res.dims() == self.dims(),
    {
        Tensor { data: slice_to_vec(self.data.as_slice()), shape: self.shape }
    }
}

impl<T> Tensor<T> {
    /// The elements in row-major order.
    pub closed spec fn elems(&self) -> Seq<T> {
        self.data@
    }

    /// The dimensions.
    pub closed spec fn dims(&self) -> Seq<usize> {
        self.shape@
    }

    /// Validity: as many elements as the shape says, in at most `MAX_DIMS`
    /// dimensions.
    pub open spec fn wf(&self) -> bool {
        &&& self.elems().len() == product(self.dims())
        &&& self.elems().len() <= usize::MAX
        &&& self.dims().len() <= MAX_DIMS
    }

    /// Creates a tensor from an owned vector and a shape.
    pub fn from_vec(data: Vec<T>, shape: &[usize]) -> (res: Self)
        requires
            shape@.len() <= MAX_DIMS,
            data@.len() == product(shape@),
        ensures
            res.wf(),
            res.elems() == data@,
            res.dims() == shape@,
    {
        let shape = Shape::new(shape);
        let _n: usize = data.len();
        Tensor { data, shape }
    }

    /// Whether the tensor has as many elements as its shape says.
    pub fn is_consistent(&self) -> (res: bool)
        ensures
            res == self.wf(),
    {
        let n: usize = self.data.len();
        match checked_product(self.shape.as_slice()) {
            Some(p) => p == n,
            None => false,
        }
    }

    /// Borrows the underlying data as a slice.
    pub fn data(&self) -> (res: &[T])
        ensures
            res@ == self.elems(),
    {
        self.data.as_slice()
    }

    /// Mutably borrows the underlying data as a slice. What is written through
    /// the slice is what the tensor then holds, under the same shape.
    pub fn data_mut(&mut self) -> (res: &mut [T])
        requires
            old(self).wf(),
        ensures
            res@ == old(self).elems(),
            final(self).elems() == final(res)@,
            final(self).dims() == old(self).dims(),
            final(res)@.len() == res@.len() ==> final(self).wf(),
    {
        self.data.as_mut_slice()
    }

    /// Shape of the tensor.
    pub fn shape(&self) -> (res: &Shape)
        ensures
            res@ == self.dims(),
    {
        &self.shape
    }

    /// Total number of elements.
    pub fn numel(&self) -> (res: usize)
        requires
            self.wf(),
        ensures
            res == product(self.dims()),
            res == self.elems().len(),
    {
        self.data.len()
    }
}

impl<T: Copy + Default> Tensor<T> {
    /// Allocates a tensor filled with the default element (zero).
    pub fn zeros(shape: &[usize]) -> (res: Self)
        requires
            shape@.len() <= MAX_DIMS,
            product(shape@) <= usize::MAX,
        ensures
            res.wf(),
            res.dims() == shape@,
            exists|zero: T| #[trigger] call_ensures(T::default, (), zero) && forall|i: int|
                0 <= i < res.elems().len() ==> res.elems()[i] == zero,
    {
        let shape = Shape::new(shape);
        let zero = T::default();
        let n: usize = shape.numel();
        let mut data: Vec<T> = Vec::new();
        let mut i: usize = 0;
        while i < n
            invariant
                i <= n,
                data@.len() == i,
                forall|j: int| 0 <= j < i ==> data@[j] == zero,
            decreases n - i,
        {
            data.push(zero);
            i = i + 1;
        }
        assert(call_ensures(T::default, (), zero));
        Tensor { data, shape }
    }
}

} // verus!
