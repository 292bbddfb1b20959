//! Saves that hold the same tensors under different names.

use vstd::prelude::*;
use crate::header::EntryView;
use crate::loader::{entry_named, is_loaded};
use crate::models::plan::{optional_step, tensor_step};
use crate::tensor::Tensor;

verus! {

/// The entries of a file and its bytes.
pub struct Save {
    pub entries: Seq<EntryView>,
    pub bytes: Seq<u8>,
}

impl Save {
    /// The bytes of an entry.
    pub open spec fn raw(self, entry: EntryView) -> Seq<u8> {
        self.bytes.subrange(entry.data_start, entry.data_end)
    }
}

/// Two entries hold the same tensor.
pub open spec fn same_tensor(a: Save, x: EntryView, b: Save, y: EntryView) -> bool {
    &&& x.dtype == y.dtype
    &&& x.shape == y.shape
    &&& a.raw(x) == b.raw(y)
}

/// What `a` holds under one name is what `b` holds under another.
pub open spec fn alike(a: Save, name: Seq<char>, b: Save, other: Seq<char>) -> bool {
    match (entry_named(a.entries, name), entry_named(b.entries, other)) {
        (Some(x), Some(y)) => same_tensor(a, x, b, y),
        (None, None) => true,
        _ => false,
    }
}

/// Name by name, what `a` holds is what `b` holds under the name as `rename`
/// changes it. In what order the tensors lie makes no difference.
pub open spec fn is_renamed(
    a: Save,
    b: Save,
    rename: spec_fn(Seq<char>) -> Seq<char>,
) -> bool {
    forall|name: Seq<char>| alike(a, name, b, #[trigger] rename(name))
}

/// Loading goes the same way for tensors that are alike.
pub proof fn lemma_alike_steps(a: Save, name: Seq<char>, b: Save, other: Seq<char>)
    requires
        alike(a, name, b, other),
    ensures
        tensor_step(a.entries, name) == tensor_step(b.entries, other),
        optional_step(a.entries, name) == optional_step(b.entries, other),
{
}

/// The same tensors are loaded where they are alike.
pub proof fn lemma_alike_loads<T, F: Fn(u32) -> T>(
    a: Save,
    name: Seq<char>,
    b: Save,
    other: Seq<char>,
    weight: Tensor<T>,
    decode: F,
)
    requires
        alike(a, name, b, other),
    ensures
        is_loaded(weight, a.entries, a.bytes, name, decode) == is_loaded(
            weight,
            b.entries,
            b.bytes,
            other,
            decode,
        ),
{
}

} // verus!
