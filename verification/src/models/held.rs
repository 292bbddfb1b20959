//! What a file holds under a name, as numbers.

use vstd::prelude::*;
use crate::bytes::{le_value, lemma_le_value_bound, lemma_pow256_values};
use crate::loader::{decoded, entry_named, index_of_entry, is_loaded, word_at};
use crate::models::plan::numbered;
use crate::models::renamed::Save;
use crate::tensor::Tensor;

verus! {

/// The four bytes at a place, the lowest first.
pub open spec fn four_bytes(bytes: Seq<u8>, at: int) -> int {
    bytes[at] + 256 * bytes[at + 1] + 65536 * bytes[at + 2] + 16777216 * bytes[at + 3]
}

/// Element number `i` of the tensor that a file holds under a name, where `number`
/// says what four bytes stand for.
pub open spec fn held(number: spec_fn(int) -> int, save: Save, name: Seq<char>, i: int) -> int {
    number(four_bytes(save.bytes, entry_named(save.entries, name)->0.data_start + 4 * i))
}

/// Elements are decoded as `number` says.
pub open spec fn decodes_as<T, V: Fn(u32) -> T>(
    value: spec_fn(T) -> int,
    number: spec_fn(int) -> int,
    decode: V,
) -> bool {
    forall|word: u32, x: T| #[trigger] call_ensures(decode, (word,), x) ==> value(x) == number(
        word as int,
    )
}

/// Every entry of a file lies inside it.
pub open spec fn entries_lie_inside(save: Save) -> bool {
    forall|k: int|
        0 <= k < save.entries.len() ==> 0 <= (#[trigger] save.entries[k]).data_start
            <= save.entries[k].data_end <= save.bytes.len()
}

/// The tensor is the one that the file holds under this name.
pub open spec fn is_held<T>(
    value: spec_fn(T) -> int,
    number: spec_fn(int) -> int,
    tensor: Tensor<T>,
    save: Save,
    name: Seq<char>,
) -> bool {
    &&& entry_named(save.entries, name) is Some
    &&& tensor.dims() == entry_named(save.entries, name)->0.shape
    &&& forall|i: int|
        0 <= i < tensor.elems().len() ==> value(#[trigger] tensor.elems()[i]) == held(
            number,
            save,
            name,
            i,
        )
}

proof fn lemma_four_bytes(s: Seq<u8>)
    requires
        s.len() == 4,
    ensures
        le_value(s) == four_bytes(s, 0),
        le_value(s) <= u32::MAX,
{
    lemma_le_value_bound(s);
    lemma_pow256_values();
    reveal_with_fuel(le_value, 5);
    let a = s.drop_first();
    let b = a.drop_first();
    let c = b.drop_first();
    assert(a[0] == s[1] && b[0] == s[2] && c[0] == s[3]);
    assert(c.drop_first() =~= Seq::<u8>::empty());
}

proof fn lemma_entry_named_lies_inside(save: Save, name: Seq<char>, i: int)
    requires
        entries_lie_inside(save),
        0 <= i,
    ensures
        index_of_entry(save.entries, name, i) matches Some(k) ==> i <= k
            < save.entries.len(),
    decreases save.entries.len() - i,
{
    if i < save.entries.len() {
        lemma_entry_named_lies_inside(save, name, i + 1);
    }
}

/// The entry that is found under a name lies inside the file.
pub proof fn lemma_named_entry_lies_inside(save: Save, name: Seq<char>)
    requires
        entries_lie_inside(save),
    ensures
        entry_named(save.entries, name) matches Some(entry) ==> 0 <= entry.data_start
            <= entry.data_end <= save.bytes.len(),
{
    lemma_entry_named_lies_inside(save, name, 0);
}

/// Elements that are decoded from the bytes of an entry are the groups of four
/// bytes there, one after the other.
pub proof fn lemma_list_is_held<T, V: Fn(u32) -> T>(
    value: spec_fn(T) -> int,
    number: spec_fn(int) -> int,
    list: Seq<T>,
    save: Save,
    name: Seq<char>,
    decode: V,
)
    requires
        decodes_as(value, number, decode),
        entries_lie_inside(save),
        entry_named(save.entries, name) matches Some(entry) && decoded(
            list,
            save.bytes.subrange(entry.data_start, entry.data_end),
            decode,
        ),
    ensures
        forall|i: int|
            0 <= i < list.len() ==> value(#[trigger] list[i]) == held(number, save, name, i),
{
    let entry = entry_named(save.entries, name)->0;
    lemma_named_entry_lies_inside(save, name);
    let raw = save.bytes.subrange(entry.data_start, entry.data_end);
    assert forall|i: int| 0 <= i < list.len() implies value(#[trigger] list[i]) == held(
        number,
        save,
        name,
        i,
    ) by {
        let x = list[i];
        let s = raw.subrange(4 * i, 4 * i + 4);
        lemma_four_bytes(s);
        assert(call_ensures(decode, (word_at(raw, i),), x));
        let at = entry.data_start + 4 * i;
        assert(s[0] == save.bytes[at] && s[1] == save.bytes[at + 1] && s[2] == save.bytes[at + 2]
            && s[3] == save.bytes[at + 3]);
    }
}

/// A tensor that is loaded under a name holds what the file holds there.
pub proof fn lemma_loaded_is_held<T, V: Fn(u32) -> T>(
    value: spec_fn(T) -> int,
    number: spec_fn(int) -> int,
    tensor: Tensor<T>,
    save: Save,
    name: Seq<char>,
    decode: V,
)
    requires
        decodes_as(value, number, decode),
        entries_lie_inside(save),
        is_loaded(tensor, save.entries, save.bytes, name, decode),
    ensures
        is_held(value, number, tensor, save, name),
{
    lemma_list_is_held(value, number, tensor.elems(), save, name, decode);
}

/// A number and what stands behind it in a name, written in parts.
pub proof fn lemma_name_parts(
    head: Seq<char>,
    k: nat,
    point: Seq<char>,
    a: Seq<char>,
    b: Seq<char>,
    c: Seq<char>,
)
    ensures
        numbered(head, k, point) + a == numbered(head, k, point + a),
        numbered(head, k, point) + a + b == numbered(head, k, point + a + b),
        numbered(head, k, point) + a + b + c == numbered(head, k, point + a + b + c),
{
    assert(numbered(head, k, point) + a =~= numbered(head, k, point + a));
    assert(numbered(head, k, point) + a + b =~= numbered(head, k, point + a + b));
    assert(numbered(head, k, point) + a + b + c =~= numbered(head, k, point + a + b + c));
}

} // verus!
