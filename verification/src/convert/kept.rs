//! What a quantized model file keeps of its source.

use vstd::prelude::*;
use crate::convert::{
    QuantMode, Quantizers, entry_names, is_quantized_weight, joined, lemma_dtype_name_reads_back,
    lemma_index_in_range, lemma_parts_readable, lemma_quantized_file_reads_back,
};
use crate::error::Error;
use crate::header::EntryView;
use crate::loader::{Dtype, dtype_named, entry_named, file_entries, index_of_entry};
use crate::text::text_ends_with;
use crate::writer::{
    OutputView, entries_written, file_of, is_plain_text, lemma_written_file_reads_back,
    payload_start_of,
};

verus! {

/// The names that are written for a tensor: its own, and behind it those of the
/// parameters of a quantized weight.
pub open spec fn names_for(mode: QuantMode, entry: EntryView) -> Seq<Seq<char>> {
    if !is_quantized_weight(entry.name, entry.dtype, entry.shape) {
        seq![entry.name]
    } else {
        match mode {
            QuantMode::I8 => seq![entry.name, entry.name + ".scale"@],
            QuantMode::U8 => seq![
                entry.name,
                entry.name + ".scale"@,
                entry.name + ".zero_point"@,
            ],
        }
    }
}

/// The names that are written for the first `n` names of a file. A name stands
/// for the first tensor of that name.
pub open spec fn quantized_names(mode: QuantMode, entries: Seq<EntryView>, n: int) -> Seq<Seq<char>>
    decreases n,
{
    if n <= 0 {
        Seq::empty()
    } else {
        quantized_names(mode, entries, n - 1) + names_for(
            mode,
            entry_named(entries, entries[n - 1].name).unwrap(),
        )
    }
}

/// The element type of a quantized weight.
pub open spec fn quantized_dtype(mode: QuantMode) -> Dtype {
    match mode {
        QuantMode::I8 => Dtype::I8,
        QuantMode::U8 => Dtype::U8,
    }
}

/// No tensor of the file has a name that parameters of a quantized weight have.
pub open spec fn no_parameter_names(entries: Seq<EntryView>) -> bool {
    forall|k: int|
        0 <= k < entries.len() ==> !text_ends_with((#[trigger] entries[k]).name, ".scale"@)
            && !text_ends_with(entries[k].name, ".zero_point"@)
}

spec fn names_of(outputs: Seq<OutputView>) -> Seq<Seq<char>> {
    outputs.map_values(|o: OutputView| o.name)
}

proof fn lemma_names_for<
    S: Fn(&[u32]) -> u32,
    Q: Fn(u32, u32) -> i8,
    P: Fn(&[u32]) -> (u32, u8),
    R: Fn(u32, u32, u8) -> u8,
>(
    quantizers: Quantizers<S, Q, P, R>,
    mode: QuantMode,
    entry: EntryView,
    raw: Seq<u8>,
    outputs: Seq<OutputView>,
)
    requires
        quantizers.gives_outputs(mode, entry, raw, outputs),
    ensures
        names_of(outputs) == names_for(mode, entry),
{
    assert(names_of(outputs) =~= names_for(mode, entry));
}

proof fn lemma_names_of_joined<
    S: Fn(&[u32]) -> u32,
    Q: Fn(u32, u32) -> i8,
    P: Fn(&[u32]) -> (u32, u8),
    R: Fn(u32, u32, u8) -> u8,
>(
    quantizers: Quantizers<S, Q, P, R>,
    mode: QuantMode,
    entries: Seq<EntryView>,
    bytes: Seq<u8>,
    parts: Seq<Seq<OutputView>>,
)
    requires
        parts.len() <= entries.len(),
        quantizers.gives_parts(mode, entries, bytes, parts),
    ensures
        names_of(joined(parts)) == quantized_names(mode, entries, parts.len() as int),
    decreases parts.len(),
{
    if parts.len() > 0 {
        let init = parts.drop_last();
        let k = parts.len() - 1;
        assert forall|j: int| 0 <= j < init.len() implies quantizers.gives_part(
            mode,
            entries,
            bytes,
            j,
            #[trigger] init[j],
        ) by {
            assert(init[j] == parts[j]);
        }
        lemma_names_of_joined(quantizers, mode, entries, bytes, init);
        assert(quantizers.gives_part(mode, entries, bytes, k, parts[k]));
        let entry = entry_named(entries, entries[k].name).unwrap();
        lemma_names_for(
            quantizers,
            mode,
            entry,
            bytes.subrange(entry.data_start, entry.data_end),
            parts[k],
        );
        assert(names_of(joined(init) + parts[k]) =~= names_of(joined(init)) + names_of(parts[k]));
    } else {
        assert(names_of(joined(parts)) =~= Seq::<Seq<char>>::empty());
    }
}

/// The names of a quantized file are those of its source, in order, with the
/// names of the parameters right behind each quantized weight. This holds of
/// files whose tensor names are plain.
pub proof fn lemma_quantized_file_names<
    S: Fn(&[u32]) -> u32,
    Q: Fn(u32, u32) -> i8,
    P: Fn(&[u32]) -> (u32, u8),
    R: Fn(u32, u32, u8) -> u8,
>(
    quantizers: Quantizers<S, Q, P, R>,
    mode: QuantMode,
    bytes: Seq<u8>,
    entries: Seq<EntryView>,
    parts: Seq<Seq<OutputView>>,
)
    requires
        file_entries(bytes) == Ok::<Seq<EntryView>, Error>(entries),
        forall|k: int| 0 <= k < entries.len() ==> is_plain_text((#[trigger] entries[k]).name),
        parts.len() == entries.len(),
        quantizers.gives_parts(mode, entries, bytes, parts),
        file_of(joined(parts)).len() <= usize::MAX,
    ensures
        file_entries(file_of(joined(parts))) matches Ok(written) && entry_names(written)
            == quantized_names(mode, entries, entries.len() as int),
{
    let tensors = joined(parts);
    let written = entries_written(tensors, payload_start_of(tensors));
    lemma_quantized_file_reads_back(quantizers, mode, bytes, entries, parts);
    lemma_parts_are_written(quantizers, mode, bytes, entries, parts);
    lemma_names_of_joined(quantizers, mode, entries, bytes, parts);
    assert forall|k: int| 0 <= k < tensors.len() implies entry_names(written)[k] == names_of(
        tensors,
    )[k] by {
        assert(written[k].name == tensors[k].name);
    }
    assert(entry_names(written) =~= names_of(tensors));
}

/// Each entry of the quantized file is that of the tensor that was written.
proof fn lemma_parts_are_written<
    S: Fn(&[u32]) -> u32,
    Q: Fn(u32, u32) -> i8,
    P: Fn(&[u32]) -> (u32, u8),
    R: Fn(u32, u32, u8) -> u8,
>(
    quantizers: Quantizers<S, Q, P, R>,
    mode: QuantMode,
    bytes: Seq<u8>,
    entries: Seq<EntryView>,
    parts: Seq<Seq<OutputView>>,
)
    requires
        file_entries(bytes) == Ok::<Seq<EntryView>, Error>(entries),
        forall|k: int| 0 <= k < entries.len() ==> is_plain_text((#[trigger] entries[k]).name),
        parts.len() == entries.len(),
        quantizers.gives_parts(mode, entries, bytes, parts),
        file_of(joined(parts)).len() <= usize::MAX,
    ensures
        ({
            let tensors = joined(parts);
            let written = entries_written(tensors, payload_start_of(tensors));
            &&& written.len() == tensors.len()
            &&& forall|k: int|
                0 <= k < tensors.len() ==> {
                    let entry = #[trigger] written[k];
                    &&& entry.name == tensors[k].name
                    &&& dtype_named(tensors[k].dtype) == Ok::<Dtype, Error>(entry.dtype)
                    &&& entry.shape == tensors[k].shape
                    &&& file_of(tensors).subrange(entry.data_start, entry.data_end)
                        == tensors[k].data
                }
        }),
{
    lemma_parts_readable(quantizers, mode, bytes, entries, parts);
    lemma_written_file_reads_back(joined(parts));
}

/// Where an output of a part stands among all outputs, and that what stands in
/// front of its part belongs to earlier parts.
proof fn lemma_position(parts: Seq<Seq<OutputView>>, k: int, m: int)
    requires
        0 <= k < parts.len(),
        0 <= m < parts[k].len(),
    ensures
        joined(parts.take(k)).len() + m < joined(parts).len(),
        joined(parts)[joined(parts.take(k)).len() + m] == parts[k][m],
        forall|x: int|
            0 <= x < joined(parts.take(k)).len() ==> #[trigger] joined(parts)[x] == joined(
                parts.take(k),
            )[x],
    decreases parts.len(),
{
    let init = parts.drop_last();
    if k == parts.len() - 1 {
        assert(parts.take(k) =~= init);
    } else {
        lemma_position(init, k, m);
        assert(init.take(k) =~= parts.take(k));
    }
}

/// An output of the joined parts belongs to one of them.
proof fn lemma_part_of(parts: Seq<Seq<OutputView>>, x: int) -> (place: (int, int))
    requires
        0 <= x < joined(parts).len(),
    ensures
        0 <= place.0 < parts.len(),
        0 <= place.1 < parts[place.0].len(),
        parts[place.0][place.1] == joined(parts)[x],
    decreases parts.len(),
{
    let init = parts.drop_last();
    if x < joined(init).len() {
        lemma_part_of(init, x)
    } else {
        (parts.len() - 1, x - joined(init).len())
    }
}

/// The first entry of a name is the one that the name finds.
proof fn lemma_first_index(entries: Seq<EntryView>, name: Seq<char>, i: int, at: int)
    requires
        0 <= i <= at < entries.len(),
        entries[at].name == name,
        forall|j: int| i <= j < at ==> (#[trigger] entries[j]).name != name,
    ensures
        index_of_entry(entries, name, i) == Some(at),
    decreases at - i,
{
    if i < at {
        assert(entries[i].name != name);
        lemma_first_index(entries, name, i + 1, at);
    }
}

/// No entry in front of the one that a name finds has this name.
proof fn lemma_none_before(entries: Seq<EntryView>, name: Seq<char>, i: int, j: int)
    requires
        0 <= i <= j,
        index_of_entry(entries, name, i) matches Some(k) && j < k,
    ensures
        entries[j].name != name,
    decreases j - i,
{
    if i < j {
        lemma_none_before(entries, name, i + 1, j);
    }
}

/// Tensors that are written for tensors of different names, neither of which is
/// that of a parameter, have different names.
proof fn lemma_names_differ(mode: QuantMode, x: EntryView, i: int, y: EntryView, j: int)
    requires
        0 <= i < names_for(mode, x).len(),
        0 <= j < names_for(mode, y).len(),
        x.name != y.name,
        !text_ends_with(x.name, ".scale"@),
        !text_ends_with(x.name, ".zero_point"@),
        !text_ends_with(y.name, ".scale"@),
        !text_ends_with(y.name, ".zero_point"@),
    ensures
        names_for(mode, x)[i] != names_for(mode, y)[j],
{
    lemma_parameter_names(x.name);
    lemma_parameter_names(y.name);
}

/// The names of parameters end as such, and come from one name each.
proof fn lemma_parameter_names(name: Seq<char>)
    ensures
        text_ends_with(name + ".scale"@, ".scale"@),
        text_ends_with(name + ".zero_point"@, ".zero_point"@),
        (name + ".scale"@).take(name.len() as int) == name,
        (name + ".zero_point"@).take(name.len() as int) == name,
        (name + ".scale"@).len() == name.len() + 6,
        (name + ".zero_point"@).len() == name.len() + 11,
        (name + ".scale"@).last() == 'e',
        (name + ".zero_point"@).last() == 't',
{
    reveal_strlit(".scale");
    reveal_strlit(".zero_point");
    let scale = name + ".scale"@;
    let zero = name + ".zero_point"@;
    assert(scale.skip(scale.len() - ".scale"@.len()) =~= ".scale"@);
    assert(zero.skip(zero.len() - ".zero_point"@.len()) =~= ".zero_point"@);
    assert(scale.take(name.len() as int) =~= name);
    assert(zero.take(name.len() as int) =~= name);
}

/// The first tensor that is written for a tensor keeps its name and its shape.
proof fn lemma_first_output<
    S: Fn(&[u32]) -> u32,
    Q: Fn(u32, u32) -> i8,
    P: Fn(&[u32]) -> (u32, u8),
    R: Fn(u32, u32, u8) -> u8,
>(
    quantizers: Quantizers<S, Q, P, R>,
    mode: QuantMode,
    entry: EntryView,
    raw: Seq<u8>,
    outputs: Seq<OutputView>,
)
    requires
        quantizers.gives_outputs(mode, entry, raw, outputs),
    ensures
        outputs.len() > 0,
        outputs[0].name == entry.name,
        outputs[0].shape == entry.shape,
        if is_quantized_weight(entry.name, entry.dtype, entry.shape) {
            dtype_named(outputs[0].dtype) == Ok::<Dtype, Error>(quantized_dtype(mode))
        } else {
            dtype_named(outputs[0].dtype) == Ok::<Dtype, Error>(entry.dtype) && outputs[0].data
                == raw
        },
{
    lemma_dtype_name_reads_back(entry.dtype);
    lemma_dtype_name_reads_back(Dtype::I8);
    lemma_dtype_name_reads_back(Dtype::U8);
}

/// A tensor that was written for a name in front of number `k`, which is the first
/// of its kind, has another name than those that were written for number `k`.
proof fn lemma_earlier_outputs_differ<
    S: Fn(&[u32]) -> u32,
    Q: Fn(u32, u32) -> i8,
    P: Fn(&[u32]) -> (u32, u8),
    R: Fn(u32, u32, u8) -> u8,
>(
    quantizers: Quantizers<S, Q, P, R>,
    mode: QuantMode,
    bytes: Seq<u8>,
    entries: Seq<EntryView>,
    parts: Seq<Seq<OutputView>>,
    k: int,
    m: int,
    x: int,
)
    requires
        no_parameter_names(entries),
        parts.len() == entries.len(),
        quantizers.gives_parts(mode, entries, bytes, parts),
        0 <= k < entries.len(),
        index_of_entry(entries, entries[k].name, 0) == Some(k),
        0 <= m < names_for(mode, entries[k]).len(),
        0 <= x < joined(parts.take(k)).len(),
    ensures
        joined(parts.take(k))[x].name != names_for(mode, entries[k])[m],
{
    let name = entries[k].name;
    let place = lemma_part_of(parts.take(k), x);
    let j = place.0;
    assert(parts.take(k)[j] == parts[j]);
    assert(quantizers.gives_part(mode, entries, bytes, j, parts[j]));
    let earlier = entry_named(entries, entries[j].name)->Some_0;
    lemma_index_in_range(entries, entries[j].name, 0);
    lemma_names_for(
        quantizers,
        mode,
        earlier,
        bytes.subrange(earlier.data_start, earlier.data_end),
        parts[j],
    );
    assert(names_of(parts[j])[place.1] == parts[j][place.1].name);
    lemma_none_before(entries, name, 0, j);
    lemma_names_differ(mode, earlier, place.1, entries[k], m);
}

/// The tensors that are written for one tensor have different names.
proof fn lemma_own_names_differ(mode: QuantMode, entry: EntryView, i: int, j: int)
    requires
        0 <= i < j < names_for(mode, entry).len(),
    ensures
        names_for(mode, entry)[i] != names_for(mode, entry)[j],
{
    lemma_parameter_names(entry.name);
}

/// What stands in front of a tensor that was written for number `k`, which is the
/// first of its kind, has another name.
proof fn lemma_outputs_before_differ<
    S: Fn(&[u32]) -> u32,
    Q: Fn(u32, u32) -> i8,
    P: Fn(&[u32]) -> (u32, u8),
    R: Fn(u32, u32, u8) -> u8,
>(
    quantizers: Quantizers<S, Q, P, R>,
    mode: QuantMode,
    bytes: Seq<u8>,
    entries: Seq<EntryView>,
    parts: Seq<Seq<OutputView>>,
    k: int,
    m: int,
    x: int,
)
    requires
        no_parameter_names(entries),
        parts.len() == entries.len(),
        quantizers.gives_parts(mode, entries, bytes, parts),
        0 <= k < entries.len(),
        index_of_entry(entries, entries[k].name, 0) == Some(k),
        0 <= m < parts[k].len(),
        0 <= x < joined(parts.take(k)).len() + m,
    ensures
        joined(parts)[x].name != parts[k][m].name,
{
    let source = entries[k];
    let start = joined(parts.take(k)).len() as int;
    assert(quantizers.gives_part(mode, entries, bytes, k, parts[k]));
    lemma_names_for(
        quantizers,
        mode,
        source,
        bytes.subrange(source.data_start, source.data_end),
        parts[k],
    );
    assert(names_of(parts[k])[m] == parts[k][m].name);
    lemma_position(parts, k, m);
    if x < start {
        assert(joined(parts)[x] == joined(parts.take(k))[x]);
        lemma_earlier_outputs_differ(quantizers, mode, bytes, entries, parts, k, m, x);
    } else {
        let i = x - start;
        lemma_position(parts, k, i);
        assert(names_of(parts[k])[i] == parts[k][i].name);
        lemma_own_names_differ(mode, source, i, m);
    }
}

/// Each tensor that was written for number `k`, which is the first of its kind,
/// is found in the quantized file by its name.
proof fn lemma_output_is_found<
    S: Fn(&[u32]) -> u32,
    Q: Fn(u32, u32) -> i8,
    P: Fn(&[u32]) -> (u32, u8),
    R: Fn(u32, u32, u8) -> u8,
>(
    quantizers: Quantizers<S, Q, P, R>,
    mode: QuantMode,
    bytes: Seq<u8>,
    entries: Seq<EntryView>,
    parts: Seq<Seq<OutputView>>,
    k: int,
    m: int,
)
    requires
        file_entries(bytes) == Ok::<Seq<EntryView>, Error>(entries),
        forall|k: int| 0 <= k < entries.len() ==> is_plain_text((#[trigger] entries[k]).name),
        no_parameter_names(entries),
        parts.len() == entries.len(),
        quantizers.gives_parts(mode, entries, bytes, parts),
        file_of(joined(parts)).len() <= usize::MAX,
        0 <= k < entries.len(),
        index_of_entry(entries, entries[k].name, 0) == Some(k),
        0 <= m < parts[k].len(),
    ensures
        file_entries(file_of(joined(parts))) matches Ok(written) && holds(
            written,
            file_of(joined(parts)),
            parts[k][m],
        ),
{
    let tensors = joined(parts);
    let written = entries_written(tensors, payload_start_of(tensors));
    let name = parts[k][m].name;
    let start = joined(parts.take(k)).len() as int;
    lemma_quantized_file_reads_back(quantizers, mode, bytes, entries, parts);
    lemma_parts_are_written(quantizers, mode, bytes, entries, parts);
    lemma_position(parts, k, m);
    assert(written[start + m].name == name);
    assert forall|x: int| 0 <= x < start + m implies (#[trigger] written[x]).name != name by {
        lemma_outputs_before_differ(quantizers, mode, bytes, entries, parts, k, m, x);
    }
    lemma_first_index(written, name, 0, start + m);
}

/// The file holds the tensor under its name.
pub open spec fn holds(entries: Seq<EntryView>, file: Seq<u8>, tensor: OutputView) -> bool {
    &&& entry_named(entries, tensor.name) matches Some(entry)
    &&& dtype_named(tensor.dtype) == Ok::<Dtype, Error>(entry.dtype)
    &&& entry.shape == tensor.shape
    &&& file.subrange(entry.data_start, entry.data_end) == tensor.data
}

/// A quantized file holds, each under its name, the tensors that are written for a
/// tensor of the source: of a weight its quantized values, its scales and, where
/// there are any, its zero points. This holds of files whose tensor names are plain
/// and none of which is that of a parameter.
pub proof fn lemma_quantized_file_holds_outputs<
    S: Fn(&[u32]) -> u32,
    Q: Fn(u32, u32) -> i8,
    P: Fn(&[u32]) -> (u32, u8),
    R: Fn(u32, u32, u8) -> u8,
>(
    quantizers: Quantizers<S, Q, P, R>,
    mode: QuantMode,
    bytes: Seq<u8>,
    entries: Seq<EntryView>,
    parts: Seq<Seq<OutputView>>,
    name: Seq<char>,
) -> (outputs: Seq<OutputView>)
    requires
        file_entries(bytes) == Ok::<Seq<EntryView>, Error>(entries),
        forall|k: int| 0 <= k < entries.len() ==> is_plain_text((#[trigger] entries[k]).name),
        no_parameter_names(entries),
        parts.len() == entries.len(),
        quantizers.gives_parts(mode, entries, bytes, parts),
        file_of(joined(parts)).len() <= usize::MAX,
        entry_named(entries, name) is Some,
    ensures
        ({
            let source = entry_named(entries, name)->Some_0;
            quantizers.gives_outputs(
                mode,
                source,
                bytes.subrange(source.data_start, source.data_end),
                outputs,
            )
        }),
        file_entries(file_of(joined(parts))) matches Ok(written) && forall|m: int|
            0 <= m < outputs.len() ==> holds(
                written,
                file_of(joined(parts)),
                #[trigger] outputs[m],
            ),
{
    let k = index_of_entry(entries, name, 0)->Some_0;
    lemma_index_in_range(entries, name, 0);
    assert(quantizers.gives_part(mode, entries, bytes, k, parts[k]));
    lemma_quantized_file_reads_back(quantizers, mode, bytes, entries, parts);
    assert forall|m: int| 0 <= m < parts[k].len() implies holds(
        file_entries(file_of(joined(parts)))->Ok_0,
        file_of(joined(parts)),
        #[trigger] parts[k][m],
    ) by {
        lemma_output_is_found(quantizers, mode, bytes, entries, parts, k, m);
    }
    parts[k]
}

/// What a quantized file keeps of a tensor, found by its name: a quantized weight
/// keeps its shape and becomes eight bits wide, and any other tensor keeps its
/// element type, its shape and its bytes. This holds of files whose tensor names
/// are plain and none of which is that of a parameter.
pub proof fn lemma_quantized_file_keeps<
    S: Fn(&[u32]) -> u32,
    Q: Fn(u32, u32) -> i8,
    P: Fn(&[u32]) -> (u32, u8),
    R: Fn(u32, u32, u8) -> u8,
>(
    quantizers: Quantizers<S, Q, P, R>,
    mode: QuantMode,
    bytes: Seq<u8>,
    entries: Seq<EntryView>,
    parts: Seq<Seq<OutputView>>,
    name: Seq<char>,
)
    requires
        file_entries(bytes) == Ok::<Seq<EntryView>, Error>(entries),
        forall|k: int| 0 <= k < entries.len() ==> is_plain_text((#[trigger] entries[k]).name),
        no_parameter_names(entries),
        parts.len() == entries.len(),
        quantizers.gives_parts(mode, entries, bytes, parts),
        file_of(joined(parts)).len() <= usize::MAX,
        entry_named(entries, name) is Some,
    ensures
        ({
            let file = file_of(joined(parts));
            let source = entry_named(entries, name)->Some_0;
            &&& file_entries(file) matches Ok(written)
            &&& entry_named(written, name) matches Some(kept)
            &&& kept.shape == source.shape
            &&& if is_quantized_weight(name, source.dtype, source.shape) {
                kept.dtype == quantized_dtype(mode)
            } else {
                kept.dtype == source.dtype && file.subrange(kept.data_start, kept.data_end)
                    == bytes.subrange(source.data_start, source.data_end)
            }
        }),
{
    let source = entry_named(entries, name)->Some_0;
    let outputs = lemma_quantized_file_holds_outputs(
        quantizers,
        mode,
        bytes,
        entries,
        parts,
        name,
    );
    lemma_index_in_range(entries, name, 0);
    lemma_first_output(
        quantizers,
        mode,
        source,
        bytes.subrange(source.data_start, source.data_end),
        outputs,
    );
    assert(holds(
        file_entries(file_of(joined(parts)))->Ok_0,
        file_of(joined(parts)),
        outputs[0],
    ));
}

} // verus!
