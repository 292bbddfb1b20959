//! What the converter decides: its arguments, which tensors it quantizes, and
//! what the quantized model file holds.
//!
//! Elements are `f32` bit patterns here; the arithmetic of quantization comes in
//! as functions on them.

pub mod kept;
pub mod meaning;

use vstd::prelude::*;
use vstd::slice::slice_to_vec;
use crate::bytes::{le_bytes, lemma_le_round_trip, lemma_pow256_values, write_u32};
use crate::error::{Error, Result};
use crate::header::EntryView;
use crate::loader::{
    Dtype, ModelFile, TensorView, dtype_named, entry_fits, entry_named, file_entries,
    index_of_entry, lemma_file_entries_fit, lemma_listed_names_are_found, lemma_no_metadata_entry,
    word_at,
};
use crate::models::plan::join;
use crate::quant::{
    QuantizedTensorI8, QuantizedTensorU8, params_from_rows, quantized_affine, quantized_with_scales,
};
use crate::tensor::{lemma_product_1, product};
use crate::text::{
    chars_of, ends_with, find_text, lemma_index_of_text, same_text, string_of, text_ends_with,
    text_stands_at,
};
use crate::writer::{
    OutputTensor, OutputView, entries_written, file_of, is_control, is_plain_text, is_readable,
    lemma_written_file_reads_back, output_views, payload_start_of, write_safetensors,
};

verus! {

/// Weight-only quantization modes.
#[derive(Clone, Copy, Debug, PartialEq, Eq, Structural)]
pub enum QuantMode {
    I8,
    U8,
}

/// The mode that a command-line value names.
pub open spec fn mode_named(s: Seq<char>) -> Option<QuantMode> {
    if s == "i8"@ {
        Some(QuantMode::I8)
    } else if s == "u8"@ || s == "q8"@ {
        Some(QuantMode::U8)
    } else {
        None
    }
}

impl QuantMode {
    /// The mode that a command-line value names.
    pub fn parse(s: &str) -> (res: Option<Self>)
        ensures
            res == mode_named(s@),
    {
        if same_text(s, "i8") {
            Some(QuantMode::I8)
        } else if same_text(s, "u8") || same_text(s, "q8") {
            Some(QuantMode::U8)
        } else {
            None
        }
    }

    /// How the mode is called in file names.
    pub open spec fn suffix_text(self) -> Seq<char> {
        match self {
            QuantMode::I8 => "i8"@,
            QuantMode::U8 => "u8"@,
        }
    }

    /// How the mode is called in file names.
    pub fn suffix(self) -> (res: &'static str)
        ensures
            res@ == self.suffix_text(),
    {
        match self {
            QuantMode::I8 => "i8",
            QuantMode::U8 => "u8",
        }
    }
}

/// Name of the quantized model file.
pub fn quantized_file_name(mode: QuantMode) -> (res: String)
    ensures
        res@ == "model."@ + mode.suffix_text() + ".safetensors"@,
{
    join(join("model.", mode.suffix()).as_str(), ".safetensors")
}

/// What the command line asks for.
pub struct CliArgs {
    pub model_id: String,
    pub output_dir: String,
    pub quantize: Option<QuantMode>,
}

/// The texts of a list of strings.
pub open spec fn texts_of(args: Seq<String>) -> Seq<Seq<char>> {
    args.map_values(|s: String| s@)
}

/// What the options from number `i` on ask for, if the ones before them ask for
/// `mode`, or why they are refused.
pub open spec fn options_from(
    args: Seq<Seq<char>>,
    i: int,
    mode: Option<QuantMode>,
) -> core::result::Result<Option<QuantMode>, Seq<char>>
    decreases args.len() - i,
{
    if i >= args.len() {
        Ok(mode)
    } else if args[i] != "--quantize"@ {
        Err("unknown argument: "@ + args[i])
    } else if i + 1 >= args.len() {
        Err("--quantize requires i8, u8, or q8"@)
    } else {
        match mode_named(args[i + 1]) {
            None => Err("--quantize must be one of: i8, u8, q8"@),
            Some(m) => options_from(args, i + 2, Some(m)),
        }
    }
}

/// Reads the command line: the program's name, a model, a directory, options.
pub fn parse_args(args: &[String]) -> (res: core::result::Result<CliArgs, String>)
    ensures
        if args@.len() < 3 {
            res matches Err(text) && text@ == "missing required arguments"@
        } else {
            match options_from(texts_of(args@), 3, None) {
                Err(reason) => res matches Err(text) && text@ == reason,
                Ok(mode) => res matches Ok(cli) && cli.model_id@ == args@[1]@ && cli.output_dir@
                    == args@[2]@ && cli.quantize == mode,
            }
        },
{
    let n: usize = args.len();
    if n < 3 {
        return Err(copied_text("missing required arguments"));
    }
    let ghost texts = texts_of(args@);
    let mut quantize: Option<QuantMode> = None;
    let mut i: usize = 3;
    while i < n
        invariant
            i <= n,
            n == args@.len(),
            texts == texts_of(args@),
            options_from(texts, 3, None) == options_from(texts, i as int, quantize),
        decreases n - i,
    {
        assert(texts[i as int] == args@[i as int]@);
        if !same_text(args[i].as_str(), "--quantize") {
            return Err(join("unknown argument: ", args[i].as_str()));
        }
        if i + 1 >= n {
            return Err(copied_text("--quantize requires i8, u8, or q8"));
        }
        assert(texts[i + 1] == args@[i + 1]@);
        match QuantMode::parse(args[i + 1].as_str()) {
            Some(mode) => {
                quantize = Some(mode);
            },
            None => {
                return Err(copied_text("--quantize must be one of: i8, u8, q8"));
            },
        }
        i = i + 2;
    }
    Ok(
        CliArgs {
            model_id: copied_text(args[1].as_str()),
            output_dir: copied_text(args[2].as_str()),
            quantize,
        },
    )
}

/// An owned copy of a text.
fn copied_text(s: &str) -> (res: String)
    ensures
        res@ == s@,
{
    string_of(chars_of(s).as_slice())
}

/// One of the names is that of word embeddings.
pub open spec fn has_word_embeddings(names: Seq<Seq<char>>) -> bool {
    exists|k: int, at: int|
        0 <= k < names.len() && 0 <= at && #[trigger] text_stands_at(
            names[k],
            "embeddings.word_embeddings"@,
            at,
        )
}

/// The names of the tensors of a file.
pub open spec fn entry_names(entries: Seq<EntryView>) -> Seq<Seq<char>> {
    entries.map_values(|e: EntryView| e.name)
}

/// Whether the file looks like a BERT encoder: one of its tensors is named like
/// word embeddings.
pub fn looks_like_bert(file: &ModelFile<'_>) -> (res: bool)
    ensures
        res == has_word_embeddings(entry_names(file.entries())),
{
    let names = file.names();
    let mark = chars_of("embeddings.word_embeddings");
    let n: usize = names.len();
    let ghost texts = entry_names(file.entries());
    let mut i: usize = 0;
    while i < n
        invariant
            i <= n,
            n == names@.len(),
            texts.len() == n,
            texts == entry_names(file.entries()),
            mark@ == "embeddings.word_embeddings"@,
            forall|k: int| 0 <= k < n ==> texts[k] == (#[trigger] names@[k])@,
            forall|k: int, at: int|
                0 <= k < i && 0 <= at ==> !#[trigger] text_stands_at(
                    texts[k],
                    "embeddings.word_embeddings"@,
                    at,
                ),
        decreases n - i,
    {
        let name = chars_of(names[i]);
        proof {
            lemma_index_of_text(name@, mark@, 0);
            assert(texts[i as int] == names@[i as int]@);
        }
        match find_text(name.as_slice(), mark.as_slice(), 0) {
            Some(at) => {
                assert(text_stands_at(texts[i as int], mark@, at as int));
                return true;
            },
            None => {},
        }
        i = i + 1;
    }
    false
}

/// The name is that of a linear weight of a BERT encoder.
pub open spec fn is_bert_linear_name(name: Seq<char>) -> bool {
    ||| text_ends_with(name, "attention.self.query.weight"@)
    ||| text_ends_with(name, "attention.self.key.weight"@)
    ||| text_ends_with(name, "attention.self.value.weight"@)
    ||| text_ends_with(name, "attention.output.dense.weight"@)
    ||| text_ends_with(name, "intermediate.dense.weight"@)
    ||| text_ends_with(name, "output.dense.weight"@)
}

/// Whether a tensor is a linear weight that gets quantized.
pub open spec fn is_quantized_weight(name: Seq<char>, dtype: Dtype, shape: Seq<usize>) -> bool {
    dtype == Dtype::F32 && shape.len() == 2 && is_bert_linear_name(name)
}

/// Whether a tensor is a linear weight that gets quantized.
pub fn should_quantize_bert_linear(name: &str, dtype: Dtype, shape: &[usize]) -> (res: bool)
    ensures
        res == is_quantized_weight(name@, dtype, shape@),
{
    if dtype != Dtype::F32 || shape.len() != 2 {
        return false;
    }
    let chars = chars_of(name);
    let s = chars.as_slice();
    ends_with(s, chars_of("attention.self.query.weight").as_slice()) || ends_with(
        s,
        chars_of("attention.self.key.weight").as_slice(),
    ) || ends_with(s, chars_of("attention.self.value.weight").as_slice()) || ends_with(
        s,
        chars_of("attention.output.dense.weight").as_slice(),
    ) || ends_with(s, chars_of("intermediate.dense.weight").as_slice()) || ends_with(
        s,
        chars_of("output.dense.weight").as_slice(),
    )
}

/// How an element type is called in a header.
pub open spec fn dtype_text(dtype: Dtype) -> Seq<char> {
    match dtype {
        Dtype::F32 => "F32"@,
        Dtype::F16 => "F16"@,
        Dtype::BF16 => "BF16"@,
        Dtype::I8 => "I8"@,
        Dtype::U8 => "U8"@,
        Dtype::I32 => "I32"@,
        Dtype::I64 => "I64"@,
        Dtype::Bool => "BOOL"@,
    }
}

/// How an element type is called in a header.
pub fn dtype_name(dtype: Dtype) -> (res: &'static str)
    ensures
        res@ == dtype_text(dtype),
{
    match dtype {
        Dtype::F32 => "F32",
        Dtype::F16 => "F16",
        Dtype::BF16 => "BF16",
        Dtype::I8 => "I8",
        Dtype::U8 => "U8",
        Dtype::I32 => "I32",
        Dtype::I64 => "I64",
        Dtype::Bool => "BOOL",
    }
}

/// Reading the name of an element type gives the element type.
pub proof fn lemma_dtype_name_reads_back(dtype: Dtype)
    ensures
        dtype_named(dtype_text(dtype)) == Ok::<Dtype, Error>(dtype),
{
    reveal_strlit("F32");
    reveal_strlit("F16");
    reveal_strlit("BF16");
    reveal_strlit("I8");
    reveal_strlit("U8");
    reveal_strlit("I32");
    reveal_strlit("I64");
    reveal_strlit("BOOL");
    assert("F32"@[1] != "F16"@[1]);
    assert("F32"@[0] != "I32"@[0]);
    assert("F16"@[0] != "I32"@[0]);
    assert("F32"@[0] != "I64"@[0]);
    assert("F16"@[0] != "I64"@[0]);
    assert("I32"@[1] != "I64"@[1]);
    assert("I8"@[0] != "U8"@[0]);
    assert("BF16"@[1] != "BOOL"@[1]);
}

/// The words as little-endian bytes.
pub open spec fn word_bytes(words: Seq<u32>) -> Seq<u8>
    decreases words.len(),
{
    if words.len() == 0 {
        Seq::empty()
    } else {
        word_bytes(words.drop_last()) + le_bytes(words.last() as nat, 4)
    }
}

/// `f32` bit patterns as little-endian bytes.
pub fn f32_slice_to_le_bytes(values: &[u32]) -> (res: Vec<u8>)
    ensures
        res@ == word_bytes(values@),
{
    let n: usize = values.len();
    let mut out: Vec<u8> = Vec::new();
    let mut i: usize = 0;
    while i < n
        invariant
            i <= n,
            n == values@.len(),
            out@ == word_bytes(values@.take(i as int)),
        decreases n - i,
    {
        write_u32(&mut out, values[i]);
        i = i + 1;
        assert(values@.take(i as int).drop_last() =~= values@.take(i - 1));
    }
    assert(values@.take(n as int) =~= values@);
    out
}

// ---------------------------------------------------------------------------
// Quantizing a model file
// ---------------------------------------------------------------------------

/// The little-endian words of raw bytes.
pub open spec fn words_in(raw: Seq<u8>) -> Seq<u32> {
    Seq::new(raw.len() / 4, |i: int| word_at(raw, i))
}

/// What is written for a signed 8-bit weight: its values and its scales.
pub open spec fn i8_outputs(
    name: Seq<char>,
    shape: Seq<usize>,
    values: Seq<i8>,
    scales: Seq<u32>,
) -> Seq<OutputView> {
    seq![
        OutputView {
            name,
            dtype: "I8"@,
            shape,
            data: values.map_values(|v: i8| v as u8),
        },
        OutputView {
            name: name + ".scale"@,
            dtype: "F32"@,
            shape: seq![scales.len() as usize],
            data: word_bytes(scales),
        },
    ]
}

/// What is written for an unsigned affine 8-bit weight: its values, its scales
/// and its zero points.
pub open spec fn u8_outputs(
    name: Seq<char>,
    shape: Seq<usize>,
    values: Seq<u8>,
    scales: Seq<u32>,
    zero_points: Seq<u8>,
) -> Seq<OutputView> {
    seq![
        OutputView { name, dtype: "U8"@, shape, data: values },
        OutputView {
            name: name + ".scale"@,
            dtype: "F32"@,
            shape: seq![scales.len() as usize],
            data: word_bytes(scales),
        },
        OutputView {
            name: name + ".zero_point"@,
            dtype: "U8"@,
            shape: seq![zero_points.len() as usize],
            data: zero_points,
        },
    ]
}

/// The arithmetic of quantization, on `f32` bit patterns.
pub struct Quantizers<S, Q, P, R> {
    /// Scale of a row of a signed weight.
    pub scale_of: S,
    /// Value of an element of a signed weight at a scale.
    pub to_i8: Q,
    /// Scale and zero point of a row of an unsigned weight.
    pub params_of: P,
    /// Value of an element of an unsigned weight at a scale and zero point.
    pub to_u8: R,
}

impl<
    S: Fn(&[u32]) -> u32,
    Q: Fn(u32, u32) -> i8,
    P: Fn(&[u32]) -> (u32, u8),
    R: Fn(u32, u32, u8) -> u8,
> Quantizers<S, Q, P, R> {
    /// They can be called on everything.
    pub open spec fn callable(&self) -> bool {
        &&& forall|x: &[u32]| #[trigger] call_requires(self.scale_of, (x,))
        &&& forall|a: u32, s: u32| #[trigger] call_requires(self.to_i8, (a, s))
        &&& forall|x: &[u32]| #[trigger] call_requires(self.params_of, (x,))
        &&& forall|a: u32, s: u32, z: u8| #[trigger] call_requires(self.to_u8, (a, s, z))
    }

    /// The values and scales may come from quantizing the words of a matrix.
    pub open spec fn gives_i8(
        &self,
        words: Seq<u32>,
        shape: Seq<usize>,
        values: Seq<i8>,
        scales: Seq<u32>,
    ) -> bool {
        &&& params_from_rows(
            scales,
            words,
            shape[0] as int,
            shape[1] as int,
            self.scale_of,
        )
        &&& quantized_with_scales(values, words, scales, shape[1] as int, self.to_i8)
    }

    /// The values, scales and zero points may come from quantizing the words of
    /// a matrix.
    pub open spec fn gives_u8(
        &self,
        words: Seq<u32>,
        shape: Seq<usize>,
        values: Seq<u8>,
        scales: Seq<u32>,
        zero_points: Seq<u8>,
    ) -> bool {
        &&& zero_points.len() == scales.len()
        &&& params_from_rows(
            Seq::new(scales.len(), |r: int| (scales[r], zero_points[r])),
            words,
            shape[0] as int,
            shape[1] as int,
            self.params_of,
        )
        &&& quantized_affine(
            values,
            words,
            scales,
            zero_points,
            shape[1] as int,
            self.to_u8,
        )
    }

    /// What may be written for a tensor: a linear weight becomes quantized, and
    /// any other tensor stays as it is.
    pub open spec fn gives_outputs(
        &self,
        mode: QuantMode,
        entry: EntryView,
        raw: Seq<u8>,
        outputs: Seq<OutputView>,
    ) -> bool {
        if !is_quantized_weight(entry.name, entry.dtype, entry.shape) {
            outputs == seq![
                OutputView {
                    name: entry.name,
                    dtype: dtype_text(entry.dtype),
                    shape: entry.shape,
                    data: raw,
                },
            ]
        } else {
            match mode {
                QuantMode::I8 => exists|values: Seq<i8>, scales: Seq<u32>|
                    #[trigger] self.gives_i8(words_in(raw), entry.shape, values, scales)
                        && outputs == i8_outputs(entry.name, entry.shape, values, scales),
                QuantMode::U8 => exists|values: Seq<u8>, scales: Seq<u32>, zeros: Seq<u8>|
                    #[trigger] self.gives_u8(words_in(raw), entry.shape, values, scales, zeros)
                        && outputs == u8_outputs(
                        entry.name,
                        entry.shape,
                        values,
                        scales,
                        zeros,
                    ),
            }
        }
    }

    /// What may be written for name number `k` of a file. A name stands for the
    /// first tensor of that name.
    pub open spec fn gives_part(
        &self,
        mode: QuantMode,
        entries: Seq<EntryView>,
        bytes: Seq<u8>,
        k: int,
        part: Seq<OutputView>,
    ) -> bool {
        entry_named(entries, entries[k].name) matches Some(entry) && self.gives_outputs(
            mode,
            entry,
            bytes.subrange(entry.data_start, entry.data_end),
            part,
        )
    }

    /// What may be written for the first names of a file.
    pub open spec fn gives_parts(
        &self,
        mode: QuantMode,
        entries: Seq<EntryView>,
        bytes: Seq<u8>,
        parts: Seq<Seq<OutputView>>,
    ) -> bool {
        forall|k: int|
            0 <= k < parts.len() ==> self.gives_part(
                mode,
                entries,
                bytes,
                k,
                #[trigger] parts[k],
            )
    }
}

/// All parts, one after the other.
pub open spec fn joined(parts: Seq<Seq<OutputView>>) -> Seq<OutputView>
    decreases parts.len(),
{
    if parts.len() == 0 {
        Seq::empty()
    } else {
        joined(parts.drop_last()) + parts.last()
    }
}

/// What is written for one tensor.
fn outputs_for<
    S: Fn(&[u32]) -> u32,
    Q: Fn(u32, u32) -> i8,
    P: Fn(&[u32]) -> (u32, u8),
    R: Fn(u32, u32, u8) -> u8,
>(
    name: &str,
    view: &TensorView<'_>,
    Ghost(entry): Ghost<EntryView>,
    Ghost(bytes): Ghost<Seq<u8>>,
    mode: QuantMode,
    quantizers: &Quantizers<S, Q, P, R>,
) -> (res: Vec<OutputTensor>)
    requires
        quantizers.callable(),
        name@ == entry.name,
        view.shows(entry, bytes),
        view.consistent(),
    ensures
        quantizers.gives_outputs(
            mode,
            entry,
            bytes.subrange(entry.data_start, entry.data_end),
            output_views(res@),
        ),
{
    let mut out: Vec<OutputTensor> = Vec::new();
    let ghost raw = view.raw@;
    let shape = slice_to_vec(view.shape);
    if !should_quantize_bert_linear(name, view.dtype, view.shape) {
        out.push(
            OutputTensor {
                name: copied_text(name),
                dtype: dtype_name(view.dtype),
                shape,
                data: slice_to_vec(view.raw),
            },
        );
        assert(output_views(out@) =~= seq![out@[0]@]);
        return out;
    }
    let keep = |word: u32| -> (bits: u32)
        ensures
            bits == word,
        { word };
    match view.to_tensor(&keep) {
        Ok(weight) => {
            assert(weight.elems() =~= words_in(raw));
            match mode {
                QuantMode::I8 => {
                    let q = QuantizedTensorI8::quantize_per_row(
                        &weight,
                        &quantizers.scale_of,
                        &quantizers.to_i8,
                    );
                    out.push(
                        OutputTensor {
                            name: copied_text(name),
                            dtype: "I8",
                            shape,
                            data: bytes_of_i8(q.data()),
                        },
                    );
                    out.push(scales_output(name, q.scales()));
                    assert(output_views(out@) =~= i8_outputs(
                        name@,
                        entry.shape,
                        q.values(),
                        q.scale_list(),
                    ));
                    assert(quantizers.gives_i8(
                        words_in(raw),
                        entry.shape,
                        q.values(),
                        q.scale_list(),
                    ));
                },
                QuantMode::U8 => {
                    let q = QuantizedTensorU8::quantize_per_row(
                        &weight,
                        &quantizers.params_of,
                        &quantizers.to_u8,
                    );
                    out.push(
                        OutputTensor {
                            name: copied_text(name),
                            dtype: "U8",
                            shape,
                            data: slice_to_vec(q.data()),
                        },
                    );
                    out.push(scales_output(name, q.scales()));
                    let mut zeros_shape: Vec<usize> = Vec::new();
                    zeros_shape.push(q.zero_points().len());
                    assert(zeros_shape@ =~= seq![q.zero_point_list().len() as usize]);
                    out.push(
                        OutputTensor {
                            name: join(name, ".zero_point"),
                            dtype: "U8",
                            shape: zeros_shape,
                            data: slice_to_vec(q.zero_points()),
                        },
                    );
                    assert(output_views(out@) =~= u8_outputs(
                        name@,
                        entry.shape,
                        q.values(),
                        q.scale_list(),
                        q.zero_point_list(),
                    ));
                    assert(quantizers.gives_u8(
                        words_in(raw),
                        entry.shape,
                        q.values(),
                        q.scale_list(),
                        q.zero_point_list(),
                    ));
                },
            }
        },
        Err(_) => {
            assert(false);
        },
    }
    out
}

/// The scales of a quantized weight.
fn scales_output(name: &str, scales: &[u32]) -> (res: OutputTensor)
    ensures
        res@ == (OutputView {
            name: name@ + ".scale"@,
            dtype: "F32"@,
            shape: seq![scales@.len() as usize],
            data: word_bytes(scales@),
        }),
{
    let mut shape: Vec<usize> = Vec::new();
    shape.push(scales.len());
    assert(shape@ =~= seq![scales@.len() as usize]);
    OutputTensor {
        name: join(name, ".scale"),
        dtype: "F32",
        shape,
        data: f32_slice_to_le_bytes(scales),
    }
}

/// Signed values as bytes.
fn bytes_of_i8(values: &[i8]) -> (res: Vec<u8>)
    ensures
        res@ == values@.map_values(|v: i8| v as u8),
{
    let n: usize = values.len();
    let mut out: Vec<u8> = Vec::new();
    let mut i: usize = 0;
    while i < n
        invariant
            i <= n,
            n == values@.len(),
            out@ == values@.take(i as int).map_values(|v: i8| v as u8),
        decreases n - i,
    {
        out.push(values[i] as u8);
        i = i + 1;
        assert(out@ =~= values@.take(i as int).map_values(|v: i8| v as u8));
    }
    assert(values@.take(n as int) =~= values@);
    out
}

/// Writes the model file with its BERT linear weights quantized.
pub fn quantize_safetensors<
    S: Fn(&[u32]) -> u32,
    Q: Fn(u32, u32) -> i8,
    P: Fn(&[u32]) -> (u32, u8),
    R: Fn(u32, u32, u8) -> u8,
>(bytes: &[u8], mode: QuantMode, quantizers: &Quantizers<S, Q, P, R>) -> (res: Result<Vec<u8>>)
    requires
        quantizers.callable(),
    ensures
        match file_entries(bytes@) {
            Err(e) => res == Err::<Vec<u8>, Error>(e),
            Ok(entries) => res matches Ok(out) && exists|parts: Seq<Seq<OutputView>>|
                #[trigger] quantizers.gives_parts(mode, entries, bytes@, parts) && parts.len()
                    == entries.len() && out@ == file_of(joined(parts)),
        },
{
    let file = match ModelFile::parse(bytes) {
        Ok(file) => file,
        Err(e) => {
            return Err(e);
        },
    };
    let ghost entries = file.entries();
    let names = file.names();
    let n: usize = names.len();
    let mut out: Vec<OutputTensor> = Vec::new();
    let ghost mut parts: Seq<Seq<OutputView>> = Seq::empty();
    let mut i: usize = 0;
    assert(output_views(out@) =~= joined(parts));
    while i < n
        invariant
            i <= n,
            n == names@.len(),
            entries == file.entries(),
            file.bytes() == bytes@,
            entries.len() == n,
            forall|k: int| 0 <= k < n ==> (#[trigger] names@[k])@ == entries[k].name,
            quantizers.callable(),
            parts.len() == i,
            quantizers.gives_parts(mode, entries, bytes@, parts),
            output_views(out@) == joined(parts),
        decreases n - i,
    {
        let name = names[i];
        let ghost entry = entry_named(entries, name@).unwrap();
        proof {
            lemma_listed_names_are_found(entries, i as int);
        }
        match file.get(name) {
            Ok(view) => {
                let mut part = outputs_for(
                    name,
                    &view,
                    Ghost(entry),
                    Ghost(bytes@),
                    mode,
                    quantizers,
                );
                let ghost before = out@;
                let ghost added = part@;
                out.append(&mut part);
                proof {
                    let longer = parts.push(output_views(added));
                    assert(longer.drop_last() =~= parts);
                    assert(output_views(out@) =~= output_views(before) + output_views(added));
                    assert forall|k: int| 0 <= k < longer.len() implies quantizers.gives_part(
                        mode,
                        entries,
                        bytes@,
                        k,
                        #[trigger] longer[k],
                    ) by {
                        if k < parts.len() {
                            assert(longer[k] == parts[k]);
                        }
                    }
                    parts = longer;
                }
            },
            Err(_) => {
                assert(false);
            },
        }
        i = i + 1;
    }
    Ok(write_safetensors(out.as_slice()))
}

/// Words written as bytes read back as the words.
pub proof fn lemma_word_bytes_read_back(words: Seq<u32>)
    ensures
        word_bytes(words).len() == 4 * words.len(),
        words_in(word_bytes(words)) == words,
    decreases words.len(),
{
    let raw = word_bytes(words);
    if words.len() > 0 {
        let init = words.drop_last();
        let last = words.last();
        lemma_word_bytes_read_back(init);
        lemma_pow256_values();
        lemma_le_round_trip(last as nat, 4);
        let n = init.len() as int;
        assert(raw.subrange(4 * n, 4 * n + 4) =~= le_bytes(last as nat, 4));
        assert forall|i: int| 0 <= i < words.len() implies words_in(raw)[i] == words[i] by {
            if i < n {
                assert(raw.subrange(4 * i, 4 * i + 4) =~= word_bytes(init).subrange(
                    4 * i,
                    4 * i + 4,
                ));
                assert(words_in(word_bytes(init))[i] == init[i]);
            }
        }
    }
    assert(words_in(raw) =~= words);
}

/// The scales of a weight with a plain name are readable.
proof fn lemma_scales_readable(name: Seq<char>, scales: Seq<u32>)
    requires
        is_plain_text(name),
        scales.len() <= usize::MAX,
    ensures
        is_readable(
            OutputView {
                name: name + ".scale"@,
                dtype: "F32"@,
                shape: seq![scales.len() as usize],
                data: word_bytes(scales),
            },
        ),
{
    reveal_strlit(".scale");
    reveal_strlit("__metadata__");
    let longer = name + ".scale"@;
    assert(longer.last() == 'e');
    assert("__metadata__"@.last() == '_');
    lemma_plain_extension(name, ".scale"@);
    lemma_word_bytes_read_back(scales);
    lemma_dtype_name_reads_back(Dtype::F32);
    lemma_product_1(seq![scales.len() as usize]);
    assert(product(seq![scales.len() as usize]) * Dtype::F32.width() == 4 * scales.len());
}

/// A plain text behind a plain text is plain.
proof fn lemma_plain_extension(a: Seq<char>, b: Seq<char>)
    requires
        is_plain_text(a),
        is_plain_text(b),
    ensures
        is_plain_text(a + b),
{
    assert forall|i: int|
        0 <= i < (a + b).len() && is_control(#[trigger] (a + b)[i]) implies (a + b)[i] == '\n' || (a
        + b)[i] == '\r' || (a + b)[i] == '\t' by {
        if i < a.len() {
            assert((a + b)[i] == a[i]);
        } else {
            assert((a + b)[i] == b[i - a.len()]);
        }
    }
}

/// What is written for a tensor with a plain name is readable.
proof fn lemma_outputs_readable<
    S: Fn(&[u32]) -> u32,
    Q: Fn(u32, u32) -> i8,
    P: Fn(&[u32]) -> (u32, u8),
    R: Fn(u32, u32, u8) -> u8,
>(
    quantizers: Quantizers<S, Q, P, R>,
    mode: QuantMode,
    entry: EntryView,
    raw: Seq<u8>,
    outputs: Seq<OutputView>,
)
    requires
        is_plain_text(entry.name),
        entry.name != "__metadata__"@,
        product(entry.shape) * entry.dtype.width() == raw.len(),
        quantizers.gives_outputs(mode, entry, raw, outputs),
    ensures
        forall|k: int| 0 <= k < outputs.len() ==> is_readable(#[trigger] outputs[k]),
{
    lemma_dtype_name_reads_back(entry.dtype);
    if is_quantized_weight(entry.name, entry.dtype, entry.shape) {
        lemma_dtype_name_reads_back(Dtype::I8);
        lemma_dtype_name_reads_back(Dtype::U8);
        let words = words_in(raw);
        assert(words.len() == product(entry.shape));
        assert(Dtype::I8.width() == 1 && Dtype::U8.width() == 1);
        assert(product(entry.shape) * 1 == product(entry.shape));
        if mode == QuantMode::I8 {
            let (values, scales) = choose|values: Seq<i8>, scales: Seq<u32>|
                #[trigger] quantizers.gives_i8(words, entry.shape, values, scales) && outputs
                    == i8_outputs(entry.name, entry.shape, values, scales);
            lemma_scales_readable(entry.name, scales);
            assert(is_readable(i8_outputs(entry.name, entry.shape, values, scales)[0]));
        } else {
            let (values, scales, zeros) = choose|
                values: Seq<u8>,
                scales: Seq<u32>,
                zeros: Seq<u8>,
            |
                #[trigger] quantizers.gives_u8(words, entry.shape, values, scales, zeros) && outputs
                    == u8_outputs(entry.name, entry.shape, values, scales, zeros);
            lemma_scales_readable(entry.name, scales);
            reveal_strlit(".zero_point");
            reveal_strlit("__metadata__");
            let longer = entry.name + ".zero_point"@;
            assert(longer.last() == 't');
            assert("__metadata__"@.last() == '_');
            lemma_plain_extension(entry.name, ".zero_point"@);
            lemma_product_1(seq![zeros.len() as usize]);
            let written = u8_outputs(entry.name, entry.shape, values, scales, zeros);
            assert(is_readable(written[0]));
            assert(is_readable(written[2]));
        }
    }
}

/// Outputs that are readable part by part are readable.
proof fn lemma_joined_readable(parts: Seq<Seq<OutputView>>)
    requires
        forall|i: int, k: int|
            0 <= i < parts.len() && 0 <= k < parts[i].len() ==> is_readable(
                #[trigger] parts[i][k],
            ),
    ensures
        forall|k: int| 0 <= k < joined(parts).len() ==> is_readable(#[trigger] joined(parts)[k]),
    decreases parts.len(),
{
    if parts.len() > 0 {
        let init = parts.drop_last();
        assert forall|i: int, k: int|
            0 <= i < init.len() && 0 <= k < init[i].len() implies is_readable(
            #[trigger] init[i][k],
        ) by {
            assert(init[i][k] == parts[i][k]);
        }
        lemma_joined_readable(init);
        assert forall|k: int| 0 <= k < joined(parts).len() implies is_readable(
            #[trigger] joined(parts)[k],
        ) by {
            if k < joined(init).len() {
                assert(joined(parts)[k] == joined(init)[k]);
            } else {
                assert(joined(parts)[k] == parts[parts.len() - 1][k - joined(init).len()]);
            }
        }
    }
}

/// A quantized model file reads back: it parses, and its entries are those of
/// the tensors that were written for the tensors of the source file, in order.
/// This holds of files whose tensor names are plain.
pub proof fn lemma_quantized_file_reads_back<
    S: Fn(&[u32]) -> u32,
    Q: Fn(u32, u32) -> i8,
    P: Fn(&[u32]) -> (u32, u8),
    R: Fn(u32, u32, u8) -> u8,
>(
    quantizers: Quantizers<S, Q, P, R>,
    mode: QuantMode,
    bytes: Seq<u8>,
    entries: Seq<EntryView>,
    parts: Seq<Seq<OutputView>>,
)
    requires
        file_entries(bytes) == Ok::<Seq<EntryView>, Error>(entries),
        forall|k: int| 0 <= k < entries.len() ==> is_plain_text((#[trigger] entries[k]).name),
        parts.len() == entries.len(),
        quantizers.gives_parts(mode, entries, bytes, parts),
        file_of(joined(parts)).len() <= usize::MAX,
    ensures
        file_entries(file_of(joined(parts))) == Ok::<Seq<EntryView>, Error>(
            entries_written(joined(parts), payload_start_of(joined(parts))),
        ),
{
    lemma_parts_readable(quantizers, mode, bytes, entries, parts);
    lemma_written_file_reads_back(joined(parts));
}

/// What is written for a file whose tensor names are plain is readable.
proof fn lemma_parts_readable<
    S: Fn(&[u32]) -> u32,
    Q: Fn(u32, u32) -> i8,
    P: Fn(&[u32]) -> (u32, u8),
    R: Fn(u32, u32, u8) -> u8,
>(
    quantizers: Quantizers<S, Q, P, R>,
    mode: QuantMode,
    bytes: Seq<u8>,
    entries: Seq<EntryView>,
    parts: Seq<Seq<OutputView>>,
)
    requires
        file_entries(bytes) == Ok::<Seq<EntryView>, Error>(entries),
        forall|k: int| 0 <= k < entries.len() ==> is_plain_text((#[trigger] entries[k]).name),
        parts.len() == entries.len(),
        quantizers.gives_parts(mode, entries, bytes, parts),
    ensures
        forall|k: int| 0 <= k < joined(parts).len() ==> is_readable(#[trigger] joined(parts)[k]),
{
    lemma_file_entries_fit(bytes);
    lemma_no_metadata_entry(bytes);
    assert forall|i: int, k: int|
        0 <= i < parts.len() && 0 <= k < parts[i].len() implies is_readable(
        #[trigger] parts[i][k],
    ) by {
        lemma_listed_names_are_found(entries, i);
        assert(quantizers.gives_part(mode, entries, bytes, i, parts[i]));
        let entry = entry_named(entries, entries[i].name)->Some_0;
        let j = index_of_entry(entries, entries[i].name, 0)->Some_0;
        lemma_index_in_range(entries, entries[i].name, 0);
        assert(entry_fits(file_entries(bytes)->Ok_0[j], bytes.len()));
        lemma_outputs_readable(
            quantizers,
            mode,
            entry,
            bytes.subrange(entry.data_start, entry.data_end),
            parts[i],
        );
    }
    lemma_joined_readable(parts);
}

/// The entry that a name finds is one of the entries.
proof fn lemma_index_in_range(entries: Seq<EntryView>, name: Seq<char>, i: int)
    ensures
        index_of_entry(entries, name, i) matches Some(j) ==> 0 <= j < entries.len()
            && entries[j].name == name,
    decreases entries.len() - i,
{
    if 0 <= i < entries.len() && entries[i].name != name {
        lemma_index_in_range(entries, name, i + 1);
    }
}

} // verus!
