//! What converting a model amounts to.

use vstd::prelude::*;
use crate::convert::{
    QuantMode, dtype_text, is_quantized_weight, mode_named, options_from,
};
use crate::loader::Dtype;
use crate::text::{decimal_text, text_ends_with};

verus! {

proof fn lemma_ends(prefix: Seq<char>, suffix: Seq<char>)
    ensures
        text_ends_with(prefix + suffix, suffix),
{
    let name = prefix + suffix;
    assert(name.skip(name.len() - suffix.len()) =~= suffix);
}

/// Texts that differ at some place, counted from their ends, are not the ends of one
/// text.
proof fn lemma_ends_otherwise(prefix: Seq<char>, end: Seq<char>, suffix: Seq<char>, back: int)
    requires
        0 < back <= end.len(),
        back <= suffix.len(),
        end[end.len() - back] != suffix[suffix.len() - back],
    ensures
        !text_ends_with(prefix + end, suffix),
{
    let name = prefix + end;
    if text_ends_with(name, suffix) {
        assert(name.skip(name.len() - suffix.len())[suffix.len() - back] == name[name.len()
            - back]);
        assert(name[name.len() - back] == end[end.len() - back]);
    }
}

/// In whatever layer, the query, key and value weights, the output weight of the
/// attention and the two weights of the feed-forward block are quantized where they
/// are matrices of numbers.
pub proof fn lemma_linear_weights_are_quantized(prefix: Seq<char>, shape: Seq<usize>)
    requires
        shape.len() == 2,
    ensures
        is_quantized_weight(prefix + "attention.self.query.weight"@, Dtype::F32, shape),
        is_quantized_weight(prefix + "attention.self.key.weight"@, Dtype::F32, shape),
        is_quantized_weight(prefix + "attention.self.value.weight"@, Dtype::F32, shape),
        is_quantized_weight(prefix + "attention.output.dense.weight"@, Dtype::F32, shape),
        is_quantized_weight(prefix + "intermediate.dense.weight"@, Dtype::F32, shape),
        is_quantized_weight(prefix + "output.dense.weight"@, Dtype::F32, shape),
{
    lemma_ends(prefix, "attention.self.query.weight"@);
    lemma_ends(prefix, "attention.self.key.weight"@);
    lemma_ends(prefix, "attention.self.value.weight"@);
    lemma_ends(prefix, "attention.output.dense.weight"@);
    lemma_ends(prefix, "intermediate.dense.weight"@);
    lemma_ends(prefix, "output.dense.weight"@);
}

/// No bias, no weight of a normalization, no embedding and no pooler is quantized,
/// nothing that is not a matrix, and nothing that is not stored as numbers.
pub proof fn lemma_other_tensors_are_kept(
    prefix: Seq<char>,
    name: Seq<char>,
    dtype: Dtype,
    shape: Seq<usize>,
)
    ensures
        !is_quantized_weight(prefix + ".bias"@, dtype, shape),
        !is_quantized_weight(prefix + "LayerNorm.weight"@, dtype, shape),
        !is_quantized_weight(prefix + "embeddings.weight"@, dtype, shape),
        !is_quantized_weight(prefix + "pooler.dense.weight"@, dtype, shape),
        shape.len() != 2 ==> !is_quantized_weight(name, dtype, shape),
        dtype != Dtype::F32 ==> !is_quantized_weight(name, dtype, shape),
{
    reveal_strlit("attention.self.query.weight");
    reveal_strlit("attention.self.key.weight");
    reveal_strlit("attention.self.value.weight");
    reveal_strlit("attention.output.dense.weight");
    reveal_strlit("intermediate.dense.weight");
    reveal_strlit("output.dense.weight");
    reveal_strlit(".bias");
    reveal_strlit("LayerNorm.weight");
    reveal_strlit("embeddings.weight");
    reveal_strlit("pooler.dense.weight");
    lemma_ends_otherwise(prefix, ".bias"@, "attention.self.query.weight"@, 1);
    lemma_ends_otherwise(prefix, ".bias"@, "attention.self.key.weight"@, 1);
    lemma_ends_otherwise(prefix, ".bias"@, "attention.self.value.weight"@, 1);
    lemma_ends_otherwise(prefix, ".bias"@, "attention.output.dense.weight"@, 1);
    lemma_ends_otherwise(prefix, ".bias"@, "intermediate.dense.weight"@, 1);
    lemma_ends_otherwise(prefix, ".bias"@, "output.dense.weight"@, 1);
    lemma_ends_otherwise(prefix, "LayerNorm.weight"@, "attention.self.query.weight"@, 8);
    lemma_ends_otherwise(prefix, "LayerNorm.weight"@, "attention.self.key.weight"@, 8);
    lemma_ends_otherwise(prefix, "LayerNorm.weight"@, "attention.self.value.weight"@, 8);
    lemma_ends_otherwise(prefix, "LayerNorm.weight"@, "attention.output.dense.weight"@, 8);
    lemma_ends_otherwise(prefix, "LayerNorm.weight"@, "intermediate.dense.weight"@, 8);
    lemma_ends_otherwise(prefix, "LayerNorm.weight"@, "output.dense.weight"@, 8);
    lemma_ends_otherwise(prefix, "embeddings.weight"@, "attention.self.query.weight"@, 8);
    lemma_ends_otherwise(prefix, "embeddings.weight"@, "attention.self.key.weight"@, 8);
    lemma_ends_otherwise(prefix, "embeddings.weight"@, "attention.self.value.weight"@, 8);
    lemma_ends_otherwise(prefix, "embeddings.weight"@, "attention.output.dense.weight"@, 8);
    lemma_ends_otherwise(prefix, "embeddings.weight"@, "intermediate.dense.weight"@, 8);
    lemma_ends_otherwise(prefix, "embeddings.weight"@, "output.dense.weight"@, 8);
    lemma_ends_otherwise(prefix, "pooler.dense.weight"@, "attention.self.query.weight"@, 8);
    lemma_ends_otherwise(prefix, "pooler.dense.weight"@, "attention.self.key.weight"@, 8);
    lemma_ends_otherwise(prefix, "pooler.dense.weight"@, "attention.self.value.weight"@, 9);
    lemma_ends_otherwise(prefix, "pooler.dense.weight"@, "attention.output.dense.weight"@, 14);
    lemma_ends_otherwise(prefix, "pooler.dense.weight"@, "intermediate.dense.weight"@, 14);
    lemma_ends_otherwise(prefix, "pooler.dense.weight"@, "output.dense.weight"@, 14);
}

/// The name of an element type tells its width: it ends with the number of its bits.
/// A truth value takes a byte.
pub proof fn lemma_width_is_in_name(dtype: Dtype)
    ensures
        dtype != Dtype::Bool ==> text_ends_with(
            dtype_text(dtype),
            decimal_text((8 * dtype.width()) as nat),
        ),
        dtype == Dtype::Bool ==> dtype.width() == 1,
{
    reveal_strlit("F32");
    reveal_strlit("F16");
    reveal_strlit("BF16");
    reveal_strlit("I8");
    reveal_strlit("U8");
    reveal_strlit("I32");
    reveal_strlit("I64");
    reveal_with_fuel(decimal_text, 2);
    let name = dtype_text(dtype);
    let bits = decimal_text((8 * dtype.width()) as nat);
    if dtype != Dtype::Bool {
        assert(name.skip(name.len() - bits.len()) =~= bits);
    }
}

/// The name of a mode in file names is one that names it on the command line.
pub proof fn lemma_mode_is_named(mode: QuantMode)
    ensures
        mode_named(mode.suffix_text()) == Some(mode),
{
    reveal_strlit("i8");
    reveal_strlit("u8");
    assert("i8"@[0] == 'i' && "u8"@[0] == 'u');
}

/// The last `--quantize` counts: behind options that are accepted, it decides by
/// what it names. What is refused stays refused, whatever follows.
pub proof fn lemma_last_option_counts(
    args: Seq<Seq<char>>,
    name: Seq<char>,
    i: int,
    mode: Option<QuantMode>,
)
    requires
        0 <= i <= args.len(),
        (args.len() - i) % 2 == 0,
    ensures
        options_from(args, i, mode) is Ok && mode_named(name) is Some ==> options_from(
            args.push("--quantize"@).push(name),
            i,
            mode,
        ) == Ok::<Option<QuantMode>, Seq<char>>(mode_named(name)),
        options_from(args, i, mode) is Ok && mode_named(name) is None ==> options_from(
            args.push("--quantize"@).push(name),
            i,
            mode,
        ) is Err,
        options_from(args, i, mode) is Err ==> options_from(
            args.push("--quantize"@).push(name),
            i,
            mode,
        ) == options_from(args, i, mode),
    decreases args.len() - i,
{
    let all = args.push("--quantize"@).push(name);
    if i < args.len() {
        assert(all[i] == args[i] && all[i + 1] == args[i + 1]);
        if let Some(m) = mode_named(args[i + 1]) {
            lemma_last_option_counts(args, name, i + 2, Some(m));
        }
    } else {
        assert(all[i] == "--quantize"@ && all[i + 1] == name);
        reveal_with_fuel(options_from, 2);
    }
}

} // verus!
