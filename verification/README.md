# wasmicro

Tiny transformer inference, written in Verus: loading safetensors files,
tokenizing text, and running BERT, GPT-2 and T5 models, forward only.

- `src/` is the library. Verus proves the contract of every function, but for
  the few that only call something outside it: `bytemuck`'s slice cast and, of
  the standard library, UTF-8 decoding, character classes, lowercasing,
  `char::from_u32` and `String::push`. What these are said to do is believed,
  not proved; each stands under `external_body` or `assume_specification`, with
  a comment that says it.
  - `loader`, `header`, `writer`: safetensors files, read and written.
  - `tensor`, `ops`, `num`: tensors and what is computed with them.
  - `quant`: 8-bit and 4-bit weights.
  - `tokenizer`: WordPiece and byte-level BPE.
  - `models`: configurations, weights, forward passes and greedy generation.
  - `pipeline`: a model and its tokenizer, chosen by `config.json`.
  - `convert`: quantizing the linear weights of a BERT file.
- `tests/` runs the library on `f32` and on integers.
- `app/` is ordinary Rust around it: the `wasmicro-convert` tool, the JavaScript
  bindings, and the `f32` functions that the library takes from its caller.

Tensors hold elements of any type with the operators that an operation uses.
What the operators of the element type give is not known to the library, so
contracts are relations: a matrix product, for instance, is related to its
factors by the sums and products that lead to each element, in their order.
Functions without an operator, such as the exponential or the square root, are
arguments.

A function that cannot run on every input comes with one that says whether it
can (`is_consistent`, `accepts`, `can_load`, `can_embed`) or that returns
nothing where it cannot (`try_embed`, `try_encode`, `try_generate`).
