# mlx-lm

Language models as verified Rust. The library builds the computations of decoder-only models
(Llama, Phi-3, Qwen2, Qwen3, Qwen3-MoE, Qwen3.5 and its sparse and vision parts, Gemma 3, GLM-4,
DeepSeek-V2, gpt-oss): layers, key/value caches, attention masks, rotary embeddings, recurrences,
samplers, generators, and the loading of checkpoints. Its behaviour is stated in contracts and proved
with [Verus](https://github.com/verus-lang/verus).

## Arrays

An `Array` is a deferred computation: an operation, the arrays it reads, and the shape and element
type of its result. Nothing is computed while a graph is built; a device computes it later. In
contracts an array stands for its `Term`, the whole expression below it, and every operation has a
spec function of the same name (`t_matmul`, `t_softmax`, ..) that says which expression it gives, or
that its operands do not fit. Numbers are bit patterns (`Float`) and expressions over them
(`Scalar`); comparing and truncating them is done in integers.

`meaning::elem` says what the elements of an expression are, for operations that move elements, look
them up or replace them, and for those on integers and truth values; an element of another operation
is that operation applied to the elements that it depends on.

Random draws carry a number: draws of one number from the same array are the same draw. A generator
numbers its draws from `draws` on.

## Layout

- `src/array.rs`, `src/shape.rs`, `src/scalar.rs`, `src/ops/`, `src/fast.rs`: arrays and operations
- `src/nn.rs`, `src/params.rs`: layers with parameters, packed or not, and their names
- `src/cache.rs`, `src/utils/`: caches, masks, rotary embeddings, what attention layers share
- `src/models/`: the models, sampling and generation
- `src/weights.rs`, `src/index.rs`: checkpoints
- `src/laws/`: what holds of the library as a whole
- `tests/`: the library on concrete values, with a small interpreter of graphs
- `app/`: a program around the library that reads files and computes graphs with MLX

## What is trusted

`src/index.rs` reads JSON through `serde_json`; the contract of that call is taken as given. All else
in `src/` is proved, about graphs. That a device computes every node of a graph as `src/ops/`,
`src/fast.rs` and `src/meaning.rs` describe it is assumed. So two graphs with the same elements,
such as the logits of a prompt read in chunks and in one pass, ask for the same numbers; a device
that adds in another order for another number of rows may round them differently.
