//! Layers with parameters.

use std::sync::Arc;

use crate::array::{opt_term, tn, Array, Dtype, Term, Tn};
use crate::error::Exception;
use crate::fast::{
    layer_norm_device, rms_norm_device, rope_device, t_layer_norm, t_rms_norm, t_rope,
};
use crate::ops::create::{
    normal, ones_dtype, t_normal, t_ones, t_uniform, t_zeros, uniform, zeros_dtype,
};
use crate::ops::elementwise::t_add;
use crate::ops::layout::{t_flatten, t_reshape, t_transpose};
use crate::ops::product::{
    conv1d, dequantize, matmul, quantize_part, quantized_matmul, t_quantize, t_conv1d,
    t_dequantize, t_matmul, t_quantized_matmul,
};
use crate::ops::select::t_take;
use crate::scalar::{lit, Scalar, ONE_BITS};
use vstd::prelude::*;

verus! {

/// The value of a linear layer.
pub enum LinearTerm {
    Dense { weight: Term, bias: Option<Term> },
    Packed {
        weight: Term,
        scales: Term,
        biases: Term,
        bias: Option<Term>,
        group_size: i32,
        bits: i32,
    },
}

/// The value of an embedding table.
pub enum EmbeddingTerm {
    Dense { weight: Term },
    Packed { weight: Term, scales: Term, biases: Term, group_size: i32, bits: i32 },
}

/// `x` plus a bias, where there is one.
pub open spec fn plus_bias(x: Tn, bias: Option<Term>) -> Tn {
    match bias {
        Some(b) => t_add(x, Ok(b)),
        None => x,
    }
}

/// A linear layer: the product with the transposed weight, plus the bias.
pub open spec fn t_linear(l: LinearTerm, x: Tn) -> Tn {
    match l {
        LinearTerm::Dense { weight, bias } => plus_bias(
            t_matmul(x, t_transpose(Ok(weight), seq![1i32, 0i32])),
            bias,
        ),
        LinearTerm::Packed { weight, scales, biases, bias, group_size, bits } => plus_bias(
            t_quantized_matmul(x, weight, scales, biases, group_size, bits),
            bias,
        ),
    }
}

/// The rows of an embedding table that `ids` lists.
pub open spec fn t_embed(e: EmbeddingTerm, ids: Term) -> Tn {
    match e {
        EmbeddingTerm::Dense { weight } => t_take(Ok(weight), Ok(ids), 0),
        EmbeddingTerm::Packed { weight, scales, biases, group_size, bits } => {
            let flat = t_flatten(Ok(ids));
            t_reshape(
                t_dequantize(
                    t_take(Ok(weight), flat, 0),
                    t_take(Ok(scales), flat, 0),
                    t_take(Ok(biases), flat, 0),
                    group_size,
                    bits,
                ),
                ids.shape.push(-1i32),
            )
        },
    }
}

/// The product with the transposed embedding table.
pub open spec fn t_as_linear(e: EmbeddingTerm, x: Tn) -> Tn {
    match e {
        EmbeddingTerm::Dense { weight } => t_matmul(
            x,
            t_transpose(Ok(weight), seq![1i32, 0i32]),
        ),
        EmbeddingTerm::Packed { weight, scales, biases, group_size, bits } => t_quantized_matmul(
            x,
            weight,
            scales,
            biases,
            group_size,
            bits,
        ),
    }
}

/// The packed form of a weight: the packed numbers, the scales and the biases.
pub open spec fn packed_parts(weight: Term, group_size: i32, bits: i32) -> Result<
    (Term, Term, Term),
    Exception,
> {
    match (
        t_quantize(weight, 0, group_size, bits),
        t_quantize(weight, 1, group_size, bits),
        t_quantize(weight, 2, group_size, bits),
    ) {
        (Ok(w), Ok(s), Ok(b)) => Ok((w, s, b)),
        _ => Err(Exception::Operands),
    }
}

/// A linear layer with its weight packed; one that is packed already stays as it is.
pub open spec fn packed_linear(l: LinearTerm, group_size: i32, bits: i32) -> Result<
    LinearTerm,
    Exception,
> {
    match l {
        LinearTerm::Dense { weight, bias } => match packed_parts(weight, group_size, bits) {
            Ok((weight, scales, biases)) => Ok(
                LinearTerm::Packed { weight, scales, biases, bias, group_size, bits },
            ),
            Err(e) => Err(e),
        },
        LinearTerm::Packed { .. } => Ok(l),
    }
}

/// An embedding table with its weight packed; one that is packed already stays as it is.
pub open spec fn packed_embedding(e: EmbeddingTerm, group_size: i32, bits: i32) -> Result<
    EmbeddingTerm,
    Exception,
> {
    match e {
        EmbeddingTerm::Dense { weight } => match packed_parts(weight, group_size, bits) {
            Ok((weight, scales, biases)) => Ok(
                EmbeddingTerm::Packed { weight, scales, biases, group_size, bits },
            ),
            Err(x) => Err(x),
        },
        EmbeddingTerm::Packed { .. } => Ok(e),
    }
}

/// The bound of the noise that a layer with this many inputs starts from.
pub open spec fn init_bound(input_dims: i32) -> Scalar {
    Scalar::SquareRoot(
        Arc::new(Scalar::Quotient(Arc::new(lit(ONE_BITS)), Arc::new(Scalar::Int(input_dims)))),
    )
}

/// The noise that a parameter of a layer with this many inputs starts from.
pub open spec fn init_noise(input_dims: i32, shape: Seq<i32>, draw: u64) -> Tn {
    t_uniform(
        Scalar::Negative(Arc::new(init_bound(input_dims))),
        init_bound(input_dims),
        shape,
        draw,
    )
}

/// Whether this is the noise that a parameter starts from. Which draw it is stays open.
pub open spec fn noise_built(r: Tn, input_dims: i32, shape: Seq<i32>) -> bool {
    exists|draw: u64| #[trigger] init_noise(input_dims, shape, draw) == r
}

/// A fresh linear layer, its weight and its bias out of two draws.
pub open spec fn fresh_linear(
    input_dims: i32,
    output_dims: i32,
    bias: bool,
    draws: (u64, u64),
) -> Result<LinearTerm, Exception> {
    match init_noise(input_dims, seq![output_dims, input_dims], draws.0) {
        Ok(weight) => if bias {
            match init_noise(input_dims, seq![output_dims], draws.1) {
                Ok(b) => Ok(LinearTerm::Dense { weight, bias: Some(b) }),
                Err(e) => Err(e),
            }
        } else {
            Ok(LinearTerm::Dense { weight, bias: None })
        },
        Err(e) => Err(e),
    }
}

/// Whether this is the outcome of building a fresh linear layer. Which draws its noise comes from
/// stays open.
pub open spec fn linear_built(
    r: Result<LinearTerm, Exception>,
    input_dims: i32,
    output_dims: i32,
    bias: bool,
) -> bool {
    exists|draws: (u64, u64)| #[trigger] fresh_linear(input_dims, output_dims, bias, draws) == r
}

/// A fresh embedding table out of a draw.
pub open spec fn fresh_embedding(embeddings: i32, dims: i32, draw: u64) -> Result<
    EmbeddingTerm,
    Exception,
> {
    match t_normal(init_bound(dims), seq![embeddings, dims], draw) {
        Ok(weight) => Ok(EmbeddingTerm::Dense { weight }),
        Err(e) => Err(e),
    }
}

/// Whether this is the outcome of building a fresh embedding table.
pub open spec fn table_built(
    r: Result<EmbeddingTerm, Exception>,
    embeddings: i32,
    dims: i32,
) -> bool {
    exists|draw: u64| #[trigger] fresh_embedding(embeddings, dims, draw) == r
}

fn noise_bound(input_dims: i32) -> (r: Scalar)
    ensures
        r == init_bound(input_dims),
{
    Scalar::SquareRoot(
        Arc::new(
            Scalar::Quotient(Arc::new(Scalar::lit(ONE_BITS)), Arc::new(Scalar::Int(input_dims))),
        ),
    )
}

fn noise(input_dims: i32, shape: Vec<i32>, draw: u64) -> (r: Result<Array, Exception>)
    ensures
        tn(r) == init_noise(input_dims, shape@, draw),
{
    let low = Scalar::Negative(Arc::new(noise_bound(input_dims)));
    uniform(low, noise_bound(input_dims), shape, draw)
}

/// A layer in full precision.
pub struct Linear {
    pub weight: Array,
    pub bias: Option<Array>,
}

/// A layer whose weight is packed.
pub struct QuantizedLinear {
    pub group_size: i32,
    pub bits: i32,
    pub scales: Array,
    pub biases: Array,
    pub inner: Linear,
}

/// An embedding table in full precision.
pub struct Embedding {
    pub weight: Array,
}

/// An embedding table that is packed.
pub struct QuantizedEmbedding {
    pub group_size: i32,
    pub bits: i32,
    pub scales: Array,
    pub biases: Array,
    pub inner: Embedding,
}

/// A layer that may be packed.
pub enum MaybeQuantized<M, Q> {
    Original(M),
    Quantized(Q),
}

/// A linear layer that may be packed.
pub type AnyLinear = MaybeQuantized<Linear, QuantizedLinear>;

/// An embedding table that may be packed.
pub type AnyEmbedding = MaybeQuantized<Embedding, QuantizedEmbedding>;

impl View for MaybeQuantized<Linear, QuantizedLinear> {
    type V = LinearTerm;

    open spec fn view(&self) -> LinearTerm {
        match self {
            MaybeQuantized::Original(l) => LinearTerm::Dense {
                weight: l.weight@,
                bias: opt_term(l.bias),
            },
            MaybeQuantized::Quantized(q) => LinearTerm::Packed {
                weight: q.inner.weight@,
                scales: q.scales@,
                biases: q.biases@,
                bias: opt_term(q.inner.bias),
                group_size: q.group_size,
                bits: q.bits,
            },
        }
    }
}

impl View for MaybeQuantized<Embedding, QuantizedEmbedding> {
    type V = EmbeddingTerm;

    open spec fn view(&self) -> EmbeddingTerm {
        match self {
            MaybeQuantized::Original(e) => EmbeddingTerm::Dense { weight: e.weight@ },
            MaybeQuantized::Quantized(q) => EmbeddingTerm::Packed {
                weight: q.inner.weight@,
                scales: q.scales@,
                biases: q.biases@,
                group_size: q.group_size,
                bits: q.bits,
            },
        }
    }
}

fn add_bias(x: Array, bias: &Option<Array>) -> (r: Result<Array, Exception>)
    ensures
        tn(r) == plus_bias(Ok(x@), opt_term(*bias)),
{
    match bias {
        Some(b) => x.add(b),
        None => Ok(x),
    }
}

/// The transpose of a matrix.
pub fn transposed(w: &Array) -> (r: Result<Array, Exception>)
    ensures
        tn(r) == t_transpose(Ok(w@), seq![1i32, 0i32]),
{
    let axes: Vec<i32> = vec![1, 0];
    proof {
        assert(axes@ =~= seq![1i32, 0i32]);
    }
    w.transpose_axes(axes)
}

/// Packs a weight.
fn pack(w: &Array, group_size: i32, bits: i32) -> (r: Result<(Array, Array, Array), Exception>)
    ensures
        match r {
            Ok((a, b, c)) => packed_parts(w@, group_size, bits) == Ok::<_, Exception>(
                (a@, b@, c@),
            ),
            Err(e) => packed_parts(w@, group_size, bits) == Err::<(Term, Term, Term), _>(e),
        },
{
    let a = quantize_part(w, 0, group_size, bits)?;
    let b = quantize_part(w, 1, group_size, bits)?;
    let c = quantize_part(w, 2, group_size, bits)?;
    Ok((a, b, c))
}

/// The value of an optional outcome of building a linear layer.
pub open spec fn linear_outcome(r: Result<AnyLinear, Exception>) -> Result<LinearTerm, Exception> {
    match r {
        Ok(l) => Ok(l@),
        Err(e) => Err(e),
    }
}

/// The value of an optional outcome of building an embedding table.
pub open spec fn embedding_outcome(r: Result<AnyEmbedding, Exception>) -> Result<
    EmbeddingTerm,
    Exception,
> {
    match r {
        Ok(l) => Ok(l@),
        Err(e) => Err(e),
    }
}

impl MaybeQuantized<Linear, QuantizedLinear> {
    /// A fresh layer from `input_dims` to `output_dims` features.
    pub fn linear(input_dims: i32, output_dims: i32, bias: bool) -> (r: Result<
        AnyLinear,
        Exception,
    >)
        ensures
            linear_built(linear_outcome(r), input_dims, output_dims, bias),
    {
        let ghost draws: (u64, u64) = (0u64, 1u64);
        proof {
            assert(linear_built(
                fresh_linear(input_dims, output_dims, bias, draws),
                input_dims,
                output_dims,
                bias,
            ));
        }
        let shape: Vec<i32> = vec![output_dims, input_dims];
        proof {
            assert(shape@ =~= seq![output_dims, input_dims]);
        }
        let weight = noise(input_dims, shape, 0)?;
        let bias = if bias {
            let shape: Vec<i32> = vec![output_dims];
            proof {
                assert(shape@ =~= seq![output_dims]);
            }
            Some(noise(input_dims, shape, 1)?)
        } else {
            None
        };
        Ok(MaybeQuantized::Original(Linear { weight, bias }))
    }

    /// Applies the layer.
    pub fn forward(&self, x: &Array) -> (r: Result<Array, Exception>)
        ensures
            tn(r) == t_linear(self@, Ok(x@)),
    {
        match self {
            MaybeQuantized::Original(l) => {
                let wt = transposed(&l.weight)?;
                let y = matmul(x, &wt)?;
                add_bias(y, &l.bias)
            },
            MaybeQuantized::Quantized(q) => {
                let y = quantized_matmul(
                    x,
                    &q.inner.weight,
                    &q.scales,
                    &q.biases,
                    q.group_size,
                    q.bits,
                )?;
                add_bias(y, &q.inner.bias)
            },
        }
    }

    /// Packs the layer, unless it is packed already.
    fn pack_weight(self, group_size: i32, bits: i32) -> (r: Result<AnyLinear, Exception>)
        ensures
            linear_outcome(r) == packed_linear(self@, group_size, bits),
    {
        match self {
            MaybeQuantized::Original(l) => {
                let (weight, scales, biases) = pack(&l.weight, group_size, bits)?;
                Ok(
                    MaybeQuantized::Quantized(
                        QuantizedLinear {
                            group_size,
                            bits,
                            scales,
                            biases,
                            inner: Linear { weight, bias: l.bias },
                        },
                    ),
                )
            },
            MaybeQuantized::Quantized(q) => Ok(MaybeQuantized::Quantized(q)),
        }
    }
}

impl MaybeQuantized<Embedding, QuantizedEmbedding> {
    /// A fresh table of `embeddings` rows of `dims` features.
    pub fn embedding(embeddings: i32, dims: i32) -> (r: Result<AnyEmbedding, Exception>)
        ensures
            table_built(embedding_outcome(r), embeddings, dims),
    {
        proof {
            assert(table_built(fresh_embedding(embeddings, dims, 0), embeddings, dims));
        }
        let shape: Vec<i32> = vec![embeddings, dims];
        proof {
            assert(shape@ =~= seq![embeddings, dims]);
        }
        let weight = normal(noise_bound(dims), shape, 0)?;
        Ok(MaybeQuantized::Original(Embedding { weight }))
    }

    /// Looks up the rows that `ids` lists.
    pub fn forward(&self, ids: &Array) -> (r: Result<Array, Exception>)
        ensures
            tn(r) == t_embed(self@, ids@),
    {
        match self {
            MaybeQuantized::Original(e) => e.weight.take_axis(ids, 0),
            MaybeQuantized::Quantized(q) => {
                let flat = ids.flatten()?;
                let w = q.inner.weight.take_axis(&flat, 0)?;
                let s = q.scales.take_axis(&flat, 0)?;
                let b = q.biases.take_axis(&flat, 0)?;
                let rows = dequantize(&w, &s, &b, q.group_size, q.bits)?;
                let mut shape = ids.dims();
                shape.push(-1);
                rows.reshape(&shape)
            },
        }
    }

    /// Multiplies by the transposed table.
    pub fn as_linear(&self, x: &Array) -> (r: Result<Array, Exception>)
        ensures
            tn(r) == t_as_linear(self@, Ok(x@)),
    {
        match self {
            MaybeQuantized::Original(e) => {
                let wt = transposed(&e.weight)?;
                matmul(x, &wt)
            },
            MaybeQuantized::Quantized(q) => quantized_matmul(
                x,
                &q.inner.weight,
                &q.scales,
                &q.biases,
                q.group_size,
                q.bits,
            ),
        }
    }

    /// Packs the table, unless it is packed already.
    fn pack_weight(self, group_size: i32, bits: i32) -> (r: Result<AnyEmbedding, Exception>)
        ensures
            embedding_outcome(r) == packed_embedding(self@, group_size, bits),
    {
        match self {
            MaybeQuantized::Original(e) => {
                let (weight, scales, biases) = pack(&e.weight, group_size, bits)?;
                Ok(
                    MaybeQuantized::Quantized(
                        QuantizedEmbedding {
                            group_size,
                            bits,
                            scales,
                            biases,
                            inner: Embedding { weight },
                        },
                    ),
                )
            },
            MaybeQuantized::Quantized(q) => Ok(MaybeQuantized::Quantized(q)),
        }
    }
}

/// A module whose layers can be packed.
pub trait Quantizable: Sized {
    /// Whether `out` is what packing the layers gives.
    spec fn packs_to(self, group_size: i32, bits: i32, out: Result<Self, Exception>) -> bool;

    /// Packs every layer that is not packed already.
    fn quantize(self, group_size: i32, bits: i32) -> (r: Result<Self, Exception>)
        ensures
            self.packs_to(group_size, bits, r),
    ;
}

impl Quantizable for AnyLinear {
    open spec fn packs_to(
        self,
        group_size: i32,
        bits: i32,
        out: Result<AnyLinear, Exception>,
    ) -> bool {
        linear_outcome(out) == packed_linear(self@, group_size, bits)
    }

    fn quantize(self, group_size: i32, bits: i32) -> Result<AnyLinear, Exception> {
        self.pack_weight(group_size, bits)
    }
}

impl Quantizable for AnyEmbedding {
    open spec fn packs_to(
        self,
        group_size: i32,
        bits: i32,
        out: Result<AnyEmbedding, Exception>,
    ) -> bool {
        embedding_outcome(out) == packed_embedding(self@, group_size, bits)
    }

    fn quantize(self, group_size: i32, bits: i32) -> Result<AnyEmbedding, Exception> {
        self.pack_weight(group_size, bits)
    }
}

impl<T: Quantizable> Quantizable for Option<T> {
    open spec fn packs_to(
        self,
        group_size: i32,
        bits: i32,
        out: Result<Option<T>, Exception>,
    ) -> bool {
        match (self, out) {
            (Some(m), Ok(Some(n))) => m.packs_to(group_size, bits, Ok(n)),
            (Some(m), Err(e)) => m.packs_to(group_size, bits, Err(e)),
            (None, Ok(None)) => true,
            _ => false,
        }
    }

    fn quantize(self, group_size: i32, bits: i32) -> Result<Option<T>, Exception> {
        match self {
            Some(m) => Ok(Some(m.quantize(group_size, bits)?)),
            None => Ok(None),
        }
    }
}

impl<T: Quantizable> Quantizable for Vec<T> {
    open spec fn packs_to(
        self,
        group_size: i32,
        bits: i32,
        out: Result<Vec<T>, Exception>,
    ) -> bool {
        match out {
            Ok(v) => {
                &&& v@.len() == self@.len()
                &&& forall|i: int|
                    0 <= i < v@.len() ==> (#[trigger] self@[i]).packs_to(
                        group_size,
                        bits,
                        Ok(v@[i]),
                    )
            },
            Err(e) => exists|i: int|
                0 <= i < self@.len() && (#[trigger] self@[i]).packs_to(group_size, bits, Err(e)),
        }
    }

    fn quantize(self, group_size: i32, bits: i32) -> Result<Vec<T>, Exception> {
        let ghost all = self@;
        let mut rest = self;
        let mut out: Vec<T> = Vec::new();
        while rest.len() > 0
            invariant
                out@.len() + rest@.len() == all.len(),
                all == self@,
                forall|i: int| 0 <= i < rest@.len() ==> rest@[i] == all[out@.len() + i],
                forall|i: int|
                    0 <= i < out@.len() ==> (#[trigger] all[i]).packs_to(
                        group_size,
                        bits,
                        Ok(out@[i]),
                    ),
            decreases rest@.len(),
        {
            let ghost k = out@.len() as int;
            let m = rest.remove(0);
            proof {
                assert(m == all[k]);
            }
            let q = m.quantize(group_size, bits);
            proof {
                assert(all[k].packs_to(group_size, bits, q));
            }
            out.push(q?);
        }
        Ok(out)
    }
}

/// Root-mean-square normalization with a weight.
pub struct RmsNorm {
    pub weight: Array,
    pub eps: Scalar,
}

impl RmsNorm {
    /// Whether this is a fresh normalization of `dims` features.
    pub open spec fn is_fresh(&self, dims: i32, eps: Scalar) -> bool {
        &&& t_ones(seq![dims], Dtype::Float32) == Ok::<Term, Exception>(self.weight@)
        &&& self.eps == eps
    }

    /// Whether a normalization of `dims` features cannot be built.
    pub open spec fn cannot_build(dims: i32, e: Exception) -> bool {
        t_ones(seq![dims], Dtype::Float32) == Err::<Term, Exception>(e)
    }

    /// The normalization of `x`.
    pub open spec fn apply(&self, x: Tn) -> Tn {
        t_rms_norm(x, Some(self.weight@), self.eps)
    }

    /// A normalization of `dims` features with unit weight.
    pub fn new(dims: i32, eps: Scalar) -> (r: Result<RmsNorm, Exception>)
        ensures
            match r {
                Ok(n) => n.is_fresh(dims, eps),
                Err(e) => RmsNorm::cannot_build(dims, e),
            },
    {
        let shape: Vec<i32> = vec![dims];
        proof {
            assert(shape@ =~= seq![dims]);
        }
        Ok(RmsNorm { weight: ones_dtype(&shape, Dtype::Float32)?, eps })
    }

    /// Normalizes the last axis.
    pub fn forward(&self, x: &Array) -> (r: Result<Array, Exception>)
        ensures
            tn(r) == self.apply(Ok(x@)),
    {
        rms_norm_device(x, &self.weight, self.eps.copy())
    }
}

/// Layer normalization with a weight and a bias.
pub struct LayerNorm {
    pub weight: Array,
    pub bias: Array,
    pub eps: Scalar,
}

impl LayerNorm {
    /// Whether this is a fresh normalization of `dims` features.
    pub open spec fn is_fresh(&self, dims: i32, eps: Scalar) -> bool {
        &&& t_ones(seq![dims], Dtype::Float32) == Ok::<Term, Exception>(self.weight@)
        &&& t_zeros(seq![dims], Dtype::Float32) == Ok::<Term, Exception>(self.bias@)
        &&& self.eps == eps
    }

    /// The normalization of `x`.
    pub open spec fn apply(&self, x: Tn) -> Tn {
        t_layer_norm(x, Some(self.weight@), Some(self.bias@), self.eps)
    }

    /// A normalization of `dims` features with unit weight and no bias.
    pub fn new(dims: i32, eps: Scalar) -> (r: Result<LayerNorm, Exception>)
        ensures
            match r {
                Ok(n) => n.is_fresh(dims, eps),
                Err(e) => t_ones(seq![dims], Dtype::Float32) == Err::<Term, Exception>(e),
            },
    {
        let shape: Vec<i32> = vec![dims];
        proof {
            assert(shape@ =~= seq![dims]);
        }
        Ok(
            LayerNorm {
                weight: ones_dtype(&shape, Dtype::Float32)?,
                bias: zeros_dtype(&shape, Dtype::Float32)?,
                eps,
            },
        )
    }

    /// Normalizes the last axis.
    pub fn forward(&self, x: &Array) -> (r: Result<Array, Exception>)
        ensures
            tn(r) == self.apply(Ok(x@)),
    {
        layer_norm_device(x, Some(&self.weight), Some(&self.bias), self.eps.copy())
    }
}

/// One-dimensional convolution without a bias.
pub struct Conv1d {
    pub weight: Array,
    pub groups: i32,
}

impl Conv1d {
    /// The convolution of `x`.
    pub open spec fn apply(&self, x: Tn) -> Tn {
        t_conv1d(x, self.weight@, self.groups)
    }

    /// A fresh convolution in which every channel has a kernel of its own.
    pub fn depthwise(channels: i32, kernel_size: i32) -> (r: Result<Conv1d, Exception>)
        ensures
            match r {
                Ok(c) => {
                    &&& noise_built(Ok(c.weight@), kernel_size, seq![channels, kernel_size, 1i32])
                    &&& c.groups == channels
                },
                Err(e) => noise_built(Err(e), kernel_size, seq![channels, kernel_size, 1i32]),
            },
    {
        let shape: Vec<i32> = vec![channels, kernel_size, 1];
        proof {
            assert(shape@ =~= seq![channels, kernel_size, 1i32]);
        }
        Ok(Conv1d { weight: noise(kernel_size, shape, 0)?, groups: channels })
    }

    /// Convolves along the second axis.
    pub fn forward(&self, x: &Array) -> (r: Result<Array, Exception>)
        ensures
            tn(r) == self.apply(Ok(x@)),
    {
        conv1d(x, &self.weight, self.groups)
    }
}

/// Rotary embedding with evenly spaced logarithmic frequencies.
pub struct Rope {
    pub dimensions: i32,
    pub traditional: bool,
    pub base: Scalar,
    pub scale: Scalar,
}

impl Rope {
    /// The embedding of `x`, whose first position is `offset`.
    pub open spec fn apply(&self, x: Tn, offset: i32) -> Tn {
        t_rope(
            x,
            self.dimensions,
            self.traditional,
            Some(self.base),
            self.scale,
            offset,
            None,
        )
    }

    /// Embeds positions from `offset` on.
    pub fn forward(&self, x: &Array, offset: i32) -> (r: Result<Array, Exception>)
        ensures
            tn(r) == self.apply(Ok(x@), offset),
    {
        rope_device(
            x,
            self.dimensions,
            self.traditional,
            Some(self.base.copy()),
            self.scale.copy(),
            offset,
            None,
        )
    }
}

} // verus!
