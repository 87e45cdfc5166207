//! Qwen3 with routed experts: the attention of Qwen3, and feed-forward layers in which every token
//! is sent to its best few experts.

use crate::array::{opt_ref_term, tn, Array, Term, Tn};
use crate::cache::{slot_states, FreshCache, KeyValueCache};
use crate::error::Exception;
use crate::models::decoder::{forward_decoder, run_decoder, DecoderLayer as Layer};
use crate::models::generate::LanguageModel;
use crate::models::qwen3::{
    layer_count, logits_of, product_fits, to_logits, Attention, ModelArgs as Qwen3Args,
    QuantizationConfig,
};
use crate::nn::{
    table_built, linear_built, t_embed, t_linear, AnyEmbedding, AnyLinear, Quantizable, RmsNorm,
};
use crate::ops::create::t_scalar;
use crate::ops::elementwise::{t_add, t_divide, t_multiply, t_silu};
use crate::ops::layout::{t_expand_dims, t_squeeze};
use crate::ops::product::{gather_qmm, t_gather_qmm};
use crate::ops::reduce::{
    argpartition_axis, softmax_axis, t_argpartition, t_softmax, t_sum,
};
use crate::ops::select::{t_slice, t_take_along, take_along_axis, OPEN};
use crate::params::{lemma_part, LeafFrame, Parameters};
use crate::scalar::{lit, Float, Scalar, ZERO_BITS};
use crate::text::{begins, same_text, strip_prefix};
use crate::utils::rope::{
    copy_scaling, same_scaling, ScalingConfig,
};
use crate::weights::{file_entries, load_files, loaded_from, Remap};
use vstd::prelude::*;

pub use crate::models::decoder::{AttentionInput, ModelInput};

verus! {

/// The configuration of a model.
pub struct ModelArgs {
    pub model_type: String,
    pub hidden_size: i32,
    pub num_hidden_layers: i32,
    pub intermediate_size: i32,
    pub num_attention_heads: i32,
    pub rms_norm_eps: Float,
    pub vocab_size: i32,
    pub num_key_value_heads: i32,
    pub max_position_embeddings: i32,
    pub rope_theta: Float,
    pub head_dim: i32,
    pub tie_word_embeddings: bool,
    pub num_experts: i32,
    pub num_experts_per_tok: i32,
    pub moe_intermediate_size: i32,
    pub decoder_sparse_step: i32,
    pub norm_topk_prob: bool,
    pub mlp_only_layers: Vec<i32>,
    pub rope_scaling: Option<ScalingConfig>,
    pub quantization: Option<QuantizationConfig>,
}

/// Whether the configurations of attention agree.
pub open spec fn shares_base(args: &ModelArgs, base: Qwen3Args) -> bool {
    &&& base.model_type@ == args.model_type@
    &&& base.hidden_size == args.hidden_size
    &&& base.num_hidden_layers == args.num_hidden_layers
    &&& base.intermediate_size == args.intermediate_size
    &&& base.num_attention_heads == args.num_attention_heads
    &&& base.rms_norm_eps == args.rms_norm_eps
    &&& base.vocab_size == args.vocab_size
    &&& base.num_key_value_heads == args.num_key_value_heads
    &&& base.max_position_embeddings == args.max_position_embeddings
    &&& base.rope_theta == args.rope_theta
    &&& base.head_dim == args.head_dim
    &&& base.tie_word_embeddings == args.tie_word_embeddings
    &&& same_scaling(base.rope_scaling, args.rope_scaling)
    &&& base.quantization == args.quantization
}

impl ModelArgs {
    /// Whether layer `i` is routed: it is not listed as plain, there are experts, and its number
    /// is a multiple of the step.
    pub open spec fn sparse(&self, i: int) -> bool {
        &&& !self.mlp_only_layers@.contains(i as i32)
        &&& self.num_experts > 0
        &&& (i + 1) % (self.decoder_sparse_step as int) == 0
    }

    /// The part of the configuration that attention needs.
    pub fn base(&self) -> (r: Qwen3Args)
        ensures
            shares_base(self, r),
    {
        Qwen3Args {
            model_type: self.model_type.clone(),
            hidden_size: self.hidden_size,
            num_hidden_layers: self.num_hidden_layers,
            intermediate_size: self.intermediate_size,
            num_attention_heads: self.num_attention_heads,
            rms_norm_eps: self.rms_norm_eps,
            vocab_size: self.vocab_size,
            num_key_value_heads: self.num_key_value_heads,
            max_position_embeddings: self.max_position_embeddings,
            rope_theta: self.rope_theta,
            head_dim: self.head_dim,
            tie_word_embeddings: self.tie_word_embeddings,
            rope_scaling: copy_scaling(&self.rope_scaling),
            quantization: self.quantization,
        }
    }

    /// Whether layer `layer_idx` is routed.
    pub fn is_sparse(&self, layer_idx: i32) -> (r: bool)
        requires
            self.decoder_sparse_step != 0,
            0 <= layer_idx < i32::MAX,
        ensures
            r == self.sparse(layer_idx as int),
    {
        let mut i: usize = 0;
        while i < self.mlp_only_layers.len()
            invariant
                i <= self.mlp_only_layers@.len(),
                forall|j: int| 0 <= j < i ==> self.mlp_only_layers@[j] != layer_idx,
            decreases self.mlp_only_layers@.len() - i,
        {
            if self.mlp_only_layers[i] == layer_idx {
                return false;
            }
            i += 1;
        }
        self.num_experts > 0 && (layer_idx + 1) % self.decoder_sparse_step == 0
    }
}

/// One packed matrix for every expert, `[experts, out, in]`.
pub struct QSwitchLinear {
    pub group_size: i32,
    pub bits: i32,
    pub weight: Array,
    pub scales: Array,
    pub biases: Array,
}

impl QSwitchLinear {
    /// The products with the matrices of the experts that `indices` picks.
    pub open spec fn apply(&self, x: Tn, indices: Tn) -> Tn {
        t_gather_qmm(
            x,
            self.weight@,
            self.scales@,
            Some(self.biases@),
            indices,
            self.group_size,
            self.bits,
        )
    }

    /// Whether these are matrices that are still to be loaded.
    pub open spec fn is_empty(&self, group_size: i32, bits: i32) -> bool {
        let zero = t_scalar(lit(ZERO_BITS));
        &&& self.group_size == group_size
        &&& self.bits == bits
        &&& zero == Ok::<Term, Exception>(self.weight@)
        &&& zero == Ok::<Term, Exception>(self.scales@)
        &&& zero == Ok::<Term, Exception>(self.biases@)
    }

    /// Matrices that are still to be loaded.
    pub fn new(group_size: i32, bits: i32) -> (r: QSwitchLinear)
        ensures
            r.is_empty(group_size, bits),
    {
        QSwitchLinear {
            group_size,
            bits,
            weight: Array::from_scalar(Scalar::lit(ZERO_BITS)),
            scales: Array::from_scalar(Scalar::lit(ZERO_BITS)),
            biases: Array::from_scalar(Scalar::lit(ZERO_BITS)),
        }
    }

    /// Multiplies by the matrices of the experts that `indices` picks.
    pub fn forward(&self, x: &Array, indices: &Array) -> (r: Result<Array, Exception>)
        ensures
            tn(r) == self.apply(Ok(x@), Ok(indices@)),
    {
        gather_qmm(
            x,
            &self.weight,
            &self.scales,
            Some(&self.biases),
            indices,
            self.group_size,
            self.bits,
        )
    }
}

impl Parameters for QSwitchLinear {
    type Frame = (i32, i32);

    open spec fn frame(&self) -> Self::Frame {
        (self.group_size, self.bits)
    }

    open spec fn param(&self, key: Seq<char>) -> Option<Term> {
        if key == "weight"@ {
            Some(self.weight@)
        } else if key == "scales"@ {
            Some(self.scales@)
        } else if key == "biases"@ {
            Some(self.biases@)
        } else {
            None
        }
    }

    fn has_param(&self, key: &str) -> bool {
        if same_text(key, "weight") {
            return true;
        }
        if same_text(key, "scales") {
            return true;
        }
        if same_text(key, "biases") {
            return true;
        }
        false
    }

    fn set_param(&mut self, key: &str, value: Array) -> bool {
        let ghost before = *self;
        if same_text(key, "weight") {
            self.weight = value;
            return true;
        }
        if same_text(key, "scales") {
            self.scales = value;
            return true;
        }
        if same_text(key, "biases") {
            self.biases = value;
            return true;
        }
        false
    }
}

/// The gated feed-forward layers of all experts: `down(silu(gate(x)) * up(x))`.
pub struct SwitchGlu {
    pub gate_proj: QSwitchLinear,
    pub up_proj: QSwitchLinear,
    pub down_proj: QSwitchLinear,
}

impl SwitchGlu {
    /// The layers of the experts that `indices` (`[B, L, k]`) picks, applied to `x` (`[B, L, D]`).
    pub open spec fn apply(&self, x: Tn, indices: Tn) -> Tn {
        let wide = t_expand_dims(t_expand_dims(x, -2i32), -2i32);
        let up = self.up_proj.apply(wide, indices);
        let gate = self.gate_proj.apply(wide, indices);
        t_squeeze(self.down_proj.apply(t_multiply(t_silu(gate), up), indices), -2i32)
    }

    /// Whether these are layers that are still to be loaded.
    pub open spec fn is_empty(&self, group_size: i32, bits: i32) -> bool {
        &&& self.gate_proj.is_empty(group_size, bits)
        &&& self.up_proj.is_empty(group_size, bits)
        &&& self.down_proj.is_empty(group_size, bits)
    }

    /// Layers that are still to be loaded.
    pub fn new(group_size: i32, bits: i32) -> (r: SwitchGlu)
        ensures
            r.is_empty(group_size, bits),
    {
        SwitchGlu {
            gate_proj: QSwitchLinear::new(group_size, bits),
            up_proj: QSwitchLinear::new(group_size, bits),
            down_proj: QSwitchLinear::new(group_size, bits),
        }
    }

    /// Applies the layers of the experts that `indices` picks; the result is `[B, L, k, D]`.
    pub fn forward(&self, x: &Array, indices: &Array) -> (r: Result<Array, Exception>)
        ensures
            tn(r) == self.apply(Ok(x@), Ok(indices@)),
    {
        let wide = x.expand_dims(-2)?.expand_dims(-2)?;
        let up = self.up_proj.forward(&wide, indices)?;
        let gate = self.gate_proj.forward(&wide, indices)?;
        let act = gate.silu()?.multiply(&up)?;
        self.down_proj.forward(&act, indices)?.squeeze(-2)
    }
}

impl Parameters for SwitchGlu {
    type Frame = (
        <QSwitchLinear as Parameters>::Frame,
        <QSwitchLinear as Parameters>::Frame,
        <QSwitchLinear as Parameters>::Frame,
    );

    open spec fn frame(&self) -> Self::Frame {
        (self.gate_proj.frame(), self.up_proj.frame(), self.down_proj.frame())
    }

    open spec fn param(&self, key: Seq<char>) -> Option<Term> {
        if begins(key, "gate_proj."@) {
            self.gate_proj.param(key.skip("gate_proj."@.len() as int))
        } else if begins(key, "up_proj."@) {
            self.up_proj.param(key.skip("up_proj."@.len() as int))
        } else if begins(key, "down_proj."@) {
            self.down_proj.param(key.skip("down_proj."@.len() as int))
        } else {
            None
        }
    }

    fn has_param(&self, key: &str) -> bool {
        match strip_prefix(key, "gate_proj.") {
            Some(rest) => {
                return self.gate_proj.has_param(rest);
            },
            None => {},
        }
        match strip_prefix(key, "up_proj.") {
            Some(rest) => {
                return self.up_proj.has_param(rest);
            },
            None => {},
        }
        match strip_prefix(key, "down_proj.") {
            Some(rest) => {
                return self.down_proj.has_param(rest);
            },
            None => {},
        }
        false
    }

    fn set_param(&mut self, key: &str, value: Array) -> bool {
        let ghost before = *self;
        match strip_prefix(key, "gate_proj.") {
            Some(rest) => {
                let ghost v = value@;
                let done = self.gate_proj.set_param(rest, value);
                proof {
                    lemma_part(before.gate_proj, self.gate_proj, key@, "gate_proj."@, v, done);
                }
                return done;
            },
            None => {},
        }
        match strip_prefix(key, "up_proj.") {
            Some(rest) => {
                let ghost v = value@;
                let done = self.up_proj.set_param(rest, value);
                proof {
                    lemma_part(before.up_proj, self.up_proj, key@, "up_proj."@, v, done);
                }
                return done;
            },
            None => {},
        }
        match strip_prefix(key, "down_proj.") {
            Some(rest) => {
                let ghost v = value@;
                let done = self.down_proj.set_param(rest, value);
                proof {
                    lemma_part(before.down_proj, self.down_proj, key@, "down_proj."@, v, done);
                }
                return done;
            },
            None => {},
        }
        false
    }
}

/// The `k` best of `n` experts of every token: the last `k` of a partial order by score.
pub open spec fn best_experts(gates: Tn, k: i32, n: i32) -> Tn {
    if k == i32::MIN || !(i32::MIN <= n - k <= i32::MAX) {
        Err(Exception::Operands)
    } else {
        t_slice(t_argpartition(gates, (-k) as i32, -1i32), 2, (n - k) as i32, OPEN)
    }
}

/// Finds the `k` best of `n` experts of every token.
pub fn pick_experts(gates: &Array, k: i32, n: i32) -> (r: Result<Array, Exception>)
    ensures
        tn(r) == best_experts(Ok(gates@), k, n),
{
    if k == -0x8000_0000 {
        return Err(Exception::Operands);
    }
    let rest: i64 = n as i64 - k as i64;
    if rest > 0x7fff_ffff || rest < -0x8000_0000 {
        return Err(Exception::Operands);
    }
    argpartition_axis(gates, -k, -1)?.slice(2, rest as i32, OPEN)
}

/// The scores of the picked experts, brought to a sum of one where asked for.
pub open spec fn expert_scores(gates: Tn, picked: Tn, normalize: bool) -> Tn {
    let scores = t_take_along(gates, picked, -1i32);
    if normalize {
        t_divide(scores, t_sum(scores, -1i32, true))
    } else {
        scores
    }
}

/// Looks up the scores of the picked experts.
pub fn score_experts(gates: &Array, picked: &Array, normalize: bool) -> (r: Result<
    Array,
    Exception,
>)
    ensures
        tn(r) == expert_scores(Ok(gates@), Ok(picked@), normalize),
{
    let scores = take_along_axis(gates, picked, -1)?;
    if normalize {
        scores.divide(&scores.sum_axis(-1, true)?)
    } else {
        Ok(scores)
    }
}

/// The outputs of the picked experts, each times its score, added up.
pub open spec fn blended(y: Tn, scores: Tn) -> Tn {
    t_sum(t_multiply(y, t_expand_dims(scores, -1i32)), -2i32, false)
}

/// Adds up the outputs of the picked experts by their scores.
pub fn blend(y: &Array, scores: &Array) -> (r: Result<Array, Exception>)
    ensures
        tn(r) == blended(Ok(y@), Ok(scores@)),
{
    y.multiply(&scores.expand_dims(-1)?)?.sum_axis(-2, false)
}

/// A feed-forward layer of routed experts.
pub struct SparseMoeBlock {
    pub top_k: i32,
    pub num_experts: i32,
    pub norm_topk_prob: bool,
    pub gate: AnyLinear,
    pub switch_mlp: SwitchGlu,
}

/// The group size and width of packed experts: those of the configuration, or 64 and 4.
pub open spec fn expert_packing(q: Option<QuantizationConfig>) -> (i32, i32) {
    match q {
        Some(q) => (q.group_size, q.bits),
        None => (64i32, 4i32),
    }
}

impl SparseMoeBlock {
    /// The layer applied to `x`.
    pub open spec fn apply(&self, x: Tn) -> Tn {
        let gates = t_softmax(t_linear(self.gate@, x), -1i32, true);
        let picked = best_experts(gates, self.top_k, self.num_experts);
        let scores = expert_scores(gates, picked, self.norm_topk_prob);
        blended(self.switch_mlp.apply(x, picked), scores)
    }

    /// Whether this is a fresh layer.
    pub open spec fn is_fresh(&self, args: &ModelArgs) -> bool {
        let (group_size, bits) = expert_packing(args.quantization);
        &&& self.top_k == args.num_experts_per_tok
        &&& self.num_experts == args.num_experts
        &&& self.norm_topk_prob == args.norm_topk_prob
        &&& linear_built(Ok(self.gate@), args.hidden_size, args.num_experts, false)
        &&& self.switch_mlp.is_empty(group_size, bits)
    }

    /// A fresh layer.
    pub fn new(args: &ModelArgs) -> (r: Result<SparseMoeBlock, Exception>)
        ensures
            match r {
                Ok(m) => m.is_fresh(args),
                Err(e) => linear_built(Err(e), args.hidden_size, args.num_experts, false),
            },
    {
        let gate = AnyLinear::linear(args.hidden_size, args.num_experts, false)?;
        let (group_size, bits): (i32, i32) = match args.quantization {
            Some(q) => (q.group_size, q.bits),
            None => (64, 4),
        };
        Ok(
            SparseMoeBlock {
                top_k: args.num_experts_per_tok,
                num_experts: args.num_experts,
                norm_topk_prob: args.norm_topk_prob,
                gate,
                switch_mlp: SwitchGlu::new(group_size, bits),
            },
        )
    }

    /// Applies the layer.
    pub fn forward(&self, x: &Array) -> (r: Result<Array, Exception>)
        ensures
            tn(r) == self.apply(Ok(x@)),
    {
        let gates = softmax_axis(&self.gate.forward(x)?, -1, true)?;
        let picked = pick_experts(&gates, self.top_k, self.num_experts)?;
        let scores = score_experts(&gates, &picked, self.norm_topk_prob)?;
        let y = self.switch_mlp.forward(x, &picked)?;
        blend(&y, &scores)
    }
}

impl Quantizable for SparseMoeBlock {
    open spec fn packs_to(
        self,
        group_size: i32,
        bits: i32,
        out: Result<SparseMoeBlock, Exception>,
    ) -> bool {
        match out {
            Ok(a) => {
                &&& self.gate.packs_to(group_size, bits, Ok(a.gate))
                &&& a == (SparseMoeBlock { gate: a.gate, ..self })
            },
            Err(e) => {
                ||| self.gate.packs_to(group_size, bits, Err(e))
            },
        }
    }

    fn quantize(self, group_size: i32, bits: i32) -> Result<SparseMoeBlock, Exception> {
        let gate = self.gate.quantize(group_size, bits)?;
        Ok(
            SparseMoeBlock {
                gate,
                top_k: self.top_k,
                num_experts: self.num_experts,
                norm_topk_prob: self.norm_topk_prob,
                switch_mlp: self.switch_mlp,
            },
        )
    }
}

impl Parameters for SparseMoeBlock {
    type Frame = (i32, i32, bool, LeafFrame, <SwitchGlu as Parameters>::Frame);

    open spec fn frame(&self) -> Self::Frame {
        (
            self.top_k,
            self.num_experts,
            self.norm_topk_prob,
            self.gate.frame(),
            self.switch_mlp.frame(),
        )
    }

    open spec fn param(&self, key: Seq<char>) -> Option<Term> {
        if begins(key, "gate."@) {
            self.gate.param(key.skip("gate."@.len() as int))
        } else if begins(key, "switch_mlp."@) {
            self.switch_mlp.param(key.skip("switch_mlp."@.len() as int))
        } else {
            None
        }
    }

    fn has_param(&self, key: &str) -> bool {
        match strip_prefix(key, "gate.") {
            Some(rest) => {
                return self.gate.has_param(rest);
            },
            None => {},
        }
        match strip_prefix(key, "switch_mlp.") {
            Some(rest) => {
                return self.switch_mlp.has_param(rest);
            },
            None => {},
        }
        false
    }

    fn set_param(&mut self, key: &str, value: Array) -> bool {
        let ghost before = *self;
        match strip_prefix(key, "gate.") {
            Some(rest) => {
                let ghost v = value@;
                let done = self.gate.set_param(rest, value);
                proof {
                    lemma_part(before.gate, self.gate, key@, "gate."@, v, done);
                }
                return done;
            },
            None => {},
        }
        match strip_prefix(key, "switch_mlp.") {
            Some(rest) => {
                let ghost v = value@;
                let done = self.switch_mlp.set_param(rest, value);
                proof {
                    lemma_part(before.switch_mlp, self.switch_mlp, key@, "switch_mlp."@, v, done);
                }
                return done;
            },
            None => {},
        }
        false
    }
}

/// A layer: attention and routed experts, each on normalized states and added to what came in.
pub struct DecoderLayer {
    pub self_attn: Attention,
    pub mlp: SparseMoeBlock,
    pub input_layernorm: RmsNorm,
    pub post_attention_layernorm: RmsNorm,
}

/// Whether layers can be laid out.
pub open spec fn layers_ready(args: &ModelArgs) -> bool {
    &&& product_fits(args.num_attention_heads, args.head_dim)
    &&& product_fits(args.num_key_value_heads, args.head_dim)
    &&& args.decoder_sparse_step != 0
}

impl DecoderLayer {
    /// Whether this is a fresh layer.
    pub open spec fn is_fresh(&self, args: &ModelArgs) -> bool {
        let eps = Scalar::Lit(args.rms_norm_eps);
        &&& exists|base: Qwen3Args| shares_base(args, base) && #[trigger] self.self_attn.is_fresh(&base)
        &&& self.mlp.is_fresh(args)
        &&& self.input_layernorm.is_fresh(args.hidden_size, eps)
        &&& self.post_attention_layernorm.is_fresh(args.hidden_size, eps)
    }

    /// Whether a layer cannot be built.
    pub open spec fn cannot_build(args: &ModelArgs, e: Exception) -> bool {
        ||| exists|base: Qwen3Args|
            shares_base(args, base) && #[trigger] Attention::cannot_build(&base, e)
        ||| linear_built(Err(e), args.hidden_size, args.num_experts, false)
        ||| RmsNorm::cannot_build(args.hidden_size, e)
    }

    /// A fresh layer.
    pub fn new(args: &ModelArgs, base: &Qwen3Args) -> (r: Result<DecoderLayer, Exception>)
        requires
            layers_ready(args),
            shares_base(args, *base),
        ensures
            match r {
                Ok(l) => l.is_fresh(args),
                Err(e) => DecoderLayer::cannot_build(args, e),
            },
    {
        let self_attn = Attention::new(base)?;
        let mlp = SparseMoeBlock::new(args)?;
        let eps = Scalar::Lit(args.rms_norm_eps);
        let input_layernorm = RmsNorm::new(args.hidden_size, eps.copy())?;
        let post_attention_layernorm = RmsNorm::new(args.hidden_size, eps)?;
        Ok(DecoderLayer { self_attn, mlp, input_layernorm, post_attention_layernorm })
    }
}

impl<C: KeyValueCache> Layer<C> for DecoderLayer {
    open spec fn windowed(&self) -> bool {
        false
    }

    fn is_windowed(&self) -> bool {
        false
    }

    open spec fn apply(
        &self,
        x: Term,
        mask: Option<Term>,
        cache: Option<C::State>,
        pads: Option<Term>,
    ) -> (Tn, Option<C::State>) {
        match self.input_layernorm.apply(Ok(x)) {
            Ok(n) => {
                let (r, after) = <Attention as Layer<C>>::apply(
                    &self.self_attn,
                    n,
                    mask,
                    cache,
                    pads,
                );
                let h = t_add(Ok(x), r);
                (t_add(h, self.mlp.apply(self.post_attention_layernorm.apply(h))), after)
            },
            Err(e) => (Err(e), cache),
        }
    }

    fn forward(&self, input: AttentionInput<'_, C>) -> Result<Array, Exception> {
        let AttentionInput { x, mask, cache, pad_offsets } = input;
        let n = self.input_layernorm.forward(x)?;
        let r = self.self_attn.forward(AttentionInput { x: &n, mask, cache, pad_offsets })?;
        let h = x.add(&r)?;
        let r = self.mlp.forward(&self.post_attention_layernorm.forward(&h)?)?;
        h.add(&r)
    }
}

impl Quantizable for DecoderLayer {
    open spec fn packs_to(
        self,
        group_size: i32,
        bits: i32,
        out: Result<DecoderLayer, Exception>,
    ) -> bool {
        match out {
            Ok(a) => {
                &&& self.self_attn.packs_to(group_size, bits, Ok(a.self_attn))
                &&& self.mlp.packs_to(group_size, bits, Ok(a.mlp))
                &&& a == (DecoderLayer { self_attn: a.self_attn, mlp: a.mlp, ..self })
            },
            Err(e) => {
                ||| self.self_attn.packs_to(group_size, bits, Err(e))
                ||| self.mlp.packs_to(group_size, bits, Err(e))
            },
        }
    }

    fn quantize(self, group_size: i32, bits: i32) -> Result<DecoderLayer, Exception> {
        let self_attn = self.self_attn.quantize(group_size, bits)?;
        let mlp = self.mlp.quantize(group_size, bits)?;
        Ok(
            DecoderLayer {
                self_attn,
                mlp,
                input_layernorm: self.input_layernorm,
                post_attention_layernorm: self.post_attention_layernorm,
            },
        )
    }
}

impl Parameters for DecoderLayer {
    type Frame = (
        <Attention as Parameters>::Frame,
        <SparseMoeBlock as Parameters>::Frame,
        <RmsNorm as Parameters>::Frame,
        <RmsNorm as Parameters>::Frame,
    );

    open spec fn frame(&self) -> Self::Frame {
        (
            self.self_attn.frame(),
            self.mlp.frame(),
            self.input_layernorm.frame(),
            self.post_attention_layernorm.frame(),
        )
    }

    open spec fn param(&self, key: Seq<char>) -> Option<Term> {
        if begins(key, "self_attn."@) {
            self.self_attn.param(key.skip("self_attn."@.len() as int))
        } else if begins(key, "mlp."@) {
            self.mlp.param(key.skip("mlp."@.len() as int))
        } else if begins(key, "input_layernorm."@) {
            self.input_layernorm.param(key.skip("input_layernorm."@.len() as int))
        } else if begins(key, "post_attention_layernorm."@) {
            self.post_attention_layernorm.param(key.skip("post_attention_layernorm."@.len() as int))
        } else {
            None
        }
    }

    fn has_param(&self, key: &str) -> bool {
        match strip_prefix(key, "self_attn.") {
            Some(rest) => {
                return self.self_attn.has_param(rest);
            },
            None => {},
        }
        match strip_prefix(key, "mlp.") {
            Some(rest) => {
                return self.mlp.has_param(rest);
            },
            None => {},
        }
        match strip_prefix(key, "input_layernorm.") {
            Some(rest) => {
                return self.input_layernorm.has_param(rest);
            },
            None => {},
        }
        match strip_prefix(key, "post_attention_layernorm.") {
            Some(rest) => {
                return self.post_attention_layernorm.has_param(rest);
            },
            None => {},
        }
        false
    }

    fn set_param(&mut self, key: &str, value: Array) -> bool {
        let ghost before = *self;
        match strip_prefix(key, "self_attn.") {
            Some(rest) => {
                let ghost v = value@;
                let done = self.self_attn.set_param(rest, value);
                proof {
                    lemma_part(before.self_attn, self.self_attn, key@, "self_attn."@, v, done);
                }
                return done;
            },
            None => {},
        }
        match strip_prefix(key, "mlp.") {
            Some(rest) => {
                let ghost v = value@;
                let done = self.mlp.set_param(rest, value);
                proof {
                    lemma_part(before.mlp, self.mlp, key@, "mlp."@, v, done);
                }
                return done;
            },
            None => {},
        }
        match strip_prefix(key, "input_layernorm.") {
            Some(rest) => {
                let ghost v = value@;
                let done = self.input_layernorm.set_param(rest, value);
                proof {
                    lemma_part(
                        before.input_layernorm,
                        self.input_layernorm,
                        key@,
                        "input_layernorm."@,
                        v,
                        done,
                    );
                }
                return done;
            },
            None => {},
        }
        match strip_prefix(key, "post_attention_layernorm.") {
            Some(rest) => {
                let ghost v = value@;
                let done = self.post_attention_layernorm.set_param(rest, value);
                proof {
                    lemma_part(
                        before.post_attention_layernorm,
                        self.post_attention_layernorm,
                        key@,
                        "post_attention_layernorm."@,
                        v,
                        done,
                    );
                }
                return done;
            },
            None => {},
        }
        false
    }
}

/// The layers of a model, between its embedding table and its last normalization.
pub struct Qwen3MoeModel {
    pub vocab_size: i32,
    pub num_hidden_layers: i32,
    pub embed_tokens: AnyEmbedding,
    pub layers: Vec<DecoderLayer>,
    pub norm: RmsNorm,
}

/// Whether one of the layers is not routed.
pub open spec fn has_dense_layer(args: &ModelArgs) -> bool {
    exists|i: int| 0 <= i < layer_count(args.num_hidden_layers) && !#[trigger] args.sparse(i)
}

impl Qwen3MoeModel {
    /// Whether these are the fresh layers of a model.
    pub open spec fn is_fresh(&self, args: &ModelArgs) -> bool {
        &&& self.vocab_size == args.vocab_size
        &&& self.num_hidden_layers == args.num_hidden_layers
        &&& table_built(Ok(self.embed_tokens@), args.vocab_size, args.hidden_size)
        &&& self.layers@.len() == layer_count(args.num_hidden_layers)
        &&& forall|i: int|
            0 <= i < self.layers@.len() ==> (#[trigger] self.layers@[i]).is_fresh(args)
        &&& self.norm.is_fresh(args.hidden_size, Scalar::Lit(args.rms_norm_eps))
        &&& !has_dense_layer(args)
    }

    /// Whether the layers cannot be built.
    pub open spec fn cannot_build(args: &ModelArgs, e: Exception) -> bool {
        ||| table_built(Err(e), args.vocab_size, args.hidden_size)
        ||| e == Exception::DenseLayer && has_dense_layer(args)
        ||| args.num_hidden_layers > 0 && DecoderLayer::cannot_build(args, e)
        ||| RmsNorm::cannot_build(args.hidden_size, e)
    }

    /// The hidden states behind all layers, and the caches.
    pub open spec fn run<C: FreshCache>(
        &self,
        ids: Term,
        mask: Option<Term>,
        slots: Seq<Option<C::State>>,
        pads: Option<Term>,
    ) -> (Tn, Seq<Option<C::State>>) {
        let (h, after) = run_decoder::<DecoderLayer, C>(
            self.layers@,
            t_embed(self.embed_tokens@, ids),
            mask,
            slots,
            pads,
        );
        (self.norm.apply(h), after)
    }

    /// Fresh layers.
    pub fn new(args: &ModelArgs) -> (r: Result<Qwen3MoeModel, Exception>)
        requires
            layers_ready(args),
        ensures
            match r {
                Ok(m) => m.is_fresh(args),
                Err(e) => Qwen3MoeModel::cannot_build(args, e),
            },
    {
        let embed_tokens = AnyEmbedding::embedding(args.vocab_size, args.hidden_size)?;
        let base = args.base();
        let mut i: i32 = 0;
        while i < args.num_hidden_layers
            invariant
                0 <= i,
                i <= args.num_hidden_layers || i == 0,
                layers_ready(args),
                forall|j: int| 0 <= j < i ==> #[trigger] args.sparse(j),
            decreases args.num_hidden_layers - i,
        {
            if !args.is_sparse(i) {
                return Err(Exception::DenseLayer);
            }
            i += 1;
        }
        let mut layers: Vec<DecoderLayer> = Vec::new();
        let mut i: i32 = 0;
        while i < args.num_hidden_layers
            invariant
                0 <= i,
                i <= args.num_hidden_layers || i == 0,
                layers_ready(args),
                shares_base(args, base),
                layers@.len() == i,
                forall|j: int| 0 <= j < i ==> (#[trigger] layers@[j]).is_fresh(args),
            decreases args.num_hidden_layers - i,
        {
            layers.push(DecoderLayer::new(args, &base)?);
            i += 1;
        }
        let norm = RmsNorm::new(args.hidden_size, Scalar::Lit(args.rms_norm_eps))?;
        Ok(
            Qwen3MoeModel {
                vocab_size: args.vocab_size,
                num_hidden_layers: args.num_hidden_layers,
                embed_tokens,
                layers,
                norm,
            },
        )
    }

    /// Runs token ids through all layers.
    pub fn forward<C: FreshCache>(&self, input: ModelInput<'_, C>) -> (r: Result<Array, Exception>)
        ensures
            (tn(r), slot_states((*final(input.cache))@)) == self.run::<C>(
                input.inputs@,
                opt_ref_term(input.mask),
                slot_states(old(input.cache)@),
                opt_ref_term(input.pad_offsets),
            ),
    {
        let ModelInput { inputs, mask, cache, pad_offsets } = input;
        let h = self.embed_tokens.forward(inputs)?;
        let h = forward_decoder(&self.layers, h, mask, cache, pad_offsets)?;
        self.norm.forward(&h)
    }
}

impl Quantizable for Qwen3MoeModel {
    open spec fn packs_to(
        self,
        group_size: i32,
        bits: i32,
        out: Result<Qwen3MoeModel, Exception>,
    ) -> bool {
        match out {
            Ok(a) => {
                &&& self.embed_tokens.packs_to(group_size, bits, Ok(a.embed_tokens))
                &&& self.layers.packs_to(group_size, bits, Ok(a.layers))
                &&& a == (Qwen3MoeModel { embed_tokens: a.embed_tokens, layers: a.layers, ..self })
            },
            Err(e) => {
                ||| self.embed_tokens.packs_to(group_size, bits, Err(e))
                ||| self.layers.packs_to(group_size, bits, Err(e))
            },
        }
    }

    fn quantize(self, group_size: i32, bits: i32) -> Result<Qwen3MoeModel, Exception> {
        let embed_tokens = self.embed_tokens.quantize(group_size, bits)?;
        let layers = self.layers.quantize(group_size, bits)?;
        Ok(
            Qwen3MoeModel {
                embed_tokens,
                layers,
                vocab_size: self.vocab_size,
                num_hidden_layers: self.num_hidden_layers,
                norm: self.norm,
            },
        )
    }
}

impl Parameters for Qwen3MoeModel {
    type Frame = (
        i32,
        i32,
        LeafFrame,
        <Vec<DecoderLayer> as Parameters>::Frame,
        <RmsNorm as Parameters>::Frame,
    );

    open spec fn frame(&self) -> Self::Frame {
        (
            self.vocab_size,
            self.num_hidden_layers,
            self.embed_tokens.frame(),
            self.layers.frame(),
            self.norm.frame(),
        )
    }

    open spec fn param(&self, key: Seq<char>) -> Option<Term> {
        if begins(key, "embed_tokens."@) {
            self.embed_tokens.param(key.skip("embed_tokens."@.len() as int))
        } else if begins(key, "layers."@) {
            self.layers.param(key.skip("layers."@.len() as int))
        } else if begins(key, "norm."@) {
            self.norm.param(key.skip("norm."@.len() as int))
        } else {
            None
        }
    }

    fn has_param(&self, key: &str) -> bool {
        match strip_prefix(key, "embed_tokens.") {
            Some(rest) => {
                return self.embed_tokens.has_param(rest);
            },
            None => {},
        }
        match strip_prefix(key, "layers.") {
            Some(rest) => {
                return self.layers.has_param(rest);
            },
            None => {},
        }
        match strip_prefix(key, "norm.") {
            Some(rest) => {
                return self.norm.has_param(rest);
            },
            None => {},
        }
        false
    }

    fn set_param(&mut self, key: &str, value: Array) -> bool {
        let ghost before = *self;
        match strip_prefix(key, "embed_tokens.") {
            Some(rest) => {
                let ghost v = value@;
                let done = self.embed_tokens.set_param(rest, value);
                proof {
                    lemma_part(
                        before.embed_tokens,
                        self.embed_tokens,
                        key@,
                        "embed_tokens."@,
                        v,
                        done,
                    );
                }
                return done;
            },
            None => {},
        }
        match strip_prefix(key, "layers.") {
            Some(rest) => {
                let ghost v = value@;
                let done = self.layers.set_param(rest, value);
                proof {
                    lemma_part(before.layers, self.layers, key@, "layers."@, v, done);
                }
                return done;
            },
            None => {},
        }
        match strip_prefix(key, "norm.") {
            Some(rest) => {
                let ghost v = value@;
                let done = self.norm.set_param(rest, value);
                proof {
                    lemma_part(before.norm, self.norm, key@, "norm."@, v, done);
                }
                return done;
            },
            None => {},
        }
        false
    }
}

/// A language model.
pub struct Model {
    pub args: ModelArgs,
    pub model: Qwen3MoeModel,
    pub lm_head: Option<AnyLinear>,
}

impl Model {
    /// Whether this is a fresh model.
    pub open spec fn is_fresh(&self) -> bool {
        &&& self.model.is_fresh(&self.args)
        &&& self.lm_head is None == self.args.tie_word_embeddings
        &&& self.lm_head matches Some(l) ==> linear_built(
            Ok(l@),
            self.args.hidden_size,
            self.args.vocab_size,
            false,
        )
    }

    /// Whether a model cannot be built.
    pub open spec fn cannot_build(args: &ModelArgs, e: Exception) -> bool {
        ||| Qwen3MoeModel::cannot_build(args, e)
        ||| !args.tie_word_embeddings && linear_built(
            Err(e),
            args.hidden_size,
            args.vocab_size,
            false,
        )
    }

    /// A fresh model.
    pub fn new(args: ModelArgs) -> (r: Result<Model, Exception>)
        requires
            layers_ready(&args),
        ensures
            match r {
                Ok(m) => m.args == args && m.is_fresh(),
                Err(e) => Model::cannot_build(&args, e),
            },
    {
        let model = Qwen3MoeModel::new(&args)?;
        let lm_head = if !args.tie_word_embeddings {
            Some(AnyLinear::linear(args.hidden_size, args.vocab_size, false)?)
        } else {
            None
        };
        Ok(Model { args, model, lm_head })
    }

    /// The name of the model family.
    pub fn model_type(&self) -> (r: &str)
        ensures
            r@ == self.args.model_type@,
    {
        self.args.model_type.as_str()
    }
}

impl<C: FreshCache> LanguageModel<C> for Model {
    open spec fn run(
        &self,
        ids: Term,
        mask: Option<Term>,
        slots: Seq<Option<C::State>>,
        pads: Option<Term>,
    ) -> (Tn, Seq<Option<C::State>>) {
        let (h, after) = self.model.run::<C>(ids, mask, slots, pads);
        (logits_of(self.lm_head, self.model.embed_tokens, h), after)
    }

    fn forward(&self, input: ModelInput<'_, C>) -> Result<Array, Exception> {
        let out = self.model.forward(input)?;
        to_logits(&self.lm_head, &self.model.embed_tokens, &out)
    }
}

impl Quantizable for Model {
    open spec fn packs_to(self, group_size: i32, bits: i32, out: Result<Model, Exception>) -> bool {
        match out {
            Ok(a) => {
                &&& self.model.packs_to(group_size, bits, Ok(a.model))
                &&& self.lm_head.packs_to(group_size, bits, Ok(a.lm_head))
                &&& a == (Model { model: a.model, lm_head: a.lm_head, ..self })
            },
            Err(e) => {
                ||| self.model.packs_to(group_size, bits, Err(e))
                ||| self.lm_head.packs_to(group_size, bits, Err(e))
            },
        }
    }

    fn quantize(self, group_size: i32, bits: i32) -> Result<Model, Exception> {
        let model = self.model.quantize(group_size, bits)?;
        let lm_head = self.lm_head.quantize(group_size, bits)?;
        Ok(Model { model, lm_head, args: self.args })
    }
}

impl Parameters for Model {
    type Frame = (ModelArgs, <Qwen3MoeModel as Parameters>::Frame, Option<LeafFrame>);

    open spec fn frame(&self) -> Self::Frame {
        (self.args, self.model.frame(), self.lm_head.frame())
    }

    open spec fn param(&self, key: Seq<char>) -> Option<Term> {
        if begins(key, "model."@) {
            self.model.param(key.skip("model."@.len() as int))
        } else if begins(key, "lm_head."@) {
            self.lm_head.param(key.skip("lm_head."@.len() as int))
        } else {
            None
        }
    }

    fn has_param(&self, key: &str) -> bool {
        match strip_prefix(key, "model.") {
            Some(rest) => {
                return self.model.has_param(rest);
            },
            None => {},
        }
        match strip_prefix(key, "lm_head.") {
            Some(rest) => {
                return self.lm_head.has_param(rest);
            },
            None => {},
        }
        false
    }

    fn set_param(&mut self, key: &str, value: Array) -> bool {
        let ghost before = *self;
        match strip_prefix(key, "model.") {
            Some(rest) => {
                let ghost v = value@;
                let done = self.model.set_param(rest, value);
                proof {
                    lemma_part(before.model, self.model, key@, "model."@, v, done);
                }
                return done;
            },
            None => {},
        }
        match strip_prefix(key, "lm_head.") {
            Some(rest) => {
                let ghost v = value@;
                let done = self.lm_head.set_param(rest, value);
                proof {
                    lemma_part(before.lm_head, self.lm_head, key@, "lm_head."@, v, done);
                }
                return done;
            },
            None => {},
        }
        false
    }
}

/// Whether `r` is the model that checkpoints of this configuration are put into: a fresh model,
/// packed where the configuration says so.
pub open spec fn built(args: ModelArgs, r: Result<Model, Exception>) -> bool {
    match r {
        Ok(m) => exists|f: Model|
            f.args == args && #[trigger] f.is_fresh() && match args.quantization {
                Some(q) => f.packs_to(q.group_size, q.bits, Ok(m)),
                None => m == f,
            },
        Err(e) => Model::cannot_build(&args, e) || exists|f: Model|
            f.args == args && #[trigger] f.is_fresh() && match args.quantization {
                Some(q) => f.packs_to(q.group_size, q.bits, Err(e)),
                None => false,
            },
    }
}

/// Builds the model that checkpoints of this configuration are put into.
pub fn build_qwen3_moe_model(args: ModelArgs) -> (r: Result<Model, Exception>)
    requires
        layers_ready(&args),
    ensures
        built(args, r),
{
    let quantization = args.quantization;
    let model = Model::new(args)?;
    proof {
        assert(model.is_fresh());
    }
    match quantization {
        Some(q) => model.quantize(q.group_size, q.bits),
        None => Ok(model),
    }
}

/// Builds the model of a configuration and puts the files of a checkpoint into it, counting for
/// each file the arrays that found a place.
pub fn load_qwen3_moe_model(args: ModelArgs, files: &Vec<Vec<(String, Array)>>) -> (r: Result<
    (Model, Vec<usize>),
    Exception,
>)
    requires
        layers_ready(&args),
    ensures
        match r {
            Ok((m, counts)) => exists|f: Model| #[trigger]
                built(args, Ok(f)) && loaded_from(
                    Remap::InnerWeight,
                    f,
                    file_entries(files@),
                    m,
                    counts@,
                ),
            Err(e) => built(args, Err(e)),
        },
{
    let mut model = build_qwen3_moe_model(args)?;
    let ghost fresh = model;
    let counts = load_files(&mut model, files, Remap::InnerWeight);
    proof {
        assert(built(args, Ok(fresh)));
    }
    Ok((model, counts))
}

/// A generator of this model.
pub type Generate<'a, C> = crate::models::generate::Generate<'a, Model, C>;

} // verus!
