//! Models whose layers alternate between full and linear attention.

use crate::array::{tn, Array, Term, Tn};
use crate::cache::{kv_empty, ConcatKeyValueCache, KeyValueCache};
use crate::error::Exception;
use crate::models::generate::{next_ids, GenerateState, StateTerm};
use crate::models::qwen3::{logits_of, to_logits};
use crate::models::qwen3_5::{
    chunk_of, layer_states, prefill_chunk_size, snapped, Attention, GatedDeltaNet, LayerCache,
    LayerState, LinearSnap, SnapState,
};
use crate::models::sampling::{
    following, next_draw, one, recent_tokens, sample_after, sampled, SamplerOpts,
};
use crate::nn::{t_embed, AnyEmbedding, AnyLinear, Quantizable, RmsNorm};
use crate::ops::elementwise::t_add;
use crate::ops::select::{t_select, t_slice};
use crate::params::{lemma_part, LeafFrame, Parameters};
use crate::scalar::Float;
use crate::text::{begins, strip_prefix};
use vstd::prelude::*;

verus! {

/// The feed-forward part of a layer.
pub trait FeedForward {
    /// The part applied to `x`.
    spec fn feed(&self, x: Term) -> Tn;

    /// Applies the part.
    fn feed_forward(&self, x: &Array) -> (r: Result<Array, Exception>)
        ensures
            tn(r) == self.feed(x@),
    ;
}

/// The feed-forward part applied to states that may have failed.
pub open spec fn fed<F: FeedForward>(f: &F, x: Tn) -> Tn {
    match x {
        Ok(t) => f.feed(t),
        Err(e) => Err(e),
    }
}

/// A layer with either sort of attention.
pub struct HybridLayer<F> {
    pub is_linear: bool,
    pub self_attn: Option<Attention>,
    pub linear_attn: Option<GatedDeltaNet>,
    pub input_layernorm: RmsNorm,
    pub post_attention_layernorm: RmsNorm,
    pub mlp: F,
}

impl<F: FeedForward> HybridLayer<F> {
    /// Whether the layer has the attention that it says it has.
    pub open spec fn wf(&self) -> bool {
        if self.is_linear {
            self.linear_attn matches Some(a) && a.wf()
        } else {
            self.self_attn matches Some(a) && a.wf()
        }
    }

    /// The attention of the layer on normalized states, and its cache.
    pub open spec fn mixed(&self, n: Term, causal: bool, cache: LayerState) -> (Tn, LayerState) {
        match (self.is_linear, cache) {
            (false, LayerState::Full(kv)) => {
                let (r, after) = self.self_attn->Some_0.apply(n, causal, Some(kv));
                (r, LayerState::Full(after->Some_0))
            },
            (true, LayerState::Linear { conv, state }) => {
                let (r, c, s) = self.linear_attn->Some_0.apply(n, conv, state);
                (r, LayerState::Linear { conv: c, state: s })
            },
            _ => (Err(Exception::CacheKind), cache),
        }
    }

    /// The layer applied to `x`, and its cache.
    #[verifier::opaque]
    pub open spec fn apply(&self, x: Term, causal: bool, cache: LayerState) -> (Tn, LayerState) {
        match self.input_layernorm.apply(Ok(x)) {
            Ok(n) => {
                let (r, after) = self.mixed(n, causal, cache);
                let h = t_add(Ok(x), r);
                (t_add(h, fed(&self.mlp, self.post_attention_layernorm.apply(h))), after)
            },
            Err(e) => (Err(e), cache),
        }
    }

    fn mix(&self, n: &Array, causal: bool, cache: &mut LayerCache) -> (r: Result<Array, Exception>)
        requires
            self.wf(),
        ensures
            (tn(r), final(cache)@) == self.mixed(n@, causal, old(cache)@),
    {
        match (self.is_linear, cache) {
            (false, LayerCache::Full(kv)) => match &self.self_attn {
                Some(a) => a.forward(n, causal, Some(kv)),
                None => Err(Exception::CacheKind),
            },
            (true, LayerCache::Linear { conv, state }) => match &self.linear_attn {
                Some(a) => a.forward(n, conv, state),
                None => Err(Exception::CacheKind),
            },
            _ => Err(Exception::CacheKind),
        }
    }

    /// Runs the layer. A cache of the wrong sort is refused.
    pub fn forward(&self, x: &Array, causal: bool, cache: &mut LayerCache) -> (r: Result<
        Array,
        Exception,
    >)
        requires
            self.wf(),
        ensures
            (tn(r), final(cache)@) == self.apply(x@, causal, old(cache)@),
    {
        proof {
            reveal(HybridLayer::apply);
        }
        let n = self.input_layernorm.forward(x)?;
        let r = self.mix(&n, causal, cache)?;
        let h = x.add(&r)?;
        let m = self.mlp.feed_forward(&self.post_attention_layernorm.forward(&h)?)?;
        h.add(&m)
    }
}

impl<F: FeedForward + Quantizable> Quantizable for HybridLayer<F> {
    open spec fn packs_to(
        self,
        group_size: i32,
        bits: i32,
        out: Result<HybridLayer<F>, Exception>,
    ) -> bool {
        match out {
            Ok(a) => {
                &&& self.self_attn.packs_to(group_size, bits, Ok(a.self_attn))
                &&& self.linear_attn.packs_to(group_size, bits, Ok(a.linear_attn))
                &&& self.mlp.packs_to(group_size, bits, Ok(a.mlp))
                &&& a == (HybridLayer {
                    self_attn: a.self_attn,
                    linear_attn: a.linear_attn,
                    mlp: a.mlp,
                    ..self
                })
            },
            Err(e) => {
                ||| self.self_attn.packs_to(group_size, bits, Err(e))
                ||| self.linear_attn.packs_to(group_size, bits, Err(e))
                ||| self.mlp.packs_to(group_size, bits, Err(e))
            },
        }
    }

    fn quantize(self, group_size: i32, bits: i32) -> Result<HybridLayer<F>, Exception> {
        let self_attn = self.self_attn.quantize(group_size, bits)?;
        let linear_attn = self.linear_attn.quantize(group_size, bits)?;
        let mlp = self.mlp.quantize(group_size, bits)?;
        Ok(
            HybridLayer {
                self_attn,
                linear_attn,
                mlp,
                is_linear: self.is_linear,
                input_layernorm: self.input_layernorm,
                post_attention_layernorm: self.post_attention_layernorm,
            },
        )
    }
}

impl<F: FeedForward + Parameters> Parameters for HybridLayer<F> {
    type Frame = (
        bool,
        <Option<Attention> as Parameters>::Frame,
        <Option<GatedDeltaNet> as Parameters>::Frame,
        <RmsNorm as Parameters>::Frame,
        <RmsNorm as Parameters>::Frame,
        <F as Parameters>::Frame,
    );

    open spec fn frame(&self) -> Self::Frame {
        (
            self.is_linear,
            self.self_attn.frame(),
            self.linear_attn.frame(),
            self.input_layernorm.frame(),
            self.post_attention_layernorm.frame(),
            self.mlp.frame(),
        )
    }

    open spec fn param(&self, key: Seq<char>) -> Option<Term> {
        if begins(key, "self_attn."@) {
            self.self_attn.param(key.skip("self_attn."@.len() as int))
        } else if begins(key, "linear_attn."@) {
            self.linear_attn.param(key.skip("linear_attn."@.len() as int))
        } else if begins(key, "input_layernorm."@) {
            self.input_layernorm.param(key.skip("input_layernorm."@.len() as int))
        } else if begins(key, "post_attention_layernorm."@) {
            self.post_attention_layernorm.param(key.skip("post_attention_layernorm."@.len() as int))
        } else if begins(key, "mlp."@) {
            self.mlp.param(key.skip("mlp."@.len() as int))
        } else {
            None
        }
    }

    fn has_param(&self, key: &str) -> bool {
        match strip_prefix(key, "self_attn.") {
            Some(rest) => {
                return self.self_attn.has_param(rest);
            },
            None => {},
        }
        match strip_prefix(key, "linear_attn.") {
            Some(rest) => {
                return self.linear_attn.has_param(rest);
            },
            None => {},
        }
        match strip_prefix(key, "input_layernorm.") {
            Some(rest) => {
                return self.input_layernorm.has_param(rest);
            },
            None => {},
        }
        match strip_prefix(key, "post_attention_layernorm.") {
            Some(rest) => {
                return self.post_attention_layernorm.has_param(rest);
            },
            None => {},
        }
        match strip_prefix(key, "mlp.") {
            Some(rest) => {
                return self.mlp.has_param(rest);
            },
            None => {},
        }
        false
    }

    fn set_param(&mut self, key: &str, value: Array) -> bool {
        let ghost before = *self;
        match strip_prefix(key, "self_attn.") {
            Some(rest) => {
                let ghost v = value@;
                let done = self.self_attn.set_param(rest, value);
                proof {
                    lemma_part(before.self_attn, self.self_attn, key@, "self_attn."@, v, done);
                }
                return done;
            },
            None => {},
        }
        match strip_prefix(key, "linear_attn.") {
            Some(rest) => {
                let ghost v = value@;
                let done = self.linear_attn.set_param(rest, value);
                proof {
                    lemma_part(
                        before.linear_attn,
                        self.linear_attn,
                        key@,
                        "linear_attn."@,
                        v,
                        done,
                    );
                }
                return done;
            },
            None => {},
        }
        match strip_prefix(key, "input_layernorm.") {
            Some(rest) => {
                let ghost v = value@;
                let done = self.input_layernorm.set_param(rest, value);
                proof {
                    lemma_part(
                        before.input_layernorm,
                        self.input_layernorm,
                        key@,
                        "input_layernorm."@,
                        v,
                        done,
                    );
                }
                return done;
            },
            None => {},
        }
        match strip_prefix(key, "post_attention_layernorm.") {
            Some(rest) => {
                let ghost v = value@;
                let done = self.post_attention_layernorm.set_param(rest, value);
                proof {
                    lemma_part(
                        before.post_attention_layernorm,
                        self.post_attention_layernorm,
                        key@,
                        "post_attention_layernorm."@,
                        v,
                        done,
                    );
                }
                return done;
            },
            None => {},
        }
        match strip_prefix(key, "mlp.") {
            Some(rest) => {
                let ghost v = value@;
                let done = self.mlp.set_param(rest, value);
                proof {
                    lemma_part(before.mlp, self.mlp, key@, "mlp."@, v, done);
                }
                return done;
            },
            None => {},
        }
        false
    }
}

/// The layers of a model, between its embedding table and its last normalization.
pub struct HybridModel<F> {
    pub embed_tokens: AnyEmbedding,
    pub layers: Vec<HybridLayer<F>>,
    pub norm: RmsNorm,
}

/// The cache that a fresh run of a layer starts from.
pub open spec fn empty_layer(is_linear: bool) -> LayerState {
    if is_linear {
        LayerState::Linear { conv: None, state: None }
    } else {
        LayerState::Full(kv_empty())
    }
}

/// The number of layers that have a cache.
pub open spec fn covered(layers: nat, caches: nat) -> nat {
    if layers <= caches {
        layers
    } else {
        caches
    }
}

/// The hidden states behind the first `n` layers, and the caches; a failure stops the run.
pub open spec fn run_hybrid<F: FeedForward>(
    layers: Seq<HybridLayer<F>>,
    h: Term,
    causal: bool,
    caches: Seq<LayerState>,
    n: nat,
) -> (Tn, Seq<LayerState>)
    decreases n,
{
    if n == 0 {
        (Ok(h), caches)
    } else {
        let (x, s) = run_hybrid(layers, h, causal, caches, (n - 1) as nat);
        match x {
            Ok(t) => {
                let (y, c) = layers[n - 1].apply(t, causal, s[n - 1]);
                (y, s.update(n - 1, c))
            },
            Err(e) => (Err(e), s),
        }
    }
}

/// A run that failed stays failed.
pub proof fn lemma_hybrid_fails<F: FeedForward>(
    layers: Seq<HybridLayer<F>>,
    h: Term,
    causal: bool,
    caches: Seq<LayerState>,
    k: nat,
    n: nat,
)
    requires
        k <= n,
        run_hybrid(layers, h, causal, caches, k).0 is Err,
    ensures
        run_hybrid(layers, h, causal, caches, n) == run_hybrid(layers, h, causal, caches, k),
    decreases n,
{
    if k < n {
        lemma_hybrid_fails(layers, h, causal, caches, k, (n - 1) as nat);
    }
}

fn forward_hybrid<F: FeedForward>(
    layers: &Vec<HybridLayer<F>>,
    h: Array,
    causal: bool,
    cache: &mut Vec<LayerCache>,
) -> (r: Result<Array, Exception>)
    requires
        forall|i: int| 0 <= i < layers@.len() ==> (#[trigger] layers@[i]).wf(),
    ensures
        final(cache)@.len() == old(cache)@.len(),
        (tn(r), layer_states(final(cache)@)) == run_hybrid(
            layers@,
            h@,
            causal,
            layer_states(old(cache)@),
            covered(layers@.len(), old(cache)@.len()),
        ),
{
    let ghost start = layer_states(cache@);
    let ghost n = covered(layers@.len(), cache@.len());
    let mut x = h.share();
    let mut i: usize = 0;
    while i < layers.len() && i < cache.len()
        invariant
            forall|i: int| 0 <= i < layers@.len() ==> (#[trigger] layers@[i]).wf(),
            i <= n,
            n == covered(layers@.len(), cache@.len()),
            cache@.len() == old(cache)@.len(),
            start == layer_states(old(cache)@),
            (Ok::<Term, Exception>(x@), layer_states(cache@)) == run_hybrid(
                layers@,
                h@,
                causal,
                start,
                i as nat,
            ),
        decreases n - i,
    {
        let ghost before = cache@;
        let y = layers[i].forward(&x, causal, &mut cache[i]);
        proof {
            let (t, s) = run_hybrid(layers@, h@, causal, start, i as nat);
            assert(s[i as int] == before[i as int]@);
            let (y2, c2) = layers@[i as int].apply(x@, causal, s[i as int]);
            assert(layer_states(cache@) =~= s.update(i as int, c2));
            assert((tn(y), layer_states(cache@)) == run_hybrid(
                layers@,
                h@,
                causal,
                start,
                (i + 1) as nat,
            ));
            if y is Err {
                lemma_hybrid_fails(layers@, h@, causal, start, (i + 1) as nat, n);
            }
        }
        x = y?;
        i += 1;
    }
    Ok(x)
}

impl<F: FeedForward> HybridModel<F> {
    /// Whether every layer has the attention that it says it has.
    pub open spec fn wf(&self) -> bool {
        forall|i: int| 0 <= i < self.layers@.len() ==> (#[trigger] self.layers@[i]).wf()
    }

    /// The hidden states of token ids, and the caches. More than one position is masked causally.
    pub open spec fn run(&self, ids: Term, caches: Seq<LayerState>) -> (Tn, Seq<LayerState>) {
        match t_embed(self.embed_tokens@, ids) {
            Ok(h) => if h.shape.len() < 2 {
                (Err(Exception::Operands), caches)
            } else {
                let (x, after) = run_hybrid(
                    self.layers@,
                    h,
                    h.shape[1] > 1,
                    caches,
                    covered(self.layers@.len(), caches.len()),
                );
                (self.norm.apply(x), after)
            },
            Err(e) => (Err(e), caches),
        }
    }

    /// An empty cache for every layer, of the sort that the layer needs.
    pub fn init_cache(&self) -> (r: Vec<LayerCache>)
        ensures
            r@.len() == self.layers@.len(),
            forall|i: int|
                0 <= i < r@.len() ==> (#[trigger] r@[i])@ == empty_layer(
                    self.layers@[i].is_linear,
                ),
    {
        let mut out: Vec<LayerCache> = Vec::new();
        let mut i: usize = 0;
        while i < self.layers.len()
            invariant
                i <= self.layers@.len(),
                out@.len() == i,
                forall|j: int|
                    0 <= j < i ==> (#[trigger] out@[j])@ == empty_layer(
                        self.layers@[j].is_linear,
                    ),
            decreases self.layers@.len() - i,
        {
            out.push(
                if self.layers[i].is_linear {
                    LayerCache::Linear { conv: None, state: None }
                } else {
                    LayerCache::Full(ConcatKeyValueCache::new())
                },
            );
            i += 1;
        }
        out
    }

    /// Runs token ids, `[B, T]`, through all layers.
    pub fn forward(&self, inputs: &Array, cache: &mut Vec<LayerCache>) -> (r: Result<
        Array,
        Exception,
    >)
        requires
            self.wf(),
        ensures
            final(cache)@.len() == old(cache)@.len(),
            (tn(r), layer_states(final(cache)@)) == self.run(
                inputs@,
                layer_states(old(cache)@),
            ),
    {
        let h = self.embed_tokens.forward(inputs)?;
        if h.ndim() < 2 {
            return Err(Exception::Operands);
        }
        let causal = h.shape()[1] > 1;
        let x = forward_hybrid(&self.layers, h, causal, cache)?;
        self.norm.forward(&x)
    }
}

impl<F: FeedForward + Quantizable> Quantizable for HybridModel<F> {
    open spec fn packs_to(
        self,
        group_size: i32,
        bits: i32,
        out: Result<HybridModel<F>, Exception>,
    ) -> bool {
        match out {
            Ok(a) => {
                &&& self.embed_tokens.packs_to(group_size, bits, Ok(a.embed_tokens))
                &&& self.layers.packs_to(group_size, bits, Ok(a.layers))
                &&& a == (HybridModel { embed_tokens: a.embed_tokens, layers: a.layers, ..self })
            },
            Err(e) => {
                ||| self.embed_tokens.packs_to(group_size, bits, Err(e))
                ||| self.layers.packs_to(group_size, bits, Err(e))
            },
        }
    }

    fn quantize(self, group_size: i32, bits: i32) -> Result<HybridModel<F>, Exception> {
        let embed_tokens = self.embed_tokens.quantize(group_size, bits)?;
        let layers = self.layers.quantize(group_size, bits)?;
        Ok(HybridModel { embed_tokens, layers, norm: self.norm })
    }
}

impl<F: FeedForward + Parameters> Parameters for HybridModel<F> {
    type Frame = (
        LeafFrame,
        <Vec<HybridLayer<F>> as Parameters>::Frame,
        <RmsNorm as Parameters>::Frame,
    );

    open spec fn frame(&self) -> Self::Frame {
        (self.embed_tokens.frame(), self.layers.frame(), self.norm.frame())
    }

    open spec fn param(&self, key: Seq<char>) -> Option<Term> {
        if begins(key, "embed_tokens."@) {
            self.embed_tokens.param(key.skip("embed_tokens."@.len() as int))
        } else if begins(key, "layers."@) {
            self.layers.param(key.skip("layers."@.len() as int))
        } else if begins(key, "norm."@) {
            self.norm.param(key.skip("norm."@.len() as int))
        } else {
            None
        }
    }

    fn has_param(&self, key: &str) -> bool {
        match strip_prefix(key, "embed_tokens.") {
            Some(rest) => {
                return self.embed_tokens.has_param(rest);
            },
            None => {},
        }
        match strip_prefix(key, "layers.") {
            Some(rest) => {
                return self.layers.has_param(rest);
            },
            None => {},
        }
        match strip_prefix(key, "norm.") {
            Some(rest) => {
                return self.norm.has_param(rest);
            },
            None => {},
        }
        false
    }

    fn set_param(&mut self, key: &str, value: Array) -> bool {
        let ghost before = *self;
        match strip_prefix(key, "embed_tokens.") {
            Some(rest) => {
                let ghost v = value@;
                let done = self.embed_tokens.set_param(rest, value);
                proof {
                    lemma_part(
                        before.embed_tokens,
                        self.embed_tokens,
                        key@,
                        "embed_tokens."@,
                        v,
                        done,
                    );
                }
                return done;
            },
            None => {},
        }
        match strip_prefix(key, "layers.") {
            Some(rest) => {
                let ghost v = value@;
                let done = self.layers.set_param(rest, value);
                proof {
                    lemma_part(before.layers, self.layers, key@, "layers."@, v, done);
                }
                return done;
            },
            None => {},
        }
        match strip_prefix(key, "norm.") {
            Some(rest) => {
                let ghost v = value@;
                let done = self.norm.set_param(rest, value);
                proof {
                    lemma_part(before.norm, self.norm, key@, "norm."@, v, done);
                }
                return done;
            },
            None => {},
        }
        false
    }
}

/// A language model with its head.
pub struct HybridLm<A, F> {
    pub args: A,
    pub model: HybridModel<F>,
    pub lm_head: Option<AnyLinear>,
}

/// How far the reading of a prompt has come: the next position to read, the caches, and the
/// hidden states of the last position once it was read, or why it was not.
pub struct Progress {
    pub start: int,
    pub caches: Seq<LayerState>,
    pub out: Option<Tn>,
}

/// The end of the chunk that begins at `start`.
pub open spec fn chunk_end(start: int, chunk: i32, t: i32) -> int {
    if start + chunk < t {
        start + chunk
    } else {
        t as int
    }
}

/// The reading of one more chunk. Of the last chunk the last position is kept.
pub open spec fn chunk_read<F: FeedForward>(
    model: &HybridModel<F>,
    ids: Term,
    chunk: i32,
    p: Progress,
) -> Progress {
    let t = ids.shape[1];
    let end = chunk_end(p.start, chunk, t);
    match t_slice(Ok(ids), 1, p.start as i32, end as i32) {
        Err(e) => Progress { out: Some(Err(e)), ..p },
        Ok(piece) => {
            let (h, caches) = model.run(piece, p.caches);
            match h {
                Err(e) => Progress { start: p.start, caches, out: Some(Err(e)) },
                Ok(_) => if end == t {
                    let l = end - p.start;
                    Progress {
                        start: p.start,
                        caches,
                        out: Some(t_slice(h, 1, (l - 1) as i32, l as i32)),
                    }
                } else {
                    Progress { start: end, caches, out: None }
                },
            }
        },
    }
}

/// The reading of a prompt after at most `k` chunks.
pub open spec fn chunks_read<F: FeedForward>(
    model: &HybridModel<F>,
    ids: Term,
    caches: Seq<LayerState>,
    chunk: i32,
    k: nat,
) -> Progress
    decreases k,
{
    if k == 0 {
        Progress { start: 0, caches, out: None }
    } else {
        let p = chunks_read(model, ids, caches, chunk, (k - 1) as nat);
        if p.out is Some {
            p
        } else {
            chunk_read(model, ids, chunk, p)
        }
    }
}

/// Reading that has ended does not go on.
pub proof fn lemma_chunks_end<F: FeedForward>(
    model: &HybridModel<F>,
    ids: Term,
    caches: Seq<LayerState>,
    chunk: i32,
    k: nat,
    n: nat,
)
    requires
        k <= n,
        chunks_read(model, ids, caches, chunk, k).out is Some,
    ensures
        chunks_read(model, ids, caches, chunk, n) == chunks_read(model, ids, caches, chunk, k),
    decreases n,
{
    if k < n {
        lemma_chunks_end(model, ids, caches, chunk, k, (n - 1) as nat);
    }
}

/// The whole reading of a prompt.
pub open spec fn prompt_read<F: FeedForward>(
    model: &HybridModel<F>,
    ids: Term,
    caches: Seq<LayerState>,
    chunk: i32,
) -> Progress {
    chunks_read(model, ids, caches, chunk, (ids.shape[1] + 1) as nat)
}

/// A step of reading a prompt.
pub enum ReadStep {
    /// The reading was stopped.
    Stopped,
    /// A chunk was read, and the next one begins at `next`.
    More { next: i32 },
    /// The prompt was read to its end; these are the logits of its last position.
    Done(Array),
}

/// The value of a step of reading.
pub enum StepTerm {
    Stopped,
    More(int),
    Done(Tn),
}

/// The value of a step that may have failed.
pub open spec fn step_outcome(r: Result<ReadStep, Exception>) -> StepTerm {
    match r {
        Ok(ReadStep::Stopped) => StepTerm::Stopped,
        Ok(ReadStep::More { next }) => StepTerm::More(next as int),
        Ok(ReadStep::Done(l)) => StepTerm::Done(Ok(l@)),
        Err(e) => StepTerm::Done(Err(e)),
    }
}

/// How far the reading of a prompt has come that asks before every chunk whether to stop.
pub struct Polling {
    pub stopped: bool,
    pub progress: Progress,
}

impl Polling {
    /// Whether the reading asks no more.
    pub open spec fn ended(self) -> bool {
        self.stopped || self.progress.out is Some
    }
}

/// One more answer: a yes stops the reading where it is, a no lets it read the next chunk.
pub open spec fn polled_step<F: FeedForward>(
    model: &HybridModel<F>,
    ids: Term,
    chunk: i32,
    p: Polling,
    stop: bool,
) -> Polling {
    if p.ended() {
        p
    } else if stop {
        Polling { stopped: true, progress: p.progress }
    } else {
        Polling { stopped: false, progress: chunk_read(model, ids, chunk, p.progress) }
    }
}

/// The reading of a prompt with these answers.
pub open spec fn polled<F: FeedForward>(
    model: &HybridModel<F>,
    ids: Term,
    caches: Seq<LayerState>,
    chunk: i32,
    answers: Seq<bool>,
) -> Polling
    decreases answers.len(),
{
    if answers.len() == 0 {
        Polling { stopped: false, progress: Progress { start: 0, caches, out: None } }
    } else {
        polled_step(
            model,
            ids,
            chunk,
            polled(model, ids, caches, chunk, answers.drop_last()),
            answers.last(),
        )
    }
}

/// Whether the reading of a prompt ends with the last of these answers, and not before.
pub open spec fn read_through<F: FeedForward>(
    model: &HybridModel<F>,
    ids: Term,
    caches: Seq<LayerState>,
    chunk: i32,
    answers: Seq<bool>,
) -> bool {
    &&& answers.len() > 0
    &&& polled(model, ids, caches, chunk, answers).ended()
    &&& !polled(model, ids, caches, chunk, answers.drop_last()).ended()
}

/// Whether these are answers that a question can give.
pub open spec fn asked<G: Fn() -> bool>(should_cancel: G, answers: Seq<bool>) -> bool {
    forall|j: int| 0 <= j < answers.len() ==> call_ensures(should_cancel, (), #[trigger] answers[j])
}

/// The outcome of a reading that may have been stopped.
pub open spec fn reading_outcome(r: Result<Option<Array>, Exception>) -> Option<Tn> {
    match r {
        Ok(Some(l)) => Some(Ok(l@)),
        Ok(None) => None,
        Err(e) => Some(Err(e)),
    }
}

impl<A, F: FeedForward> HybridLm<A, F> {
    /// The outcome of a polled reading: nothing where it was stopped, and otherwise the logits of
    /// the last position; and the caches.
    pub open spec fn polled_outcome(&self, p: Polling) -> (Option<Tn>, Seq<LayerState>) {
        (
            if p.stopped {
                None
            } else {
                Some(self.projected(p.progress.out->Some_0))
            },
            p.progress.caches,
        )
    }

    /// One step of reading a prompt from `start`, and the caches.
    pub open spec fn read_step(
        &self,
        ids: Term,
        caches: Seq<LayerState>,
        chunk: i32,
        start: int,
        stop: bool,
    ) -> (StepTerm, Seq<LayerState>) {
        if stop {
            (StepTerm::Stopped, caches)
        } else {
            let p = chunk_read(&self.model, ids, chunk, Progress { start, caches, out: None });
            match p.out {
                None => (StepTerm::More(p.start), p.caches),
                Some(h) => (StepTerm::Done(self.projected(h)), p.caches),
            }
        }
    }

    /// The logits of hidden states.
    pub open spec fn projected(&self, h: Tn) -> Tn {
        logits_of(self.lm_head, self.model.embed_tokens, h)
    }

    /// The logits of token ids, and the caches.
    pub open spec fn run(&self, ids: Term, caches: Seq<LayerState>) -> (Tn, Seq<LayerState>) {
        let (h, after) = self.model.run(ids, caches);
        (self.projected(h), after)
    }

    /// The logits of the last position of a prompt, and the caches.
    pub open spec fn prefilled(&self, ids: Term, caches: Seq<LayerState>, chunk: i32) -> (
        Tn,
        Seq<LayerState>,
    ) {
        let p = prompt_read(&self.model, ids, caches, chunk);
        (self.projected(p.out->Some_0), p.caches)
    }

    /// Computes the logits of token ids.
    pub fn forward(&self, inputs: &Array, cache: &mut Vec<LayerCache>) -> (r: Result<
        Array,
        Exception,
    >)
        requires
            self.model.wf(),
        ensures
            (tn(r), layer_states(final(cache)@)) == self.run(
                inputs@,
                layer_states(old(cache)@),
            ),
    {
        let out = self.model.forward(inputs, cache)?;
        self.project(&out)
    }

    /// Computes the logits of hidden states.
    pub fn project(&self, hidden: &Array) -> (r: Result<Array, Exception>)
        ensures
            tn(r) == self.projected(Ok(hidden@)),
    {
        to_logits(&self.lm_head, &self.model.embed_tokens, hidden)
    }

    /// Sets whether the model is being trained, which changes nothing here.
    pub fn training_mode(&mut self, _mode: bool)
        ensures
            *final(self) == *old(self),
    {
    }

    /// An empty cache for every layer.
    pub fn init_cache(&self) -> (r: Vec<LayerCache>)
        ensures
            r@.len() == self.model.layers@.len(),
            forall|i: int|
                0 <= i < r@.len() ==> (#[trigger] r@[i])@ == empty_layer(
                    self.model.layers@[i].is_linear,
                ),
    {
        self.model.init_cache()
    }

    /// Reads a prompt, `[B, T]`, in chunks of the size that a setting asks for, and computes the
    /// logits of its last position.
    pub fn prefill(
        &self,
        inputs: &Array,
        cache: &mut Vec<LayerCache>,
        setting: Option<&str>,
    ) -> (r: Result<Array, Exception>)
        requires
            self.model.wf(),
            inputs@.shape.len() >= 2,
            0 <= inputs@.shape[1] < i32::MAX,
        ensures
            (tn(r), layer_states(final(cache)@)) == self.prefilled(
                inputs@,
                layer_states(old(cache)@),
                chunk_of(
                    match setting {
                        Some(s) => Some(s@),
                        None => None,
                    },
                ),
            ),
    {
        self.prefill_chunked(inputs, cache, prefill_chunk_size(setting))
    }

    /// Reads a prompt in chunks of `chunk` tokens.
    pub fn prefill_chunked(
        &self,
        inputs: &Array,
        cache: &mut Vec<LayerCache>,
        chunk: i32,
    ) -> (r: Result<Array, Exception>)
        requires
            self.model.wf(),
            inputs@.shape.len() >= 2,
            0 <= inputs@.shape[1] < i32::MAX,
            chunk > 0,
        ensures
            (tn(r), layer_states(final(cache)@)) == self.prefilled(
                inputs@,
                layer_states(old(cache)@),
                chunk,
            ),
    {
        let never = || -> (b: bool)
            ensures
                !b,
            { false };
        match self.prefill_cancellable(inputs, cache, chunk, never)? {
            Some(l) => Ok(l),
            None => Err(Exception::Operands),
        }
    }

    /// Reads the chunk of a prompt that begins at `start`, or stops where it is told to. Between
    /// two steps the caller can compute the caches, so that no graph spans the whole prompt.
    pub fn prefill_step(
        &self,
        inputs: &Array,
        cache: &mut Vec<LayerCache>,
        chunk: i32,
        start: i32,
        stop: bool,
    ) -> (r: Result<ReadStep, Exception>)
        requires
            self.model.wf(),
            inputs@.shape.len() >= 2,
            0 <= inputs@.shape[1],
            start == 0 || 0 < start < inputs@.shape[1],
            chunk > 0,
        ensures
            (step_outcome(r), layer_states(final(cache)@)) == self.read_step(
                inputs@,
                layer_states(old(cache)@),
                chunk,
                start as int,
                stop,
            ),
    {
        if stop {
            return Ok(ReadStep::Stopped);
        }
        let t: i32 = inputs.shape()[1];
        let end: i32 = if chunk < t - start {
            start + chunk
        } else {
            t
        };
        proof {
            assert(end == chunk_end(start as int, chunk, t));
        }
        let piece = inputs.slice(1, start, end)?;
        let hidden = self.model.forward(&piece, cache)?;
        if end == t {
            let l: i32 = end - start;
            let last = hidden.slice(1, l - 1, l)?;
            return Ok(ReadStep::Done(self.project(&last)?));
        }
        Ok(ReadStep::More { next: end })
    }

    /// Reads a prompt in chunks, asking before each whether to stop; `None` says that it stopped,
    /// with the caches behind the chunks read so far. It asks once before each chunk and not again
    /// once the answer was yes.
    pub fn prefill_cancellable<G: Fn() -> bool>(
        &self,
        inputs: &Array,
        cache: &mut Vec<LayerCache>,
        chunk: i32,
        should_cancel: G,
    ) -> (r: Result<Option<Array>, Exception>)
        requires
            self.model.wf(),
            inputs@.shape.len() >= 2,
            0 <= inputs@.shape[1] < i32::MAX,
            chunk > 0,
            call_requires(should_cancel, ()),
        ensures
            exists|answers: Seq<bool>|
                {
                    &&& asked(should_cancel, answers)
                    &&& #[trigger] read_through(
                        &self.model,
                        inputs@,
                        layer_states(old(cache)@),
                        chunk,
                        answers,
                    )
                    &&& (reading_outcome(r), layer_states(final(cache)@)) == self.polled_outcome(
                        polled(
                            &self.model,
                            inputs@,
                            layer_states(old(cache)@),
                            chunk,
                            answers,
                        ),
                    )
                },
            match r {
                Ok(Some(l)) => (Ok::<Term, Exception>(l@), layer_states(final(cache)@))
                    == self.prefilled(inputs@, layer_states(old(cache)@), chunk),
                Err(e) => (Err::<Term, Exception>(e), layer_states(final(cache)@))
                    == self.prefilled(inputs@, layer_states(old(cache)@), chunk),
                Ok(None) => call_ensures(should_cancel, (), true),
            },
    {
        let t: i32 = inputs.shape()[1];
        let mut start: i32 = 0;
        let ghost first = layer_states(cache@);
        let ghost mut answers: Seq<bool> = Seq::empty();
        loop
            invariant
                self.model.wf(),
                t == inputs@.shape[1],
                inputs@.shape.len() >= 2,
                0 <= t < i32::MAX,
                chunk > 0,
                call_requires(should_cancel, ()),
                first == layer_states(old(cache)@),
                start == 0 || 0 < start < t,
                answers.len() <= start,
                asked(should_cancel, answers),
                chunks_read(&self.model, inputs@, first, chunk, answers.len()) == (Progress {
                    start: start as int,
                    caches: layer_states(cache@),
                    out: None,
                }),
                polled(&self.model, inputs@, first, chunk, answers) == (Polling {
                    stopped: false,
                    progress: Progress {
                        start: start as int,
                        caches: layer_states(cache@),
                        out: None,
                    },
                }),
            decreases t - start,
        {
            let stop = should_cancel();
            let ghost more = answers.push(stop);
            let ghost k = answers.len();
            proof {
                assert(more.drop_last() =~= answers);
                assert forall|j: int| 0 <= j < more.len() implies call_ensures(
                    should_cancel,
                    (),
                    #[trigger] more[j],
                ) by {
                    if j < k {
                        assert(more[j] == answers[j]);
                    }
                }
                let p = chunks_read(&self.model, inputs@, first, chunk, k);
                let next = chunks_read(&self.model, inputs@, first, chunk, k + 1);
                assert(next == chunk_read(&self.model, inputs@, chunk, p));
                assert(polled(&self.model, inputs@, first, chunk, more) == polled_step(
                    &self.model,
                    inputs@,
                    chunk,
                    polled(&self.model, inputs@, first, chunk, answers),
                    stop,
                ));
                if next.out is Some {
                    lemma_chunks_end(&self.model, inputs@, first, chunk, k + 1, (t + 1) as nat);
                }
                if stop || next.out is Some {
                    assert(read_through(&self.model, inputs@, first, chunk, more));
                }
            }
            match self.prefill_step(inputs, cache, chunk, start, stop)? {
                ReadStep::Stopped => {
                    return Ok(None);
                },
                ReadStep::Done(l) => {
                    return Ok(Some(l));
                },
                ReadStep::More { next } => {
                    start = next;
                },
            }
            proof {
                answers = more;
            }
        }
    }
}

impl<A, F: FeedForward + Quantizable> Quantizable for HybridLm<A, F> {
    open spec fn packs_to(
        self,
        group_size: i32,
        bits: i32,
        out: Result<HybridLm<A, F>, Exception>,
    ) -> bool {
        match out {
            Ok(a) => {
                &&& self.model.packs_to(group_size, bits, Ok(a.model))
                &&& self.lm_head.packs_to(group_size, bits, Ok(a.lm_head))
                &&& a == (HybridLm { model: a.model, lm_head: a.lm_head, ..self })
            },
            Err(e) => {
                ||| self.model.packs_to(group_size, bits, Err(e))
                ||| self.lm_head.packs_to(group_size, bits, Err(e))
            },
        }
    }

    fn quantize(self, group_size: i32, bits: i32) -> Result<HybridLm<A, F>, Exception> {
        let model = self.model.quantize(group_size, bits)?;
        let lm_head = self.lm_head.quantize(group_size, bits)?;
        Ok(HybridLm { model, lm_head, args: self.args })
    }
}

impl<A, F: FeedForward + Parameters> Parameters for HybridLm<A, F> {
    type Frame = (A, <HybridModel<F> as Parameters>::Frame, Option<LeafFrame>);

    open spec fn frame(&self) -> Self::Frame {
        (self.args, self.model.frame(), self.lm_head.frame())
    }

    open spec fn param(&self, key: Seq<char>) -> Option<Term> {
        if begins(key, "model."@) {
            self.model.param(key.skip("model."@.len() as int))
        } else if begins(key, "lm_head."@) {
            self.lm_head.param(key.skip("lm_head."@.len() as int))
        } else {
            None
        }
    }

    fn has_param(&self, key: &str) -> bool {
        match strip_prefix(key, "model.") {
            Some(rest) => {
                return self.model.has_param(rest);
            },
            None => {},
        }
        match strip_prefix(key, "lm_head.") {
            Some(rest) => {
                return self.lm_head.has_param(rest);
            },
            None => {},
        }
        false
    }

    fn set_param(&mut self, key: &str, value: Array) -> bool {
        let ghost before = *self;
        match strip_prefix(key, "model.") {
            Some(rest) => {
                let ghost v = value@;
                let done = self.model.set_param(rest, value);
                proof {
                    lemma_part(before.model, self.model, key@, "model."@, v, done);
                }
                return done;
            },
            None => {},
        }
        match strip_prefix(key, "lm_head.") {
            Some(rest) => {
                let ghost v = value@;
                let done = self.lm_head.set_param(rest, value);
                proof {
                    lemma_part(before.lm_head, self.lm_head, key@, "lm_head."@, v, done);
                }
                return done;
            },
            None => {},
        }
        false
    }
}

/// The snapshots of a list of caches.
pub open spec fn snaps_of(caches: Seq<LayerState>) -> Seq<SnapState> {
    Seq::new(caches.len(), |i: int| snapped(caches[i]))
}

/// The values of a list of snapshots.
pub open spec fn snap_views(v: Seq<LinearSnap>) -> Seq<SnapState> {
    Seq::new(v.len(), |i: int| v[i]@)
}

/// The value of a list of snapshots that may not have been taken.
pub open spec fn snapshot_view(v: Option<Vec<LinearSnap>>) -> Option<Seq<SnapState>> {
    match v {
        Some(v) => Some(snap_views(v@)),
        None => None,
    }
}

fn take_snapshots(cache: &Vec<LayerCache>) -> (r: Vec<LinearSnap>)
    ensures
        snap_views(r@) == snaps_of(layer_states(cache@)),
{
    let mut out: Vec<LinearSnap> = Vec::new();
    let mut i: usize = 0;
    while i < cache.len()
        invariant
            i <= cache@.len(),
            out@.len() == i,
            forall|j: int| 0 <= j < i ==> (#[trigger] out@[j])@ == snapped(cache@[j]@),
        decreases cache@.len() - i,
    {
        out.push(cache[i].snapshot());
        i += 1;
    }
    proof {
        assert(snap_views(out@) =~= snaps_of(layer_states(cache@)));
    }
    out
}

/// What reading a prompt gives: the logits of its last position or of its last part, the caches,
/// and the snapshots taken on the way.
pub struct PromptOutcome {
    pub logits: Tn,
    pub caches: Seq<LayerState>,
    pub snapshot: Option<Seq<SnapState>>,
}

/// Whether a prompt of `t` tokens is read in two parts, the second being the last `tail` tokens.
pub open spec fn splits(t: i32, tail: i32) -> bool {
    0 < tail <= t
}

/// The part of a prompt that is read in chunks: all of it, or what comes before its last part.
pub open spec fn chunked_part(ids: Term, tail: i32) -> Tn {
    if splits(ids.shape[1], tail) {
        t_slice(Ok(ids), 1, 0, (ids.shape[1] - tail) as i32)
    } else {
        Ok(ids)
    }
}

/// Whether a prompt has a batch axis and an axis of positions.
pub open spec fn readable(ids: Term) -> bool {
    ids.shape.len() >= 2 && 0 <= ids.shape[1] < i32::MAX
}

/// Whether a part of a prompt is read in chunks: its last `tail` tokens are not all of it.
pub open spec fn in_chunks(ids: Term, tail: i32) -> bool {
    !(splits(ids.shape[1], tail) && tail == ids.shape[1])
}

/// The end of the reading of a prompt whose chunked part was read, with its logits and the caches:
/// the snapshots are taken, and the last part is read at once where it is set apart.
pub open spec fn concluded<A, F: FeedForward>(
    model: &HybridLm<A, F>,
    ids: Term,
    tail: i32,
    head: (Tn, Seq<LayerState>),
) -> PromptOutcome {
    let t = ids.shape[1];
    match head.0 {
        Err(e) => PromptOutcome { logits: Err(e), caches: head.1, snapshot: None },
        Ok(l) => if splits(t, tail) {
            match t_slice(Ok(ids), 1, (t - tail) as i32, t) {
                Err(e) => PromptOutcome {
                    logits: Err(e),
                    caches: head.1,
                    snapshot: Some(snaps_of(head.1)),
                },
                Ok(part) => {
                    let (l, after) = model.run(part, head.1);
                    PromptOutcome { logits: l, caches: after, snapshot: Some(snaps_of(head.1)) }
                },
            }
        } else {
            PromptOutcome { logits: Ok(l), caches: head.1, snapshot: Some(snaps_of(head.1)) }
        },
    }
}

/// The reading of a prompt whose last `tail` tokens are set apart: what comes before them is read
/// in chunks, then the snapshots are taken, then the last part is read at once. Without such a part
/// the snapshots are taken at the end.
pub open spec fn prompt_outcome<A, F: FeedForward>(
    model: &HybridLm<A, F>,
    ids: Term,
    caches: Seq<LayerState>,
    chunk: i32,
    tail: i32,
) -> PromptOutcome {
    if in_chunks(ids, tail) {
        match chunked_part(ids, tail) {
            Ok(part) => concluded(model, ids, tail, model.prefilled(part, caches, chunk)),
            Err(e) => PromptOutcome { logits: Err(e), caches, snapshot: None },
        }
    } else {
        concluded(model, ids, tail, (Ok(ids), caches))
    }
}

/// What going on with a prompt gives: the reading is stopped, or has come to a position, or has
/// ended.
pub enum WentOn {
    Stopped,
    More(int, Seq<LayerState>),
    Done(PromptOutcome),
}

/// Going on with a prompt of which `read` positions were read.
pub open spec fn went_on<A, F: FeedForward>(
    model: &HybridLm<A, F>,
    ids: Term,
    caches: Seq<LayerState>,
    chunk: i32,
    tail: i32,
    read: int,
    stop: bool,
) -> WentOn {
    if !in_chunks(ids, tail) {
        WentOn::Done(concluded(model, ids, tail, (Ok(ids), caches)))
    } else {
        match chunked_part(ids, tail) {
            Err(e) => WentOn::Done(
                PromptOutcome { logits: Err(e), caches, snapshot: None },
            ),
            Ok(part) => if read == 0 || 0 < read < part.shape[1] {
                match model.read_step(part, caches, chunk, read, stop) {
                    (StepTerm::Stopped, _) => WentOn::Stopped,
                    (StepTerm::More(next), after) => WentOn::More(next, after),
                    (StepTerm::Done(l), after) => WentOn::Done(
                        concluded(model, ids, tail, (l, after)),
                    ),
                }
            } else {
                WentOn::Done(
                    PromptOutcome { logits: Err(Exception::Operands), caches, snapshot: None },
                )
            },
        }
    }
}

/// Where a generator stands: what it reads next, its caches, how much of the prompt was read, the
/// snapshots, and the number of the next draw.
pub struct Standing {
    pub state: StateTerm,
    pub caches: Seq<LayerState>,
    pub read: int,
    pub snapshot: Option<Seq<SnapState>>,
    pub draws: u64,
}

/// What a step of a generator gives.
pub enum Advanced {
    Stopped,
    Reading,
    Token(Tn),
}

/// What a generator goes by.
pub struct Course {
    pub chunk: i32,
    pub tail: i32,
    pub opts: SamplerOpts,
    pub history: Seq<u32>,
}

/// The token that is sampled from logits, and where the generator stands then. A failure leaves it
/// where it stood, with the caches and snapshots that were reached.
pub open spec fn told(c: Course, s: Standing, o: PromptOutcome) -> (Advanced, Standing) {
    let y = sampled(
        t_select(o.logits, 1, -1i32),
        c.opts,
        recent_tokens(c.opts, c.history),
        s.draws,
    );
    (
        Advanced::Token(y),
        Standing {
            state: match y {
                Ok(t) => StateTerm::Decode(t),
                Err(_) => s.state,
            },
            caches: o.caches,
            read: 0,
            snapshot: latest(o.snapshot, s.snapshot),
            draws: match y {
                Ok(_) => following(s.draws),
                Err(_) => s.draws,
            },
        },
    )
}

/// The reading of the last token.
pub open spec fn decoded<A, F: FeedForward>(model: &HybridLm<A, F>, s: Standing) -> PromptOutcome {
    match next_ids(s.state) {
        Ok(ids) => {
            let (l, after) = model.run(ids, s.caches);
            PromptOutcome { logits: l, caches: after, snapshot: None }
        },
        Err(e) => PromptOutcome { logits: Err(e), caches: s.caches, snapshot: None },
    }
}

/// A failure before anything was read.
pub open spec fn unread(s: Standing) -> PromptOutcome {
    PromptOutcome { logits: Err(Exception::Operands), caches: s.caches, snapshot: None }
}

/// One step of a generator, which reads a chunk of the prompt or builds a token.
pub open spec fn advanced<A, F: FeedForward>(
    model: &HybridLm<A, F>,
    c: Course,
    s: Standing,
    stop: bool,
) -> (Advanced, Standing) {
    match s.state {
        StateTerm::Decode(_) => told(c, s, decoded(model, s)),
        StateTerm::Prefill(ids) => if readable(ids) {
            match went_on(model, ids, s.caches, c.chunk, c.tail, s.read, stop) {
                WentOn::Stopped => (Advanced::Stopped, Standing { read: 0, ..s }),
                WentOn::More(next, caches) => (
                    Advanced::Reading,
                    Standing { read: next, caches, ..s },
                ),
                WentOn::Done(o) => told(c, s, o),
            }
        } else {
            told(c, s, unread(s))
        },
    }
}

/// The next token of a generator, with the whole prompt read where it was not, and where the
/// generator stands then.
pub open spec fn stepped<A, F: FeedForward>(
    model: &HybridLm<A, F>,
    c: Course,
    s: Standing,
) -> (Advanced, Standing) {
    told(
        c,
        s,
        match s.state {
            StateTerm::Decode(_) => decoded(model, s),
            StateTerm::Prefill(ids) => if readable(ids) {
                prompt_outcome(model, ids, s.caches, c.chunk, c.tail)
            } else {
                unread(s)
            },
        },
    )
}

/// The part of the prompt before whose chunks a generator asks whether to stop.
pub open spec fn polled_part(c: Course, s: Standing) -> Option<Term> {
    match s.state {
        StateTerm::Prefill(ids) => if readable(ids) && in_chunks(ids, c.tail) {
            match chunked_part(ids, c.tail) {
                Ok(part) => Some(part),
                Err(_) => None,
            }
        } else {
            None
        },
        StateTerm::Decode(_) => None,
    }
}

/// The snapshots to keep: those just taken, or else the earlier ones.
pub open spec fn latest(
    taken: Option<Seq<SnapState>>,
    kept: Option<Seq<SnapState>>,
) -> Option<Seq<SnapState>> {
    match taken {
        Some(s) => Some(s),
        None => kept,
    }
}

/// A generator that owns its caches. It reads text: there is no place for the features of images in
/// the prompt, nor for the positions that tokens have beside an image.
pub struct Generate<'a, A, F> {
    pub model: &'a HybridLm<A, F>,
    pub cache: Vec<LayerCache>,
    pub sampler: SamplerOpts,
    pub history: Vec<u32>,
    pub state: GenerateState<'a>,
    /// The snapshots taken when the prompt was read.
    pub prefill_snapshot: Option<Vec<LinearSnap>>,
    /// The number of tokens at the end of the prompt that the snapshots leave out.
    pub gen_prompt_len: i32,
    /// The number of prompt tokens read at once.
    pub chunk: i32,
    /// The number of prompt tokens that [`Generate::advance`] has read.
    pub read: i32,
    /// The number of the next draw.
    pub draws: u64,
}

/// A step of a generator.
pub enum Advance {
    /// The reading of the prompt was stopped.
    Stopped,
    /// A chunk of the prompt was read.
    Reading,
    /// The next token.
    Token(Array),
}

/// The value of a step that may have failed.
pub open spec fn advance_outcome(r: Result<Advance, Exception>) -> Advanced {
    match r {
        Ok(Advance::Stopped) => Advanced::Stopped,
        Ok(Advance::Reading) => Advanced::Reading,
        Ok(Advance::Token(y)) => Advanced::Token(Ok(y@)),
        Err(e) => Advanced::Token(Err(e)),
    }
}

impl<'a, A, F: FeedForward> Generate<'a, A, F> {
    /// Whether the generator can run.
    pub open spec fn wf(&self) -> bool {
        self.model.model.wf() && self.chunk > 0 && self.gen_prompt_len >= 0
    }

    /// Where the generator stands.
    pub open spec fn standing(&self) -> Standing {
        Standing {
            state: self.state@,
            caches: layer_states(self.cache@),
            read: self.read as int,
            snapshot: snapshot_view(self.prefill_snapshot),
            draws: self.draws,
        }
    }

    /// What the generator goes by.
    pub open spec fn course(&self) -> Course {
        Course {
            chunk: self.chunk,
            tail: self.gen_prompt_len,
            opts: self.sampler,
            history: self.history@,
        }
    }

    /// A generator that starts from empty caches.
    pub fn new(model: &'a HybridLm<A, F>, temp: Float, prompt_token: &'a Array) -> (r: Generate<
        'a,
        A,
        F,
    >)
        ensures
            r.model == model,
            r.cache@.len() == model.model.layers@.len(),
            forall|i: int|
                0 <= i < r.cache@.len() ==> (#[trigger] r.cache@[i])@ == empty_layer(
                    model.model.layers@[i].is_linear,
                ),
            r.sampler == (SamplerOpts { temp, top_p: one(), top_k: 0, repeat_penalty: one() }),
            r.history@ == Seq::<u32>::empty(),
            r.state@ == StateTerm::Prefill(prompt_token@),
            r.prefill_snapshot is None,
            r.gen_prompt_len == 0,
            r.chunk == chunk_of(None),
            r.read == 0,
            r.draws == 0,
    {
        let cache = model.init_cache();
        Generate::with_cache(model, temp, prompt_token, cache)
    }

    /// A generator that goes on from caches of an earlier run: only the new part of the prompt is
    /// read.
    pub fn with_cache(
        model: &'a HybridLm<A, F>,
        temp: Float,
        prompt_token: &'a Array,
        cache: Vec<LayerCache>,
    ) -> (r: Generate<'a, A, F>)
        ensures
            r.model == model,
            r.cache == cache,
            r.sampler == (SamplerOpts { temp, top_p: one(), top_k: 0, repeat_penalty: one() }),
            r.history@ == Seq::<u32>::empty(),
            r.state@ == StateTerm::Prefill(prompt_token@),
            r.prefill_snapshot is None,
            r.gen_prompt_len == 0,
            r.chunk == chunk_of(None),
            r.read == 0,
            r.draws == 0,
    {
        Generate {
            model,
            cache,
            sampler: SamplerOpts::with_temp(temp),
            history: Vec::new(),
            state: GenerateState::Prefill { prompt_token },
            prefill_snapshot: None,
            gen_prompt_len: 0,
            chunk: prefill_chunk_size(None),
            read: 0,
            draws: 0,
        }
    }

    /// Sets the number of tokens at the end of the prompt that the snapshots leave out.
    pub fn set_gen_prompt_len(&mut self, n: i32)
        ensures
            *final(self) == (Generate {
                gen_prompt_len: if n > 0 {
                    n
                } else {
                    0
                },
                ..*old(self)
            }),
    {
        self.gen_prompt_len = if n > 0 {
            n
        } else {
            0
        };
    }

    /// Sets the number of prompt tokens read at once.
    pub fn set_prefill_chunk(&mut self, setting: Option<&str>)
        ensures
            *final(self) == (Generate {
                chunk: chunk_of(
                    match setting {
                        Some(s) => Some(s@),
                        None => None,
                    },
                ),
                ..*old(self)
            }),
    {
        self.chunk = prefill_chunk_size(setting);
    }

    /// Sets the filters and the penalty; the temperature stays.
    pub fn set_sampler(&mut self, top_p: Float, top_k: i32, repeat_penalty: Float)
        ensures
            *final(self) == (Generate {
                sampler: SamplerOpts {
                    temp: old(self).sampler.temp,
                    top_p,
                    top_k,
                    repeat_penalty,
                },
                ..*old(self)
            }),
    {
        self.sampler.top_p = top_p;
        self.sampler.top_k = top_k;
        self.sampler.repeat_penalty = repeat_penalty;
    }

    /// Sets the number of the next draw.
    pub fn set_draws(&mut self, first: u64)
        ensures
            *final(self) == (Generate { draws: first, ..*old(self) }),
    {
        self.draws = first;
    }

    /// Ends the run: the caches as they are, and the snapshots where the prompt was read.
    pub fn into_cache_and_snapshot(self) -> (r: (Vec<LayerCache>, Option<Vec<LinearSnap>>))
        ensures
            r == (self.cache, self.prefill_snapshot),
    {
        (self.cache, self.prefill_snapshot)
    }

    /// Hands back the token that the last step drew. It is remembered where the sampler penalizes
    /// repetition.
    pub fn record(&mut self, token: u32)
        ensures
            final(self).history@ == (if old(self).sampler.penalizes() {
                old(self).history@.push(token)
            } else {
                old(self).history@
            }),
            *final(self) == (Generate { history: final(self).history, ..*old(self) }),
    {
        if self.sampler.keeps_history() {
            self.history.push(token);
        }
    }

    /// Whether the next step reads a chunk of the prompt, so that it can be stopped.
    pub fn polls(&self) -> (r: bool)
        ensures
            r == polled_part(self.course(), self.standing()) is Some,
    {
        match &self.state {
            GenerateState::Prefill { prompt_token } => {
                let ids: &Array = *prompt_token;
                if ids.ndim() < 2 || ids.shape()[1] < 0 || ids.shape()[1] == 0x7fff_ffff {
                    return false;
                }
                let t: i32 = ids.shape()[1];
                let tail: i32 = self.gen_prompt_len;
                proof {
                    if splits(t, tail) {
                        lemma_sliced(ids@, (t - tail) as i32);
                    }
                }
                !(tail > 0 && tail == t)
            },
            GenerateState::Decode { y: _ } => false,
        }
    }

    /// Reads the rest of a prompt whose chunked part was read, or does not.
    fn conclude(&mut self, ids: &Array, logits: Array) -> (r: Result<Array, Exception>)
        requires
            old(self).wf(),
            readable(ids@),
        ensures
            ({
                let o = concluded(
                    old(self).model,
                    ids@,
                    old(self).gen_prompt_len,
                    (Ok(logits@), layer_states(old(self).cache@)),
                );
                &&& tn(r) == o.logits
                &&& layer_states(final(self).cache@) == o.caches
                &&& snapshot_view(final(self).prefill_snapshot) == latest(
                    o.snapshot,
                    snapshot_view(old(self).prefill_snapshot),
                )
            }),
            *final(self) == (Generate {
                cache: final(self).cache,
                prefill_snapshot: final(self).prefill_snapshot,
                ..*old(self)
            }),
    {
        let t: i32 = ids.shape()[1];
        let tail: i32 = self.gen_prompt_len;
        self.prefill_snapshot = Some(take_snapshots(&self.cache));
        if tail > 0 && tail <= t {
            let part = ids.slice(1, t - tail, t)?;
            self.model.forward(&part, &mut self.cache)
        } else {
            Ok(logits)
        }
    }

    /// Goes on with the reading of the prompt.
    fn go_on(&mut self, ids: &Array, stop: bool) -> (r: Result<ReadStep, Exception>)
        requires
            old(self).wf(),
            readable(ids@),
        ensures
            ({
                let w = went_on(
                    old(self).model,
                    ids@,
                    layer_states(old(self).cache@),
                    old(self).chunk,
                    old(self).gen_prompt_len,
                    old(self).read as int,
                    stop,
                );
                match step_outcome(r) {
                    StepTerm::Stopped => {
                        &&& w == WentOn::Stopped
                        &&& layer_states(final(self).cache@) == layer_states(old(self).cache@)
                        &&& final(self).prefill_snapshot == old(self).prefill_snapshot
                    },
                    StepTerm::More(next) => {
                        &&& w == WentOn::More(next, layer_states(final(self).cache@))
                        &&& final(self).prefill_snapshot == old(self).prefill_snapshot
                    },
                    StepTerm::Done(l) => {
                        &&& w matches WentOn::Done(o)
                        &&& l == o.logits
                        &&& layer_states(final(self).cache@) == o.caches
                        &&& snapshot_view(final(self).prefill_snapshot) == latest(
                            o.snapshot,
                            snapshot_view(old(self).prefill_snapshot),
                        )
                    },
                }
            }),
            *final(self) == (Generate {
                cache: final(self).cache,
                prefill_snapshot: final(self).prefill_snapshot,
                ..*old(self)
            }),
    {
        let t: i32 = ids.shape()[1];
        let tail: i32 = self.gen_prompt_len;
        if tail > 0 && tail == t {
            return Ok(ReadStep::Done(self.conclude(ids, ids.share())?));
        }
        let part = if tail > 0 && tail < t {
            proof {
                lemma_sliced(ids@, (t - tail) as i32);
            }
            ids.slice(1, 0, t - tail)?
        } else {
            ids.share()
        };
        let all: i32 = part.shape()[1];
        if self.read != 0 && (self.read < 0 || self.read >= all) {
            return Err(Exception::Operands);
        }
        match self.model.prefill_step(&part, &mut self.cache, self.chunk, self.read, stop)? {
            ReadStep::Done(l) => Ok(ReadStep::Done(self.conclude(ids, l)?)),
            other => Ok(other),
        }
    }

    /// Goes one step: reads a chunk of the prompt, unless it is told to stop, or builds a token.
    /// Between two steps the caller can compute the caches, so that no graph spans the whole
    /// prompt. Before the last `gen_prompt_len` tokens of the prompt are read, or at its end, the
    /// recurrences are kept in snapshots. Only a step that reads a chunk can be stopped.
    pub fn advance(&mut self, stop: bool) -> (r: Result<Advance, Exception>)
        requires
            old(self).wf(),
        ensures
            (advance_outcome(r), final(self).standing()) == advanced(
                old(self).model,
                old(self).course(),
                old(self).standing(),
                stop,
            ),
            *final(self) == (Generate {
                cache: final(self).cache,
                prefill_snapshot: final(self).prefill_snapshot,
                state: final(self).state,
                read: final(self).read,
                draws: final(self).draws,
                ..*old(self)
            }),
    {
        let (ids, is_prefill) = match &self.state {
            GenerateState::Prefill { prompt_token } => (prompt_token.share(), true),
            GenerateState::Decode { y } => match y.expand_dims(1) {
                Ok(i) => (i, false),
                Err(e) => {
                    self.read = 0;
                    return Err(e);
                },
            },
        };
        let logits = if is_prefill {
            if ids.ndim() < 2 || ids.shape()[1] < 0 || ids.shape()[1] == 0x7fff_ffff {
                self.read = 0;
                return Err(Exception::Operands);
            }
            let step = self.go_on(&ids, stop);
            self.read = 0;
            match step? {
                ReadStep::Done(l) => l,
                ReadStep::Stopped => {
                    return Ok(Advance::Stopped);
                },
                ReadStep::More { next } => {
                    self.read = next;
                    return Ok(Advance::Reading);
                },
            }
        } else {
            self.read = 0;
            self.model.forward(&ids, &mut self.cache)?
        };
        let last = logits.select(1, -1)?;
        let y = sample_after(&last, &self.sampler, &self.history, self.draws)?;
        self.state = GenerateState::Decode { y: y.share() };
        self.draws = next_draw(self.draws);
        Ok(Advance::Token(y))
    }

    /// Builds the next token, asking before each chunk of the prompt whether to stop; `None` says
    /// that it stopped, with no snapshot taken.
    pub fn next_cancellable<G: Fn() -> bool>(&mut self, should_cancel: G) -> (r: Option<
        Result<Array, Exception>,
    >)
        requires
            old(self).wf(),
            old(self).read == 0,
            call_requires(should_cancel, ()),
        ensures
            match polled_part(old(self).course(), old(self).standing()) {
                Some(part) => exists|answers: Seq<bool>|
                    {
                        &&& asked(should_cancel, answers)
                        &&& #[trigger] read_through(
                            &old(self).model.model,
                            part,
                            layer_states(old(self).cache@),
                            old(self).chunk,
                            answers,
                        )
                        &&& ({
                            let p = polled(
                                &old(self).model.model,
                                part,
                                layer_states(old(self).cache@),
                                old(self).chunk,
                                answers,
                            );
                            &&& p.stopped == (r is None)
                            &&& p.stopped ==> final(self).standing() == (Standing {
                                caches: p.progress.caches,
                                ..old(self).standing()
                            })
                        })
                    },
                None => r is Some,
            },
            match r {
                None => call_ensures(should_cancel, (), true),
                Some(y) => (Advanced::Token(tn(y)), final(self).standing()) == stepped(
                    old(self).model,
                    old(self).course(),
                    old(self).standing(),
                ),
            },
            *final(self) == (Generate {
                cache: final(self).cache,
                prefill_snapshot: final(self).prefill_snapshot,
                state: final(self).state,
                read: final(self).read,
                draws: final(self).draws,
                ..*old(self)
            }),
    {
        let ghost s = self.standing();
        let ghost c = self.course();
        let ghost m = self.model;
        if !self.polls() {
            return match self.advance(false) {
                Ok(Advance::Token(y)) => Some(Ok(y)),
                Ok(_) => None,
                Err(e) => Some(Err(e)),
            };
        }
        let ghost part = polled_part(c, s)->Some_0;
        let ghost mut answers: Seq<bool> = Seq::empty();
        proof {
            if splits(s.state->Prefill_0.shape[1], c.tail) {
                lemma_sliced(s.state->Prefill_0, (s.state->Prefill_0.shape[1] - c.tail) as i32);
            }
        }
        loop
            invariant
                self.wf(),
                c == old(self).course(),
                s == old(self).standing(),
                m == old(self).model,
                polled_part(c, s) == Some(part),
                part.shape.len() >= 2,
                0 <= part.shape[1] < i32::MAX,
                s.read == 0,
                c.chunk > 0,
                call_requires(should_cancel, ()),
                self.model == m,
                self.course() == c,
                self.read == 0 || 0 < self.read < part.shape[1],
                self.standing() == (Standing {
                    read: self.read as int,
                    caches: layer_states(self.cache@),
                    ..s
                }),
                answers.len() <= self.read,
                asked(should_cancel, answers),
                chunks_read(&m.model, part, s.caches, c.chunk, answers.len()) == (Progress {
                    start: self.read as int,
                    caches: layer_states(self.cache@),
                    out: None,
                }),
                polled(&m.model, part, s.caches, c.chunk, answers) == (Polling {
                    stopped: false,
                    progress: Progress {
                        start: self.read as int,
                        caches: layer_states(self.cache@),
                        out: None,
                    },
                }),
                *self == (Generate {
                    cache: self.cache,
                    prefill_snapshot: self.prefill_snapshot,
                    state: self.state,
                    read: self.read,
                    draws: self.draws,
                    ..*old(self)
                }),
            decreases part.shape[1] - self.read,
        {
            let stop = should_cancel();
            let ghost more = answers.push(stop);
            let ghost k = answers.len();
            proof {
                assert(more.drop_last() =~= answers);
                assert forall|j: int| 0 <= j < more.len() implies call_ensures(
                    should_cancel,
                    (),
                    #[trigger] more[j],
                ) by {
                    if j < k {
                        assert(more[j] == answers[j]);
                    }
                }
                let p = chunks_read(&m.model, part, s.caches, c.chunk, k);
                let next = chunks_read(&m.model, part, s.caches, c.chunk, k + 1);
                assert(next == chunk_read(&m.model, part, c.chunk, p));
                assert(polled(&m.model, part, s.caches, c.chunk, more) == polled_step(
                    &m.model,
                    part,
                    c.chunk,
                    polled(&m.model, part, s.caches, c.chunk, answers),
                    stop,
                ));
                if next.out is Some {
                    lemma_chunks_end(
                        &m.model,
                        part,
                        s.caches,
                        c.chunk,
                        k + 1,
                        (part.shape[1] + 1) as nat,
                    );
                }
                if stop || next.out is Some {
                    assert(read_through(&m.model, part, s.caches, c.chunk, more));
                }
            }
            match self.advance(stop) {
                Ok(Advance::Token(y)) => {
                    return Some(Ok(y));
                },
                Ok(Advance::Stopped) => {
                    return None;
                },
                Err(e) => {
                    return Some(Err(e));
                },
                Ok(Advance::Reading) => {},
            }
            proof {
                answers = more;
            }
        }
    }

    /// Builds the next token.
    pub fn next(&mut self) -> (r: Option<Result<Array, Exception>>)
        requires
            old(self).wf(),
            old(self).read == 0,
        ensures
            ({
                let (token, after) = stepped(
                    old(self).model,
                    old(self).course(),
                    old(self).standing(),
                );
                &&& r matches Some(y)
                &&& Advanced::Token(tn(y)) == token
                &&& final(self).standing() == after
            }),
            *final(self) == (Generate {
                cache: final(self).cache,
                prefill_snapshot: final(self).prefill_snapshot,
                state: final(self).state,
                read: final(self).read,
                draws: final(self).draws,
                ..*old(self)
            }),
    {
        let never = || -> (b: bool)
            ensures
                !b,
            { false };
        self.next_cancellable(never)
    }
}

/// The first `split` positions of a prompt are that many.
proof fn lemma_sliced(ids: Term, split: i32)
    requires
        ids.shape.len() >= 2,
        0 <= split <= ids.shape[1],
    ensures
        t_slice(Ok(ids), 1, 0, split) matches Ok(p) && p.shape.len() == ids.shape.len()
            && p.shape[1] == split,
{
    reveal(crate::ops::select::raw_slice);
}

/// Replacing parameters leaves the layers with the attention that they say they have.
pub proof fn lemma_wf_kept<F: FeedForward + Parameters>(a: HybridModel<F>, b: HybridModel<F>)
    requires
        a.wf(),
        a.frame() == b.frame(),
    ensures
        b.wf(),
{
    let (fa, fb) = (a.layers.frame(), b.layers.frame());
    assert(fa == fb);
    assert forall|i: int| 0 <= i < b.layers@.len() implies (#[trigger] b.layers@[i]).wf() by {
        assert(fa.len() == a.layers@.len() && fb.len() == b.layers@.len());
        assert(fa[i] == a.layers@[i].frame() && fb[i] == b.layers@[i].frame());
        assert(a.layers@[i].wf());
    }
}

} // verus!
