//! Generating token after token.
//!
//! A generator builds the computation of one token at a time. Where the sampler penalizes
//! repetition it has to know the tokens drawn so far: the caller computes each token and hands it
//! back with `record`.

use crate::array::{opt_ref_term, tn, Array, Term, Tn};
use crate::cache::{slot_states, FreshCache, KeyValueCache};
use crate::error::Exception;
use crate::models::decoder::ModelInput;
use crate::models::sampling::{
    following, next_draw, one, recent_tokens, sample_after, sampled, SamplerOpts,
};
use crate::ops::layout::t_expand_dims;
use crate::ops::select::t_select;
use crate::scalar::Float;
use vstd::prelude::*;

verus! {

/// A model that maps token ids to logits.
pub trait LanguageModel<C: FreshCache> {
    /// The logits of token ids, and the caches.
    spec fn run(
        &self,
        ids: Term,
        mask: Option<Term>,
        slots: Seq<Option<C::State>>,
        pads: Option<Term>,
    ) -> (Tn, Seq<Option<C::State>>);

    /// Computes the logits of token ids.
    fn forward(&self, input: ModelInput<'_, C>) -> (r: Result<Array, Exception>)
        ensures
            (tn(r), slot_states((*final(input.cache))@)) == self.run(
                input.inputs@,
                opt_ref_term(input.mask),
                slot_states(old(input.cache)@),
                opt_ref_term(input.pad_offsets),
            ),
    ;
}

/// Where a generator stands.
pub enum GenerateState<'a> {
    /// The prompt is still to be read.
    Prefill { prompt_token: &'a Array },
    /// The last token was `y`.
    Decode { y: Array },
}

/// The value of a generator's state.
pub enum StateTerm {
    Prefill(Term),
    Decode(Term),
}

impl<'a> View for GenerateState<'a> {
    type V = StateTerm;

    open spec fn view(&self) -> StateTerm {
        match self {
            GenerateState::Prefill { prompt_token } => StateTerm::Prefill(prompt_token@),
            GenerateState::Decode { y } => StateTerm::Decode(y@),
        }
    }
}

/// The token ids that the next step reads: the prompt, then the last token on an axis of its own.
pub open spec fn next_ids(state: StateTerm) -> Tn {
    match state {
        StateTerm::Prefill(p) => Ok(p),
        StateTerm::Decode(y) => t_expand_dims(Ok(y), 1),
    }
}

/// One step of generation: the next token, sampled from the logits of the last position, and the
/// caches.
pub open spec fn generated<M: LanguageModel<C>, C: FreshCache>(
    model: &M,
    state: StateTerm,
    slots: Seq<Option<C::State>>,
    opts: SamplerOpts,
    history: Seq<u32>,
    draw: u64,
) -> (Tn, Seq<Option<C::State>>) {
    match next_ids(state) {
        Ok(ids) => {
            let (logits, after) = model.run(ids, None, slots, None);
            (
                sampled(t_select(logits, 1, -1i32), opts, recent_tokens(opts, history), draw),
                after,
            )
        },
        Err(e) => (Err(e), slots),
    }
}

/// A generator over a model and its caches.
pub struct Generate<'a, M, C> {
    pub model: &'a M,
    pub cache: &'a mut Vec<Option<C>>,
    pub sampler: SamplerOpts,
    pub history: Vec<u32>,
    pub state: GenerateState<'a>,
    /// The number of the next draw.
    pub draws: u64,
}

/// The outcome of asking for a token.
pub open spec fn token_outcome(r: Option<Result<Array, Exception>>) -> Option<Tn> {
    match r {
        Some(t) => Some(tn(t)),
        None => None,
    }
}

impl<'a, M: LanguageModel<C>, C: FreshCache> Generate<'a, M, C> {
    /// A generator that reads a prompt (`[B, L]`) and samples by temperature alone.
    pub fn new(
        model: &'a M,
        cache: &'a mut Vec<Option<C>>,
        temp: Float,
        prompt_token: &'a Array,
    ) -> (r: Generate<'a, M, C>)
        ensures
            r.model == model,
            *r.cache == *old(cache),
            *final(r.cache) == *final(cache),
            r.sampler == (SamplerOpts { temp, top_p: one(), top_k: 0, repeat_penalty: one() }),
            r.history@ == Seq::<u32>::empty(),
            r.state@ == StateTerm::Prefill(prompt_token@),
            r.draws == 0,
    {
        Generate {
            model,
            cache,
            sampler: SamplerOpts::with_temp(temp),
            history: Vec::new(),
            state: GenerateState::Prefill { prompt_token },
            draws: 0,
        }
    }

    /// Sets the filters and the penalty; the temperature stays.
    pub fn set_sampler(&mut self, top_p: Float, top_k: i32, repeat_penalty: Float)
        ensures
            final(self).sampler == (SamplerOpts {
                temp: old(self).sampler.temp,
                top_p,
                top_k,
                repeat_penalty,
            }),
            final(self).model == old(self).model,
            final(self).cache == old(self).cache,
            final(self).history == old(self).history,
            final(self).state == old(self).state,
            final(self).draws == old(self).draws,
    {
        self.sampler.top_p = top_p;
        self.sampler.top_k = top_k;
        self.sampler.repeat_penalty = repeat_penalty;
    }

    /// Sets the number of the next draw. Two generators that stand alike and draw by the same
    /// numbers build the same tokens.
    pub fn set_draws(&mut self, first: u64)
        ensures
            final(self).draws == first,
            final(self).model == old(self).model,
            final(self).cache == old(self).cache,
            final(self).sampler == old(self).sampler,
            final(self).history == old(self).history,
            final(self).state == old(self).state,
    {
        self.draws = first;
    }

    /// Builds the next token. The first call reads the whole prompt, every later one the token
    /// before; a failure leaves the generator where it stands.
    pub fn next(&mut self) -> (r: Option<Result<Array, Exception>>)
        ensures
            ({
                let (y, slots) = generated::<M, C>(
                    old(self).model,
                    old(self).state@,
                    slot_states(old(self).cache@),
                    old(self).sampler,
                    old(self).history@,
                    old(self).draws,
                );
                &&& token_outcome(r) == Some(y)
                &&& slot_states(final(self).cache@) == slots
                &&& final(self).state@ == match y {
                    Ok(t) => StateTerm::Decode(t),
                    Err(_) => old(self).state@,
                }
                &&& final(self).draws == match y {
                    Ok(_) => following(old(self).draws),
                    Err(_) => old(self).draws,
                }
            }),
            final(self).model == old(self).model,
            final(self).sampler == old(self).sampler,
            final(self).history == old(self).history,
            *final(final(self).cache) == *final(old(self).cache),
    {
        let ids = match &self.state {
            GenerateState::Prefill { prompt_token } => prompt_token.share(),
            GenerateState::Decode { y } => match y.expand_dims(1) {
                Ok(i) => i,
                Err(e) => {
                    return Some(Err(e));
                },
            },
        };
        let logits = self.model.forward(
            ModelInput { inputs: &ids, mask: None, cache: self.cache, pad_offsets: None },
        );
        let logits = match logits {
            Ok(l) => l,
            Err(e) => {
                return Some(Err(e));
            },
        };
        let last = match logits.select(1, -1) {
            Ok(l) => l,
            Err(e) => {
                return Some(Err(e));
            },
        };
        match sample_after(&last, &self.sampler, &self.history, self.draws) {
            Ok(y) => {
                self.state = GenerateState::Decode { y: y.share() };
                self.draws = next_draw(self.draws);
                Some(Ok(y))
            },
            Err(e) => Some(Err(e)),
        }
    }

    /// Hands back the token that the last step drew. It is remembered where the sampler penalizes
    /// repetition.
    pub fn record(&mut self, token: u32)
        ensures
            final(self).history@ == (if old(self).sampler.penalizes() {
                old(self).history@.push(token)
            } else {
                old(self).history@
            }),
            final(self).model == old(self).model,
            final(self).cache == old(self).cache,
            final(self).sampler == old(self).sampler,
            final(self).state == old(self).state,
            final(self).draws == old(self).draws,
    {
        if self.sampler.keeps_history() {
            self.history.push(token);
        }
    }
}

} // verus!
