//! What the decoder-only models share: layers in a row over a list of caches.

use crate::array::{opt_ref_term, tn, Array, Term, Tn};
use crate::cache::{
    borrowed_state, slot_state, slot_states, FreshCache, KeyValueCache,
};
use crate::error::Exception;
use crate::utils::mask::{choose_mask, model_mask};
use vstd::prelude::*;

verus! {

/// What a layer reads.
pub struct AttentionInput<'a, C> {
    /// Hidden states, `[B, L, hidden]`.
    pub x: &'a Array,
    /// The mask, where there is one.
    pub mask: Option<&'a Array>,
    /// The cache of the layer, where there is one.
    pub cache: Option<&'a mut C>,
    /// For every row, the number of leading cache positions that are padding.
    pub pad_offsets: Option<&'a Array>,
}

/// What a model reads.
pub struct ModelInput<'a, C> {
    /// Token ids, `[B, L]`.
    pub inputs: &'a Array,
    /// The mask, where the caller has one.
    pub mask: Option<&'a Array>,
    /// The caches of the layers; an empty list is filled.
    pub cache: &'a mut Vec<Option<C>>,
    /// For every row, the number of leading cache positions that are padding.
    pub pad_offsets: Option<&'a Array>,
}

/// A layer of a decoder.
pub trait DecoderLayer<C: KeyValueCache> {
    /// Whether the layer sees only the latest positions.
    spec fn windowed(&self) -> bool;

    /// The hidden states behind the layer, and its cache.
    spec fn apply(
        &self,
        x: Term,
        mask: Option<Term>,
        cache: Option<C::State>,
        pads: Option<Term>,
    ) -> (Tn, Option<C::State>);

    /// Whether the layer sees only the latest positions.
    fn is_windowed(&self) -> (r: bool)
        ensures
            r == self.windowed(),
    ;

    /// Runs the layer.
    fn forward(&self, input: AttentionInput<'_, C>) -> (r: Result<Array, Exception>)
        ensures
            tn(r) == self.apply(
                input.x@,
                opt_ref_term(input.mask),
                borrowed_state(input.cache),
                opt_ref_term(input.pad_offsets),
            ).0,
            match input.cache {
                Some(c) => Some((*final(c)).state()),
                None => None,
            } == self.apply(
                input.x@,
                opt_ref_term(input.mask),
                borrowed_state(input.cache),
                opt_ref_term(input.pad_offsets),
            ).1,
    ;
}

/// The masks of a run: for layers that see everything, and for those that see the latest
/// positions.
pub struct Masks {
    pub full: Option<Term>,
    pub window: Option<Term>,
}

impl Masks {
    /// The mask of a layer.
    pub open spec fn pick(self, windowed: bool) -> Option<Term> {
        if windowed {
            self.window
        } else {
            self.full
        }
    }
}

/// The values of two masks.
pub open spec fn masks_of(mask: Option<&Array>, window_mask: Option<&Array>) -> Masks {
    Masks { full: opt_ref_term(mask), window: opt_ref_term(window_mask) }
}

/// The number of layers that have a slot for their cache.
pub open spec fn paired(layers: nat, slots: nat) -> nat {
    if layers <= slots {
        layers
    } else {
        slots
    }
}

/// The hidden states behind the first `n` layers, and the caches; a failure stops the run.
pub open spec fn run_layers<L: DecoderLayer<C>, C: KeyValueCache>(
    layers: Seq<L>,
    h: Term,
    masks: Masks,
    slots: Seq<Option<C::State>>,
    pads: Option<Term>,
    n: nat,
) -> (Tn, Seq<Option<C::State>>)
    decreases n,
{
    if n == 0 {
        (Ok(h), slots)
    } else {
        let (x, s) = run_layers::<L, C>(layers, h, masks, slots, pads, (n - 1) as nat);
        match x {
            Ok(t) => {
                let mask = masks.pick(layers[n - 1].windowed());
                let (y, c) = layers[n - 1].apply(t, mask, s[n - 1], pads);
                (y, s.update(n - 1, c))
            },
            Err(e) => (Err(e), s),
        }
    }
}

/// A run that failed stays failed.
pub proof fn lemma_run_fails<L: DecoderLayer<C>, C: KeyValueCache>(
    layers: Seq<L>,
    h: Term,
    masks: Masks,
    slots: Seq<Option<C::State>>,
    pads: Option<Term>,
    k: nat,
    n: nat,
)
    requires
        k <= n,
        run_layers::<L, C>(layers, h, masks, slots, pads, k).0 is Err,
    ensures
        run_layers::<L, C>(layers, h, masks, slots, pads, n) == run_layers::<L, C>(
            layers,
            h,
            masks,
            slots,
            pads,
            k,
        ),
    decreases n,
{
    if k < n {
        lemma_run_fails::<L, C>(layers, h, masks, slots, pads, k, (n - 1) as nat);
    }
}

/// Runs hidden states through every layer that has a slot for its cache.
pub fn forward_layers<L: DecoderLayer<C>, C: KeyValueCache>(
    layers: &Vec<L>,
    h: Array,
    mask: Option<&Array>,
    window_mask: Option<&Array>,
    cache: &mut Vec<Option<C>>,
    pads: Option<&Array>,
) -> (r: Result<Array, Exception>)
    ensures
        final(cache)@.len() == old(cache)@.len(),
        (tn(r), slot_states(final(cache)@)) == run_layers::<L, C>(
            layers@,
            h@,
            masks_of(mask, window_mask),
            slot_states(old(cache)@),
            opt_ref_term(pads),
            paired(layers@.len(), old(cache)@.len()),
        ),
{
    let ghost start = slot_states(cache@);
    let ghost n = paired(layers@.len(), cache@.len());
    let mut x = h.share();
    let mut i: usize = 0;
    while i < layers.len() && i < cache.len()
        invariant
            i <= n,
            n == paired(layers@.len(), cache@.len()),
            cache@.len() == old(cache)@.len(),
            start == slot_states(old(cache)@),
            (Ok::<Term, Exception>(x@), slot_states(cache@)) == run_layers::<L, C>(
                layers@,
                h@,
                masks_of(mask, window_mask),
                start,
                opt_ref_term(pads),
                i as nat,
            ),
        decreases n - i,
    {
        let ghost before = cache@;
        let slot: &mut Option<C> = &mut cache[i];
        let c = match slot {
            Some(c) => Some(c),
            None => None,
        };
        let m = if layers[i].is_windowed() {
            window_mask
        } else {
            mask
        };
        let y = layers[i].forward(
            AttentionInput { x: &x, mask: m, cache: c, pad_offsets: pads },
        );
        proof {
            let (t, s) = run_layers::<L, C>(
                layers@,
                h@,
                masks_of(mask, window_mask),
                start,
                opt_ref_term(pads),
                i as nat,
            );
            assert(s[i as int] == slot_state(before[i as int]));
            let (y2, c2) = layers@[i as int].apply(
                x@,
                masks_of(mask, window_mask).pick(layers@[i as int].windowed()),
                s[i as int],
                opt_ref_term(pads),
            );
            assert(slot_state(cache@[i as int]) == c2);
            assert(slot_states(cache@) =~= s.update(i as int, c2));
            assert((tn(y), slot_states(cache@)) == run_layers::<L, C>(
                layers@,
                h@,
                masks_of(mask, window_mask),
                start,
                opt_ref_term(pads),
                (i + 1) as nat,
            ));
            if y is Err {
                lemma_run_fails::<L, C>(
                    layers@,
                    h@,
                    masks_of(mask, window_mask),
                    start,
                    opt_ref_term(pads),
                    (i + 1) as nat,
                    n,
                );
            }
        }
        x = y?;
        i += 1;
    }
    Ok(x)
}

/// A slot with an empty cache for every layer.
pub open spec fn fresh_slots<C: FreshCache>(layers: nat) -> Seq<Option<C::State>> {
    Seq::new(layers, |i: int| Some(C::empty_state()))
}

/// The slots that a model works on: the given ones, or fresh ones where none are given.
pub open spec fn model_slots<C: FreshCache>(slots: Seq<Option<C::State>>, layers: nat) -> Seq<
    Option<C::State>,
> {
    if slots.len() == 0 {
        fresh_slots::<C>(layers)
    } else {
        slots
    }
}

/// Fills an empty list of caches.
pub fn fill_caches<C: FreshCache>(cache: &mut Vec<Option<C>>, layers: usize)
    ensures
        slot_states(final(cache)@) == model_slots::<C>(
            slot_states(old(cache)@),
            layers as nat,
        ),
        old(cache)@.len() != 0 ==> final(cache)@ == old(cache)@,
{
    if cache.len() == 0 {
        let mut i: usize = 0;
        while i < layers
            invariant
                i <= layers,
                cache@.len() == i,
                forall|j: int|
                    0 <= j < i ==> slot_state(#[trigger] cache@[j]) == Some(C::empty_state()),
            decreases layers - i,
        {
            cache.push(Some(C::fresh()));
            i += 1;
        }
        proof {
            assert(slot_states(cache@) =~= fresh_slots::<C>(layers as nat));
        }
    }
}

/// The hidden states behind all layers: the mask is settled first, then an empty list of caches is
/// filled, then the layers run.
pub open spec fn run_decoder<L: DecoderLayer<C>, C: FreshCache>(
    layers: Seq<L>,
    h: Tn,
    mask: Option<Term>,
    slots: Seq<Option<C::State>>,
    pads: Option<Term>,
) -> (Tn, Seq<Option<C::State>>) {
    match h {
        Ok(x) => match model_mask::<C>(mask, x, slots) {
            Ok(m) => {
                let filled = model_slots::<C>(slots, layers.len());
                run_layers::<L, C>(
                    layers,
                    x,
                    Masks { full: m, window: m },
                    filled,
                    pads,
                    paired(layers.len(), filled.len()),
                )
            },
            Err(e) => (Err(e), slots),
        },
        Err(e) => (Err(e), slots),
    }
}

/// Settles the mask, fills the caches and runs the layers.
pub fn forward_decoder<L: DecoderLayer<C>, C: FreshCache>(
    layers: &Vec<L>,
    h: Array,
    mask: Option<&Array>,
    cache: &mut Vec<Option<C>>,
    pads: Option<&Array>,
) -> (r: Result<Array, Exception>)
    ensures
        (tn(r), slot_states(final(cache)@)) == run_decoder::<L, C>(
            layers@,
            Ok(h@),
            opt_ref_term(mask),
            slot_states(old(cache)@),
            opt_ref_term(pads),
        ),
{
    let mask = choose_mask(mask, &h, cache)?;
    fill_caches(cache, layers.len());
    proof {
        assert(slot_states(cache@).len() == cache@.len());
    }
    let m = match &mask {
        Some(m) => Some(m),
        None => None,
    };
    forward_layers(layers, h, m, m, cache, pads)
}

} // verus!
