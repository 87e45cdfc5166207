//! Attention masks.

use crate::array::{tn, Array, Dtype, Term, Tn};
use crate::cache::KeyValueCache;
use crate::error::Exception;
use crate::ops::create::{arange, t_arange, t_int};
use crate::ops::elementwise::{t_add, t_ge, t_logical_and, t_lt};
use crate::ops::layout::t_expand_dims;
use vstd::prelude::*;

verus! {

/// A mask: an array of truth values, or the causal mask left to the attention kernel.
pub enum AttentionMask {
    Array(Array),
    Causal,
}

/// The positions `start..stop` as a column.
pub open spec fn column(start: i32, stop: i32) -> Tn {
    t_expand_dims(t_arange(start, stop, Dtype::Int32), 1)
}

/// The positions `start..stop` as a row.
pub open spec fn row(start: i32, stop: i32) -> Tn {
    t_expand_dims(t_arange(start, stop, Dtype::Int32), 0)
}

/// Positions `start..stop` as a column.
pub fn positions_column(start: i32, stop: i32) -> (r: Result<Array, Exception>)
    ensures
        tn(r) == column(start, stop),
{
    arange(start, stop, Dtype::Int32)?.expand_dims(1)
}

/// Positions `start..stop` as a row.
pub fn positions_row(start: i32, stop: i32) -> (r: Result<Array, Exception>)
    ensures
        tn(r) == row(start, stop),
{
    arange(start, stop, Dtype::Int32)?.expand_dims(0)
}

/// The causal mask of `n` queries from position `offset` on: a query sees the keys up to its own
/// position and, with a window, fewer than `window` positions back.
pub open spec fn causal_mask(n: i32, offset: i32, window: Option<i32>) -> Tn {
    if offset + n > i32::MAX || offset + n < i32::MIN {
        Err(Exception::Operands)
    } else {
        let end = (offset + n) as i32;
        let causal = t_ge(column(offset, end), row(0, end));
        match window {
            Some(w) => t_logical_and(
                causal,
                t_lt(column(offset, end), t_add(row(0, end), t_int(w))),
            ),
            None => causal,
        }
    }
}

/// Builds the causal mask of `n` queries.
pub fn create_causal_mask(n: i32, offset: Option<i32>, window_size: Option<i32>) -> (r: Result<
    Array,
    Exception,
>)
    ensures
        tn(r) == causal_mask(
            n,
            match offset {
                Some(o) => o,
                None => 0,
            },
            window_size,
        ),
{
    let offset: i32 = match offset {
        Some(o) => o,
        None => 0,
    };
    let end: i64 = offset as i64 + n as i64;
    if end > 0x7fff_ffff || end < -0x8000_0000 {
        return Err(Exception::Operands);
    }
    let end: i32 = end as i32;
    let queries = positions_column(offset, end)?;
    let keys = positions_row(0, end)?;
    let mask = queries.ge(&keys)?;
    match window_size {
        Some(w) => {
            let reach = keys.add(&Array::from_int(w))?;
            mask.logical_and(&queries.lt(&reach)?)
        },
        None => Ok(mask),
    }
}

/// The value of a mask.
pub enum AttentionMaskTerm {
    Array(Term),
    Causal,
}

/// The outcome of choosing a mask.
pub open spec fn mask_outcome(r: Result<Option<AttentionMask>, Exception>) -> Result<
    Option<AttentionMaskTerm>,
    Exception,
> {
    match r {
        Ok(Some(AttentionMask::Array(a))) => Ok(Some(AttentionMaskTerm::Array(a@))),
        Ok(Some(AttentionMask::Causal)) => Ok(Some(AttentionMaskTerm::Causal)),
        Ok(None) => Ok(None),
        Err(e) => Err(e),
    }
}

/// The mask for hidden states `h` behind a list of caches of which the first says how many
/// positions came before. One position needs no mask. A bounded cache of `w` positions counts at
/// most `w` earlier ones and, where the queries reach past it, needs an explicit mask.
pub open spec fn attention_mask<C: KeyValueCache>(
    h: Term,
    slots: Seq<Option<C::State>>,
    return_array: bool,
) -> Result<Option<AttentionMaskTerm>, Exception> {
    if h.shape.len() < 2 {
        Err(Exception::Operands)
    } else if h.shape[1] <= 1 {
        Ok(None)
    } else {
        let n = h.shape[1];
        let first = if slots.len() > 0 {
            slots[0]
        } else {
            None
        };
        let held = match first {
            Some(s) => C::offset_of(s),
            None => 0,
        };
        let window = match first {
            Some(s) => C::max_size_of(s),
            None => None,
        };
        let offset = match window {
            Some(w) => if held < w {
                held
            } else {
                w
            },
            None => held,
        };
        if return_array || (window matches Some(w) && offset + n > w) {
            match causal_mask(n, offset, window) {
                Ok(m) => Ok(Some(AttentionMaskTerm::Array(m))),
                Err(e) => Err(e),
            }
        } else {
            Ok(Some(AttentionMaskTerm::Causal))
        }
    }
}

/// Chooses the mask for hidden states `h`.
pub fn create_attention_mask<C: KeyValueCache>(
    h: &Array,
    cache: &Vec<Option<C>>,
    return_array: Option<bool>,
) -> (r: Result<Option<AttentionMask>, Exception>)
    ensures
        mask_outcome(r) == attention_mask::<C>(
            h@,
            crate::cache::slot_states(cache@),
            return_array == Some(true),
        ),
{
    if h.ndim() < 2 {
        return Err(Exception::Operands);
    }
    let n: i32 = h.shape()[1];
    if n <= 1 {
        return Ok(None);
    }
    let mut explicit = match return_array {
        Some(b) => b,
        None => false,
    };
    let mut offset: i32 = 0;
    let mut window: Option<i32> = None;
    if cache.len() > 0 {
        proof {
            assert(crate::cache::slot_states(cache@)[0] == crate::cache::slot_state(cache@[0]));
        }
        match &cache[0] {
            Some(c) => {
                offset = c.offset();
                window = c.max_size();
            },
            None => {},
        }
    }
    match window {
        Some(w) => {
            if w < offset {
                offset = w;
            }
            if offset as i64 + n as i64 > w as i64 {
                explicit = true;
            }
        },
        None => {},
    }
    if explicit {
        let m = create_causal_mask(n, Some(offset), window)?;
        Ok(Some(AttentionMask::Array(m)))
    } else {
        Ok(Some(AttentionMask::Causal))
    }
}

/// The mask array of a model: the given one, or the one that its caches ask for.
pub open spec fn model_mask<C: KeyValueCache>(
    given: Option<Term>,
    h: Term,
    slots: Seq<Option<C::State>>,
) -> Result<Option<Term>, Exception> {
    match given {
        Some(m) => Ok(Some(m)),
        None => match attention_mask::<C>(h, slots, true) {
            Ok(Some(AttentionMaskTerm::Array(a))) => Ok(Some(a)),
            Ok(Some(AttentionMaskTerm::Causal)) => Err(Exception::ArrayMaskOnly),
            Ok(None) => Ok(None),
            Err(e) => Err(e),
        },
    }
}

/// Picks the mask array of a model.
pub fn choose_mask<C: KeyValueCache>(
    given: Option<&Array>,
    h: &Array,
    cache: &Vec<Option<C>>,
) -> (r: Result<Option<Array>, Exception>)
    ensures
        match r {
            Ok(m) => model_mask::<C>(
                crate::array::opt_ref_term(given),
                h@,
                crate::cache::slot_states(cache@),
            ) == Ok::<Option<Term>, Exception>(crate::array::opt_term(m)),
            Err(e) => model_mask::<C>(
                crate::array::opt_ref_term(given),
                h@,
                crate::cache::slot_states(cache@),
            ) == Err::<Option<Term>, Exception>(e),
        },
{
    match given {
        Some(m) => Ok(Some(m.share())),
        None => match create_attention_mask(h, cache, Some(true))? {
            Some(AttentionMask::Array(a)) => Ok(Some(a)),
            Some(AttentionMask::Causal) => Err(Exception::ArrayMaskOnly),
            None => Ok(None),
        },
    }
}

} // verus!
