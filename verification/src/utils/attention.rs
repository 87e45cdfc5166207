//! The part of attention that every model shares: positions, cache, scores.

use crate::array::{opt_ref_term, tn, Array, Term, Tn};
use crate::cache::{borrowed_state, KeyValueCache};
use crate::error::Exception;
use crate::fast::{
    array_mask, mask_term, scaled_dot_product_attention_device, t_attention, MaskTerm,
    ScaledDotProductAttentionMask,
};
use crate::ops::create::t_int;
use crate::ops::elementwise::t_subtract;
use crate::ops::layout::{t_reshape, t_transpose};
use crate::scalar::Scalar;
use crate::utils::rope::RopeVariant;
use vstd::prelude::*;

verus! {

/// Hidden states of `b` rows of `l` positions, split into `n` heads that come before the positions.
pub open spec fn split_heads(x: Tn, b: i32, l: i32, n: i32) -> Tn {
    t_transpose(t_reshape(x, seq![b, l, n, -1i32]), seq![0i32, 2i32, 1i32, 3i32])
}

/// Heads joined into hidden states of `b` rows of `l` positions.
pub open spec fn join_heads(x: Tn, b: i32, l: i32) -> Tn {
    t_reshape(t_transpose(x, seq![0i32, 2i32, 1i32, 3i32]), seq![b, l, -1i32])
}

/// Splits hidden states into heads.
pub fn to_heads(x: &Array, b: i32, l: i32, n: i32) -> (r: Result<Array, Exception>)
    ensures
        tn(r) == split_heads(Ok(x@), b, l, n),
{
    let shape: Vec<i32> = vec![b, l, n, -1];
    let axes: Vec<i32> = vec![0, 2, 1, 3];
    proof {
        assert(shape@ =~= seq![b, l, n, -1i32]);
        assert(axes@ =~= seq![0i32, 2i32, 1i32, 3i32]);
    }
    x.reshape(&shape)?.transpose_axes(axes)
}

/// Joins heads into hidden states.
pub fn from_heads(x: &Array, b: i32, l: i32) -> (r: Result<Array, Exception>)
    ensures
        tn(r) == join_heads(Ok(x@), b, l),
{
    let shape: Vec<i32> = vec![b, l, -1];
    let axes: Vec<i32> = vec![0, 2, 1, 3];
    proof {
        assert(shape@ =~= seq![b, l, -1i32]);
        assert(axes@ =~= seq![0i32, 2i32, 1i32, 3i32]);
    }
    x.transpose_axes(axes)?.reshape(&shape)
}

/// `x` turned by its positions. Without a cache positions start at zero; with one they start
/// behind the positions held; with pad offsets every row starts that much earlier.
pub open spec fn rotated<C: KeyValueCache>(
    rope: RopeVariant,
    x: Tn,
    cache: Option<C::State>,
    pads: Option<Term>,
) -> Tn {
    match (cache, pads) {
        (None, _) => rope.apply(x, 0),
        (Some(s), None) => rope.apply(x, C::offset_of(s)),
        (Some(s), Some(p)) => rope.apply_dynamic(
            x,
            t_subtract(t_int(C::offset_of(s)), Ok(p)),
        ),
    }
}

/// Turns `x` by its positions, `offset` being the number of positions held by the cache.
pub fn rotate(
    rope: &RopeVariant,
    x: &Array,
    offset: Option<i32>,
    pads: Option<&Array>,
) -> (r: Result<Array, Exception>)
    ensures
        tn(r) == match (offset, opt_ref_term(pads)) {
            (None, _) => rope.apply(Ok(x@), 0),
            (Some(o), None) => rope.apply(Ok(x@), o),
            (Some(o), Some(p)) => rope.apply_dynamic(Ok(x@), t_subtract(t_int(o), Ok(p))),
        },
{
    match (offset, pads) {
        (None, _) => rope.forward(x, 0),
        (Some(o), None) => rope.forward(x, o),
        (Some(o), Some(p)) => {
            let offsets = Array::from_int(o).subtract(p)?;
            rope.forward_dynamic(x, &offsets)
        },
    }
}

/// The keys and values of all positions, and the cache behind them. Nothing is added where the
/// queries, the keys or the values could not be built.
pub open spec fn all_positions<C: KeyValueCache>(
    cache: Option<C::State>,
    queries: Tn,
    keys: Tn,
    values: Tn,
) -> (Tn, Tn, Option<C::State>) {
    match (cache, queries, keys, values) {
        (Some(s), Ok(_), Ok(k), Ok(v)) => {
            let (t, r) = C::updated(s, k, v);
            match r {
                Ok((a, b)) => (Ok(a), Ok(b), Some(t)),
                Err(e) => (Err(e), Err(e), Some(t)),
            }
        },
        _ => (keys, values, cache),
    }
}

/// Attention of queries on all positions, and the cache behind it.
pub open spec fn attended<C: KeyValueCache>(
    rope: RopeVariant,
    queries: Tn,
    keys: Tn,
    values: Tn,
    scale: Scalar,
    mask: MaskTerm,
    sinks: Option<Term>,
    cache: Option<C::State>,
    pads: Option<Term>,
) -> (Tn, Option<C::State>) {
    let q = rotated::<C>(rope, queries, cache, pads);
    let k = rotated::<C>(rope, keys, cache, pads);
    let (all_k, all_v, after) = all_positions::<C>(cache, q, k, values);
    (t_attention(q, all_k, all_v, scale, mask, sinks), after)
}

/// A mask array as a mask of the attention kernel.
pub fn explicit_mask<'a>(mask: Option<&'a Array>) -> (r: Option<ScaledDotProductAttentionMask<'a>>)
    ensures
        mask_term(r) == array_mask(opt_ref_term(mask)),
{
    match mask {
        Some(m) => Some(ScaledDotProductAttentionMask::Array(m)),
        None => None,
    }
}

/// Turns queries and keys by their positions, adds keys and values to the cache, and attends.
pub fn attend<C: KeyValueCache>(
    rope: &RopeVariant,
    queries: Array,
    keys: Array,
    values: Array,
    scale: Scalar,
    mask: Option<ScaledDotProductAttentionMask<'_>>,
    sinks: Option<&Array>,
    cache: Option<&mut C>,
    pads: Option<&Array>,
) -> (r: Result<Array, Exception>)
    ensures
        tn(r) == attended::<C>(
            *rope,
            Ok(queries@),
            Ok(keys@),
            Ok(values@),
            scale,
            mask_term(mask),
            opt_ref_term(sinks),
            borrowed_state(cache),
            opt_ref_term(pads),
        ).0,
        match cache {
            Some(c) => Some((*final(c)).state()),
            None => None,
        } == attended::<C>(
            *rope,
            Ok(queries@),
            Ok(keys@),
            Ok(values@),
            scale,
            mask_term(mask),
            opt_ref_term(sinks),
            borrowed_state(cache),
            opt_ref_term(pads),
        ).1,
{
    match cache {
        Some(c) => {
            let offset: i32 = c.offset();
            let queries = rotate(rope, &queries, Some(offset), pads)?;
            let keys = rotate(rope, &keys, Some(offset), pads)?;
            let (keys, values) = c.update_and_fetch(keys, values)?;
            scaled_dot_product_attention_device(&queries, &keys, &values, scale, mask, sinks)
        },
        None => {
            let queries = rotate(rope, &queries, None, pads)?;
            let keys = rotate(rope, &keys, None, pads)?;
            scaled_dot_product_attention_device(&queries, &keys, &values, scale, mask, sinks)
        },
    }
}

} // verus!
