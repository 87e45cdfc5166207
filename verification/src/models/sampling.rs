//! Choosing the next token.

use std::sync::Arc;

use crate::array::{tn, Array, Dtype, Term, Tn};
use crate::error::Exception;
use crate::ops::create::{t_int, t_integers, t_scalar};
use crate::ops::elementwise::{
    t_add, t_divide, t_eq, t_ge, t_gt, t_log, t_lt, t_maximum, t_minimum, t_multiply, t_subtract,
    t_where, which,
};
use crate::ops::layout::{t_expand_dims, t_reshape};
use crate::ops::reduce::{
    argmax_axis, argsort_axis, categorical, cumsum, softmax_axis, sort_axis, t_argmax, t_argsort,
    t_categorical, t_cumsum, t_softmax, t_sort,
};
use crate::ops::select::{
    put_along_axis, t_put_along, t_select, t_take_along, take_along_axis,
};
use crate::scalar::{lit, Float, Scalar, NEG_INFINITY_BITS, ONE_BITS, ZERO_BITS};
use crate::shape::no_negative;
use crate::utils::rope::ratio;
use vstd::prelude::*;
use vstd::slice::slice_subrange;

verus! {

/// The bit pattern of the number that keeps logarithms of kept probabilities finite, `1e-9`.
pub const TINY_BITS: u32 = 0x3089_705f;

/// Sampling knobs. A `top_k` of zero or less, a `top_p` of one or more and a `repeat_penalty` of
/// one switch those filters off; a `temp` of zero picks the most likely token.
#[derive(Clone, Copy, PartialEq, Eq, Debug, Structural)]
pub struct SamplerOpts {
    pub temp: Float,
    pub top_p: Float,
    pub top_k: i32,
    /// Recently seen tokens have positive logits divided and negative ones multiplied by this.
    pub repeat_penalty: Float,
}

/// The number one.
pub open spec fn one() -> Float {
    Float { bits: ONE_BITS }
}

/// The number zero.
pub open spec fn zero() -> Float {
    Float { bits: ZERO_BITS }
}

impl SamplerOpts {
    /// Only a temperature.
    pub fn with_temp(temp: Float) -> (r: SamplerOpts)
        ensures
            r == (SamplerOpts { temp, top_p: one(), top_k: 0, repeat_penalty: one() }),
    {
        SamplerOpts {
            temp,
            top_p: Float { bits: ONE_BITS },
            top_k: 0,
            repeat_penalty: Float { bits: ONE_BITS },
        }
    }

    /// Whether recently seen tokens matter.
    pub open spec fn penalizes(self) -> bool {
        !self.repeat_penalty.same(one())
    }

    /// Whether recently seen tokens matter.
    pub fn keeps_history(&self) -> (r: bool)
        ensures
            r == self.penalizes(),
    {
        !self.repeat_penalty.equals(Float { bits: ONE_BITS })
    }
}

/// A token id as a signed number with the same bits.
pub open spec fn signed(id: u32) -> i32 {
    if id < 0x8000_0000 {
        id as i32
    } else {
        (id - 0x1_0000_0000) as i32
    }
}

/// The ids as one row.
pub open spec fn id_row(recent: Seq<u32>) -> Tn {
    if recent.len() > i32::MAX {
        Err(Exception::Operands)
    } else {
        t_integers(
            Seq::new(recent.len(), |i: int| signed(recent[i])),
            seq![1i32, recent.len() as i32],
            Dtype::Int32,
        )
    }
}

/// Logits in which the ids seen recently are penalized: positive logits are divided, the others
/// multiplied.
pub open spec fn penalized(logits: Tn, recent: Seq<u32>, penalty: Float) -> Tn {
    let ids = id_row(recent);
    let selected = t_take_along(logits, ids, -1i32);
    let pen = t_scalar(Scalar::Lit(penalty));
    t_put_along(
        logits,
        ids,
        t_where(
            t_gt(selected, t_scalar(lit(ZERO_BITS))),
            t_divide(selected, pen),
            t_multiply(selected, pen),
        ),
        -1i32,
    )
}

/// Logits below the `top_k` largest of their row set to negative infinity.
pub open spec fn top_k_kept(logits: Term, top_k: i32) -> Tn {
    let vocab = logits.shape.last();
    if 0 < top_k < vocab {
        let kth = t_expand_dims(
            t_select(t_sort(Ok(logits), -1i32), 1, (vocab - top_k) as i32),
            1,
        );
        t_where(t_lt(Ok(logits), kth), t_scalar(lit(NEG_INFINITY_BITS)), Ok(logits))
    } else {
        Ok(logits)
    }
}

/// A draw from the sorted probabilities whose running sum is above a threshold, mapped back to
/// token ids.
pub open spec fn drawn_above(logits: Tn, threshold: Tn, draw: u64) -> Tn {
    let probs = t_softmax(logits, -1i32, true);
    let order = t_argsort(probs, -1i32);
    let sorted = t_take_along(probs, order, -1i32);
    let kept = t_where(
        t_gt(t_cumsum(sorted, -1i32), threshold),
        sorted,
        t_scalar(lit(ZERO_BITS)),
    );
    let drawn = t_categorical(t_log(t_add(kept, t_scalar(lit(TINY_BITS)))), draw);
    t_select(t_take_along(order, t_expand_dims(drawn, 1), -1i32), 1, 0)
}

/// One minus the mass that nucleus sampling keeps.
pub open spec fn cut_mass(top_p: Float) -> Scalar {
    Scalar::Difference(Arc::new(lit(ONE_BITS)), Arc::new(Scalar::Lit(top_p)))
}

/// A draw from filtered logits.
pub open spec fn drawn(logits: Tn, top_p: Float, draw: u64) -> Tn {
    if top_p.less(one()) {
        drawn_above(logits, t_scalar(cut_mass(top_p)), draw)
    } else {
        t_categorical(logits, draw)
    }
}

/// The token of every row: the repetition penalty first, then the most likely token at a
/// temperature of zero, and otherwise a draw from the logits divided by the temperature, cut to
/// the `top_k` largest and to the nucleus of mass `top_p`. `draw` numbers the draw: draws of one
/// number from the same logits are the same draw, and draws of two numbers are independent.
pub open spec fn sampled(logits: Tn, opts: SamplerOpts, recent: Seq<u32>, draw: u64) -> Tn {
    let scores = if opts.penalizes() && recent.len() > 0 {
        penalized(logits, recent, opts.repeat_penalty)
    } else {
        logits
    };
    if opts.temp.same(zero()) {
        t_argmax(scores, -1i32)
    } else {
        match t_multiply(scores, t_scalar(ratio(lit(ONE_BITS), Scalar::Lit(opts.temp)))) {
            Ok(scaled) => if scaled.shape.len() >= 1 && scaled.shape.last() >= 0 {
                drawn(top_k_kept(scaled, opts.top_k), opts.top_p, draw)
            } else {
                Err(Exception::Operands)
            },
            Err(e) => Err(e),
        }
    }
}

/// Picks a token for every row of logits by temperature alone.
pub fn sample(logits: &Array, temp: Float, draw: u64) -> (r: Result<Array, Exception>)
    ensures
        tn(r) == sampled(
            Ok(logits@),
            SamplerOpts { temp, top_p: one(), top_k: 0, repeat_penalty: one() },
            Seq::empty(),
            draw,
        ),
{
    let none: Vec<u32> = Vec::new();
    sample_with(logits, &SamplerOpts::with_temp(temp), none.as_slice(), draw)
}

/// The token of every row by temperature alone, whatever the number of axes.
pub open spec fn plain_sampled(logits: Tn, temp: Float, draw: u64) -> Tn {
    if temp.same(zero()) {
        t_argmax(logits, -1i32)
    } else {
        t_categorical(
            t_multiply(logits, t_scalar(ratio(lit(ONE_BITS), Scalar::Lit(temp)))),
            draw,
        )
    }
}

/// Picks a token for every row by temperature alone, whatever the number of axes.
pub fn sample_plain(logits: &Array, temp: Float, draw: u64) -> (r: Result<Array, Exception>)
    ensures
        tn(r) == plain_sampled(Ok(logits@), temp, draw),
{
    if temp.equals(Float { bits: ZERO_BITS }) {
        argmax_axis(logits, -1)
    } else {
        let inverse = Scalar::lit(ONE_BITS).over(Scalar::Lit(temp));
        categorical(&logits.multiply(&Array::from_scalar(inverse))?, draw)
    }
}

/// Penalizes the logits of recently seen tokens. A token that occurs several times is penalized
/// once.
pub fn apply_repeat_penalty(logits: &Array, recent: &[u32], penalty: Float) -> (r: Result<
    Array,
    Exception,
>)
    ensures
        tn(r) == penalized(Ok(logits@), recent@, penalty),
{
    if recent.len() > 0x7fff_ffff {
        return Err(Exception::Operands);
    }
    let mut ids: Vec<i32> = Vec::new();
    let mut i: usize = 0;
    while i < recent.len()
        invariant
            i <= recent@.len(),
            ids@.len() == i,
            forall|j: int| 0 <= j < i ==> ids@[j] == signed(#[trigger] recent@[j]),
        decreases recent@.len() - i,
    {
        let t: u32 = recent[i];
        let id: i32 = if t < 0x8000_0000 {
            t as i32
        } else {
            (t as i64 - 0x1_0000_0000) as i32
        };
        ids.push(id);
        i += 1;
    }
    let shape: Vec<i32> = vec![1, recent.len() as i32];
    proof {
        assert(ids@ =~= Seq::new(recent@.len(), |i: int| signed(recent@[i])));
        assert(shape@ =~= seq![1i32, recent@.len() as i32]);
    }
    let idx = Array::integers(ids, shape, Dtype::Int32)?;
    let selected = take_along_axis(logits, &idx, -1)?;
    let pen = Array::from_scalar(Scalar::Lit(penalty));
    let positive = selected.gt(&Array::from_scalar(Scalar::lit(ZERO_BITS)))?;
    let smaller = selected.divide(&pen)?;
    let larger = selected.multiply(&pen)?;
    let penalized = which(&positive, &smaller, &larger)?;
    put_along_axis(logits, &idx, &penalized, -1)
}

/// Picks a token for every row of logits (`[B, vocab]`). Without a penalty or without recent
/// tokens the logits are taken as they are; the most likely token is picked at a temperature of
/// zero.
pub fn sample_with(logits: &Array, opts: &SamplerOpts, recent: &[u32], draw: u64) -> (r: Result<
    Array,
    Exception,
>)
    ensures
        tn(r) == sampled(Ok(logits@), *opts, recent@, draw),
{
    let scores = if opts.keeps_history() && recent.len() > 0 {
        apply_repeat_penalty(logits, recent, opts.repeat_penalty)?
    } else {
        logits.share()
    };
    if opts.temp.equals(Float { bits: ZERO_BITS }) {
        return argmax_axis(&scores, -1);
    }
    let inverse = Scalar::lit(ONE_BITS).over(Scalar::Lit(opts.temp));
    let scaled = scores.multiply(&Array::from_scalar(inverse))?;
    let n: usize = scaled.ndim();
    if n == 0 {
        return Err(Exception::Operands);
    }
    let vocab: i32 = scaled.shape()[n - 1];
    if vocab < 0 {
        return Err(Exception::Operands);
    }
    let kept = if opts.top_k > 0 && opts.top_k < vocab {
        let sorted = sort_axis(&scaled, -1)?;
        let kth = sorted.select(1, vocab - opts.top_k)?.expand_dims(1)?;
        let low = scaled.lt(&kth)?;
        which(&low, &Array::from_scalar(Scalar::lit(NEG_INFINITY_BITS)), &scaled)?
    } else {
        scaled
    };
    if opts.top_p.lt(Float { bits: ONE_BITS }) {
        return top_p_sample(&kept, opts.top_p, draw);
    }
    categorical(&kept, draw)
}

fn draw_above(logits: &Array, threshold: &Array, draw: u64) -> (r: Result<Array, Exception>)
    ensures
        tn(r) == drawn_above(Ok(logits@), Ok(threshold@), draw),
{
    let probs = softmax_axis(logits, -1, true)?;
    let order = argsort_axis(&probs, -1)?;
    let sorted = take_along_axis(&probs, &order, -1)?;
    let keep = cumsum(&sorted, -1)?.gt(threshold)?;
    let kept = which(&keep, &sorted, &Array::from_scalar(Scalar::lit(ZERO_BITS)))?;
    let logp = kept.add(&Array::from_scalar(Scalar::lit(TINY_BITS)))?.log()?;
    let place = categorical(&logp, draw)?;
    take_along_axis(&order, &place.expand_dims(1)?, -1)?.select(1, 0)
}

/// Draws from the smallest set of most likely tokens whose mass reaches `top_p`.
pub fn top_p_sample(logits: &Array, top_p: Float, draw: u64) -> (r: Result<Array, Exception>)
    ensures
        tn(r) == drawn_above(Ok(logits@), t_scalar(cut_mass(top_p)), draw),
{
    let cut = Scalar::lit(ONE_BITS).minus(Scalar::Lit(top_p));
    draw_above(logits, &Array::from_scalar(cut), draw)
}

/// The logits of every row divided by the temperature of that row, or by one where it is zero.
pub open spec fn row_scaled(logits: Term, temp: Tn) -> Tn {
    t_divide(
        Ok(logits),
        t_where(t_eq(temp, t_scalar(lit(ZERO_BITS))), t_scalar(lit(ONE_BITS)), temp),
    )
}

/// Logits below the `top_k` largest of their row set to negative infinity, with a `top_k` for
/// every row; rows with none keep everything.
pub open spec fn row_top_k(scaled: Tn, top_k: Tn, vocab: i32) -> Tn {
    let place = t_minimum(
        t_maximum(t_subtract(t_int(vocab), top_k), t_int(0)),
        t_int((vocab - 1) as i32),
    );
    let kth = t_take_along(t_sort(scaled, -1i32), place, -1i32);
    let least = t_where(t_gt(top_k, t_int(0)), kth, t_scalar(lit(NEG_INFINITY_BITS)));
    t_where(t_ge(scaled, least), scaled, t_scalar(lit(NEG_INFINITY_BITS)))
}

/// The token drawn for every row by the settings of that row.
pub open spec fn rows_drawn(logits: Term, temp: Term, top_k: Term, top_p: Term, draw: u64) -> Tn {
    let b = logits.shape[0];
    let vocab = logits.shape.last();
    let temp_c = t_reshape(Ok(temp), seq![b, 1i32]);
    let top_k_c = t_reshape(Ok(top_k), seq![b, 1i32]);
    let top_p_c = t_reshape(Ok(top_p), seq![b, 1i32]);
    let kept = row_top_k(row_scaled(logits, temp_c), top_k_c, vocab);
    drawn_above(kept, t_subtract(t_scalar(lit(ONE_BITS)), top_p_c), draw)
}

/// The token of every row by the settings of that row: the most likely one where the temperature
/// is zero, and the drawn one elsewhere.
pub open spec fn sampled_rows(logits: Term, temp: Term, top_k: Term, top_p: Term, draw: u64) -> Tn {
    t_where(
        t_eq(Ok(temp), t_scalar(lit(ZERO_BITS))),
        t_argmax(Ok(logits), -1i32),
        rows_drawn(logits, temp, top_k, top_p, draw),
    )
}

/// Picks a token for every row of logits (`[B, vocab]`), each row by its own temperature, `top_k`
/// and `top_p` (`[B]`). A temperature of zero picks the most likely token of that row; a `top_k`
/// of zero or less and a `top_p` of one or more filter nothing there.
pub fn sample_rows(
    logits: &Array,
    temp: &Array,
    top_k: &Array,
    top_p: &Array,
    draw: u64,
) -> (r: Result<Array, Exception>)
    requires
        logits@.shape.len() >= 1,
        no_negative(logits@.shape),
    ensures
        tn(r) == sampled_rows(logits@, temp@, top_k@, top_p@, draw),
{
    let b: i32 = logits.shape()[0];
    let vocab: i32 = logits.shape()[logits.ndim() - 1];
    let column: Vec<i32> = vec![b, 1];
    proof {
        assert(column@ =~= seq![b, 1i32]);
    }
    let temp_c = temp.reshape(&column)?;
    let top_k_c = top_k.reshape(&column)?;
    let top_p_c = top_p.reshape(&column)?;
    let neg_inf = Array::from_scalar(Scalar::lit(NEG_INFINITY_BITS));
    let zero_f = Array::from_scalar(Scalar::lit(ZERO_BITS));
    let one_f = Array::from_scalar(Scalar::lit(ONE_BITS));
    let greedy = argmax_axis(logits, -1)?;
    let is_greedy = temp_c.eq(&zero_f)?;
    let safe_temp = which(&is_greedy, &one_f, &temp_c)?;
    let scaled = logits.divide(&safe_temp)?;
    let sorted = sort_axis(&scaled, -1)?;
    let place = Array::from_int(vocab).subtract(&top_k_c)?;
    let place = place.maximum(&Array::from_int(0))?;
    let place = place.minimum(&Array::from_int(vocab - 1))?;
    let kth = take_along_axis(&sorted, &place, -1)?;
    let limited = top_k_c.gt(&Array::from_int(0))?;
    let least = which(&limited, &kth, &neg_inf)?;
    let high = scaled.ge(&least)?;
    let kept = which(&high, &scaled, &neg_inf)?;
    let threshold = one_f.subtract(&top_p_c)?;
    let drawn = draw_above(&kept, &threshold, draw)?;
    which(&temp.eq(&zero_f)?, &greedy, &drawn)
}

/// The number of latest tokens that the repetition penalty looks at.
pub const REPEAT_CONTEXT: usize = 256;

/// The last [`REPEAT_CONTEXT`] ids of a history, or all of a shorter one.
pub open spec fn window(history: Seq<u32>) -> Seq<u32> {
    if history.len() > REPEAT_CONTEXT {
        history.skip(history.len() - REPEAT_CONTEXT)
    } else {
        history
    }
}

/// The recent tokens of a history.
pub fn repeat_window(history: &[u32]) -> (r: &[u32])
    ensures
        r@ == window(history@),
{
    let start: usize = if history.len() > REPEAT_CONTEXT {
        history.len() - REPEAT_CONTEXT
    } else {
        0
    };
    let r = slice_subrange(history, start, history.len());
    proof {
        assert(r@ =~= window(history@));
    }
    r
}

/// The tokens that the penalty of a sampler looks at.
pub open spec fn recent_tokens(opts: SamplerOpts, history: Seq<u32>) -> Seq<u32> {
    if opts.penalizes() {
        window(history)
    } else {
        Seq::empty()
    }
}

/// Picks a token for every row, with the penalty taken from a history.
pub fn sample_after(
    logits: &Array,
    opts: &SamplerOpts,
    history: &Vec<u32>,
    draw: u64,
) -> (r: Result<Array, Exception>)
    ensures
        tn(r) == sampled(Ok(logits@), *opts, recent_tokens(*opts, history@), draw),
{
    if opts.keeps_history() {
        sample_with(logits, opts, repeat_window(history.as_slice()), draw)
    } else {
        let none: Vec<u32> = Vec::new();
        sample_with(logits, opts, none.as_slice(), draw)
    }
}

/// The number of the draw behind one.
pub open spec fn following(draw: u64) -> u64 {
    if draw == u64::MAX {
        0
    } else {
        (draw + 1) as u64
    }
}

/// The number of the draw behind one; behind the last comes the first.
pub fn next_draw(draw: u64) -> (r: u64)
    ensures
        r == following(draw),
{
    if draw == 0xffff_ffff_ffff_ffff {
        0
    } else {
        draw + 1
    }
}

} // verus!
