//! What the settings of a sampler do, and what they leave alone.

use crate::array::{Term, Tn};
use crate::cache::FreshCache;
use crate::error::Exception;
use crate::laws::shapes::has_shape;
use crate::meaning::{elem, flat_index, stretched_index, Elem};
use crate::models::generate::{generated, LanguageModel, StateTerm};
use crate::models::sampling::{
    cut_mass, drawn, drawn_above, id_row, one, penalized, plain_sampled, row_scaled, row_top_k,
    rows_drawn, sampled, sampled_rows, top_k_kept, window, zero, SamplerOpts, REPEAT_CONTEXT,
    TINY_BITS,
};
use crate::ops::create::{t_int, t_scalar};
use crate::ops::elementwise::{
    raw_binary, raw_unary, raw_where, t_add, t_divide, t_eq, t_gt, t_log, t_maximum, t_minimum, t_multiply,
    t_subtract, t_where,
};
use crate::ops::layout::{raw_expand_dims, raw_reshape, t_expand_dims, t_reshape};
use crate::ops::reduce::{
    raw_argmax, raw_argsort, raw_categorical, raw_cumsum, raw_softmax, raw_sort, t_argmax,
    t_argsort, t_categorical, t_cumsum, t_softmax, t_sort,
};
use crate::ops::select::{raw_put_along, raw_select, raw_take_along, t_select, t_take_along};
use crate::scalar::{lit, Float, Scalar, ONE_BITS, ZERO_BITS};
use crate::shape::{broadcast, broadcast_shape, count, is_unknown_at};
use crate::utils::rope::ratio;
use vstd::prelude::*;

verus! {

/// The recent tokens are the end of the history: at most [`REPEAT_CONTEXT`] of them, and all of a
/// history that is no longer.
pub proof fn window_is_the_end(history: Seq<u32>)
    ensures
        window(history).len() <= REPEAT_CONTEXT,
        history.len() <= REPEAT_CONTEXT ==> window(history) == history,
        history.len() > REPEAT_CONTEXT ==> window(history).len() == REPEAT_CONTEXT,
        forall|i: int|
            0 <= i < window(history).len() ==> #[trigger] window(history)[i] == history[i
                + history.len() - window(history).len()],
{
}

/// One more token moves the window on by one.
pub proof fn window_moves_on(history: Seq<u32>, token: u32)
    ensures
        window(history.push(token)).last() == token,
        window(history.push(token)) == window(window(history).push(token)),
{
    let h = history.push(token);
    assert(window(h) =~= window(window(history).push(token)));
}

/// A temperature of zero without a penalty picks the most likely token, whatever the other
/// settings and the tokens seen.
pub proof fn greedy_is_argmax(logits: Tn, opts: SamplerOpts, recent: Seq<u32>, draw: u64)
    requires
        opts.temp.same(zero()),
        !opts.penalizes() || recent.len() == 0,
    ensures
        sampled(logits, opts, recent, draw) == t_argmax(logits, -1i32),
{
}

/// Without a penalty the tokens seen do not matter.
pub proof fn no_penalty_ignores_history(
    logits: Tn,
    opts: SamplerOpts,
    recent: Seq<u32>,
    other: Seq<u32>,
    draw: u64,
)
    requires
        !opts.penalizes(),
    ensures
        sampled(logits, opts, recent, draw) == sampled(logits, opts, other, draw),
{
}

/// A penalty with nothing seen yet changes nothing.
pub proof fn penalty_needs_history(logits: Tn, opts: SamplerOpts, draw: u64)
    ensures
        sampled(logits, opts, Seq::empty(), draw) == sampled(
            logits,
            SamplerOpts { repeat_penalty: one(), ..opts },
            Seq::empty(),
            draw,
        ),
{
}

/// A `top_k` of zero or less, or of the whole vocabulary and more, filters nothing.
pub proof fn top_k_switched_off(logits: Term, top_k: i32)
    requires
        top_k <= 0 || top_k >= logits.shape.last(),
    ensures
        top_k_kept(logits, top_k) == Ok::<Term, Exception>(logits),
{
}

/// A `top_p` of one or more filters nothing.
pub proof fn top_p_switched_off(logits: Tn, top_p: Float, draw: u64)
    requires
        !top_p.less(one()),
    ensures
        drawn(logits, top_p, draw) == t_categorical(logits, draw),
{
}

/// With every filter and the penalty off, a draw is from the logits divided by the temperature.
pub proof fn filters_off_is_plain(
    logits: Term,
    opts: SamplerOpts,
    recent: Seq<u32>,
    draw: u64,
)
    requires
        logits.shape.len() >= 1,
        logits.shape.last() >= 0,
        !opts.temp.same(zero()),
        !opts.penalizes(),
        opts.top_k <= 0,
        !opts.top_p.less(one()),
    ensures
        sampled(Ok(logits), opts, recent, draw) == t_categorical(
            t_multiply(Ok(logits), t_scalar(ratio(lit(ONE_BITS), Scalar::Lit(opts.temp)))),
            draw,
        ),
        sampled(Ok(logits), opts, recent, draw) == plain_sampled(Ok(logits), opts.temp, draw),
{
    reveal(crate::ops::elementwise::raw_binary);
    let s = t_scalar(ratio(lit(ONE_BITS), Scalar::Lit(opts.temp)))->Ok_0;
    assert(s.shape == Seq::<i32>::empty());
    let b = crate::shape::broadcast_shape(logits.shape, s.shape);
    assert(b =~= logits.shape);
    assert(crate::shape::broadcastable(logits.shape, s.shape));
}

proof fn lemma_row_shapes(b: i32, v: i32)
    requires
        b >= 0,
        v >= 0,
    ensures
        broadcast(seq![b, 1i32], Seq::<i32>::empty()) == Some(seq![b, 1i32]),
        broadcast(Seq::<i32>::empty(), seq![b, 1i32]) == Some(seq![b, 1i32]),
        broadcast(seq![b, 1i32], seq![b, 1i32]) == Some(seq![b, 1i32]),
        broadcast(seq![b, v], seq![b, 1i32]) == Some(seq![b, v]),
        broadcast(seq![b, 1i32], seq![b, v]) == Some(seq![b, v]),
        broadcast(seq![b, v], Seq::<i32>::empty()) == Some(seq![b, v]),
        broadcast(seq![b, v], seq![b, v]) == Some(seq![b, v]),
        broadcast(seq![b], Seq::<i32>::empty()) == Some(seq![b]),
        broadcast(seq![b], seq![b]) == Some(seq![b]),
        seq![b, v].update(1, 1i32) == seq![b, 1i32],
        seq![b, 1i32].update(1, 1i32) == seq![b, 1i32],
        seq![b, 1i32].remove(1) == seq![b],
        seq![b, v].remove(1) == seq![b],
        seq![b, v].drop_last() == seq![b],
        seq![b].insert(1, 1i32) == seq![b, 1i32],
{
    let e = Seq::<i32>::empty();
    let c = seq![b, 1i32];
    let t = seq![b, v];
    let r = seq![b];
    assert(broadcast_shape(c, e) =~= c);
    assert(broadcast_shape(e, c) =~= c);
    assert(broadcast_shape(c, c) =~= c);
    assert(broadcast_shape(t, c) =~= t);
    assert(broadcast_shape(c, t) =~= t);
    assert(broadcast_shape(t, e) =~= t);
    assert(broadcast_shape(t, t) =~= t);
    assert(broadcast_shape(r, e) =~= r);
    assert(broadcast_shape(r, r) =~= r);
    assert(t.update(1, 1i32) =~= c);
    assert(c.update(1, 1i32) =~= c);
    assert(c.remove(1) =~= r);
    assert(t.remove(1) =~= r);
    assert(t.drop_last() =~= r);
    assert(r.insert(1, 1i32) =~= c);
}

/// Settings of rows in a column.
proof fn lemma_settings(x: Term, b: i32)
    requires
        b >= 0,
        x.shape == seq![b],
    ensures
        has_shape(t_reshape(Ok(x), seq![b, 1i32]), seq![b, 1i32]),
{
    reveal(raw_reshape);
    let s = seq![b, 1i32];
    assert(s.drop_last() =~= seq![b]);
    assert(seq![b].drop_last() =~= Seq::<i32>::empty());
    reveal_with_fuel(count, 3);
    assert(1 * b == b && b * 1 == b);
    assert forall|k: int| !is_unknown_at(s, k) by {
        if is_unknown_at(s, k) {
            assert(s[k] == -1);
        }
    }
}

proof fn lemma_kept_shape(logits: Term, temp: Tn, top_k: Tn, b: i32, v: i32)
    requires
        b >= 0,
        v >= 0,
        logits.shape == seq![b, v],
        has_shape(temp, seq![b, 1i32]),
        has_shape(top_k, seq![b, 1i32]),
    ensures
        has_shape(row_top_k(row_scaled(logits, temp), top_k, v), seq![b, v]),
{
    lemma_row_shapes(b, v);
    reveal(raw_binary);
    reveal(raw_where);
    assert(has_shape(row_scaled(logits, temp), seq![b, v]));
    let scaled = row_scaled(logits, temp);
    assert(has_shape(t_sort(scaled, -1i32), seq![b, v])) by {
        reveal(raw_sort);
    }
    let place = t_minimum(
        t_maximum(t_subtract(t_int(v), top_k), t_int(0)),
        t_int((v - 1) as i32),
    );
    assert(has_shape(place, seq![b, 1i32]));
    let kth = t_take_along(t_sort(scaled, -1i32), place, -1i32);
    assert(has_shape(kth, seq![b, 1i32])) by {
        reveal(raw_take_along);
    }
}

proof fn lemma_drawn_shape(logits: Tn, threshold: Tn, draw: u64, b: i32, v: i32)
    requires
        b >= 0,
        v >= 0,
        has_shape(logits, seq![b, v]),
        has_shape(threshold, seq![b, 1i32]) || has_shape(threshold, Seq::empty()),
    ensures
        has_shape(drawn_above(logits, threshold, draw), seq![b]),
{
    lemma_row_shapes(b, v);
    let probs = t_softmax(logits, -1i32, true);
    let order = t_argsort(probs, -1i32);
    let sorted = t_take_along(probs, order, -1i32);
    assert(has_shape(probs, seq![b, v])) by {
        reveal(raw_softmax);
    }
    assert(has_shape(order, seq![b, v])) by {
        reveal(raw_argsort);
    }
    assert(has_shape(sorted, seq![b, v])) by {
        reveal(raw_take_along);
    }
    let sums = t_cumsum(sorted, -1i32);
    assert(has_shape(sums, seq![b, v])) by {
        reveal(raw_cumsum);
    }
    let kept = t_where(t_gt(sums, threshold), sorted, t_scalar(lit(ZERO_BITS)));
    assert(has_shape(kept, seq![b, v])) by {
        reveal(raw_binary);
        reveal(raw_where);
    }
    let logs = t_log(t_add(kept, t_scalar(lit(TINY_BITS))));
    assert(has_shape(logs, seq![b, v])) by {
        reveal(raw_binary);
        reveal(raw_unary);
    }
    let place = t_categorical(logs, draw);
    assert(has_shape(place, seq![b])) by {
        reveal(raw_categorical);
    }
    let column = t_expand_dims(place, 1);
    assert(has_shape(column, seq![b, 1i32])) by {
        reveal(raw_expand_dims);
    }
    let picked = t_take_along(order, column, -1i32);
    assert(has_shape(picked, seq![b, 1i32])) by {
        reveal(raw_take_along);
    }
    reveal(raw_select);
}

proof fn lemma_penalized_shape(logits: Term, recent: Seq<u32>, penalty: Float, v: i32)
    requires
        v >= 0,
        logits.shape == seq![1i32, v],
        recent.len() <= i32::MAX,
    ensures
        has_shape(penalized(Ok(logits), recent, penalty), seq![1i32, v]),
{
    let n = recent.len() as i32;
    let row = seq![1i32, n];
    let e = Seq::<i32>::empty();
    let one_by_one = seq![1i32, 1i32];
    assert(row.drop_last() =~= seq![1i32]);
    assert(seq![1i32].drop_last() =~= e);
    reveal_with_fuel(count, 3);
    assert(1 * 1i32 == 1 && 1 * n == n);
    let ids = id_row(recent);
    assert(has_shape(ids, row));
    assert(broadcast_shape(one_by_one, row) =~= row);
    assert(broadcast_shape(row, e) =~= row);
    assert(broadcast_shape(row, row) =~= row);
    assert(broadcast_shape(one_by_one, seq![1i32, v]) =~= seq![1i32, v]);
    assert(logits.shape.update(1, 1i32) =~= one_by_one);
    assert(row.update(1, 1i32) =~= one_by_one);
    let selected = t_take_along(Ok(logits), ids, -1i32);
    assert(has_shape(selected, row)) by {
        reveal(raw_take_along);
    }
    let pen = t_scalar(Scalar::Lit(penalty));
    let changed = t_where(
        t_gt(selected, t_scalar(lit(ZERO_BITS))),
        t_divide(selected, pen),
        t_multiply(selected, pen),
    );
    assert(has_shape(changed, row)) by {
        reveal(raw_binary);
        reveal(raw_where);
    }
    reveal(raw_put_along);
}

/// Sampling gives one token a row. A penalty is for a batch of one.
pub proof fn sampling_gives_a_token_a_row(
    logits: Term,
    opts: SamplerOpts,
    recent: Seq<u32>,
    draw: u64,
    b: i32,
    v: i32,
)
    requires
        b >= 0,
        v >= 0,
        logits.shape == seq![b, v],
        opts.penalizes() && recent.len() > 0 ==> b == 1 && recent.len() <= i32::MAX,
    ensures
        has_shape(sampled(Ok(logits), opts, recent, draw), seq![b]),
{
    lemma_row_shapes(b, v);
    let scores = if opts.penalizes() && recent.len() > 0 {
        penalized(Ok(logits), recent, opts.repeat_penalty)
    } else {
        Ok(logits)
    };
    if opts.penalizes() && recent.len() > 0 {
        lemma_penalized_shape(logits, recent, opts.repeat_penalty, v);
    }
    assert(has_shape(t_argmax(scores, -1i32), seq![b])) by {
        reveal(raw_argmax);
    }
    let scaled = t_multiply(scores, t_scalar(ratio(lit(ONE_BITS), Scalar::Lit(opts.temp))));
    assert(has_shape(scaled, seq![b, v])) by {
        reveal(raw_binary);
    }
    let s = scaled->Ok_0;
    if 0 < opts.top_k < v {
        let sorted = t_sort(scaled, -1i32);
        let kth = t_expand_dims(t_select(sorted, 1, (v - opts.top_k) as i32), 1);
        assert(has_shape(kth, seq![b, 1i32])) by {
            reveal(raw_sort);
            reveal(raw_select);
            reveal(raw_expand_dims);
        }
        assert(broadcast(Seq::<i32>::empty(), seq![b, v]) == Some(seq![b, v])) by {
            assert(broadcast_shape(Seq::<i32>::empty(), seq![b, v]) =~= seq![b, v]);
        }
        assert(has_shape(top_k_kept(s, opts.top_k), seq![b, v])) by {
            reveal(raw_binary);
            reveal(raw_where);
        }
    }
    let kept = top_k_kept(s, opts.top_k);
    assert(has_shape(kept, seq![b, v]));
    if opts.top_p.less(one()) {
        lemma_drawn_shape(kept, t_scalar(cut_mass(opts.top_p)), draw, b, v);
    } else {
        reveal(raw_categorical);
    }
}

/// Batched sampling gives one token a row, and each row goes by its own temperature: a row whose
/// temperature is zero takes its most likely token, and any other row the token drawn for it,
/// whatever the rest of the batch asks for.
pub proof fn rows_go_by_their_own_temperature(
    logits: Term,
    temp: Term,
    top_k: Term,
    top_p: Term,
    draw: u64,
    b: i32,
    v: i32,
    r: int,
    f: Float,
)
    requires
        v >= 0,
        logits.shape == seq![b, v],
        temp.shape == seq![b],
        top_k.shape == seq![b],
        top_p.shape == seq![b],
        0 <= r < b,
        elem(temp, seq![r]) == Elem::Real(Scalar::Lit(f)),
    ensures
        sampled_rows(logits, temp, top_k, top_p, draw) matches Ok(y) && y.shape == seq![b] && elem(
            y,
            seq![r],
        ) == if f.same(zero()) {
            elem(t_argmax(Ok(logits), -1i32)->Ok_0, seq![r])
        } else {
            elem(rows_drawn(logits, temp, top_k, top_p, draw)->Ok_0, seq![r])
        },
{
    lemma_row_shapes(b, v);
    lemma_settings(temp, b);
    lemma_settings(top_k, b);
    lemma_settings(top_p, b);
    let column = seq![b, 1i32];
    let temp_c = t_reshape(Ok(temp), column);
    let top_k_c = t_reshape(Ok(top_k), column);
    let top_p_c = t_reshape(Ok(top_p), column);
    lemma_kept_shape(logits, temp_c, top_k_c, b, v);
    let kept = row_top_k(row_scaled(logits, temp_c), top_k_c, v);
    let threshold = t_subtract(t_scalar(lit(ONE_BITS)), top_p_c);
    assert(has_shape(threshold, column)) by {
        reveal(raw_binary);
    }
    lemma_drawn_shape(kept, threshold, draw, b, v);
    let chosen = rows_drawn(logits, temp, top_k, top_p, draw);
    let greedy = t_argmax(Ok(logits), -1i32);
    assert(has_shape(greedy, seq![b])) by {
        reveal(raw_argmax);
    }
    let zero_t = t_scalar(lit(ZERO_BITS));
    let is_greedy = t_eq(Ok(temp), zero_t);
    let ix = seq![r];
    assert(has_shape(is_greedy, seq![b]) && elem(is_greedy->Ok_0, ix) == Elem::Truth(
        f.same(zero()),
    )) by {
        reveal(raw_binary);
        let e = Seq::<i32>::empty();
        let none = Seq::<int>::empty();
        assert(stretched_index(ix, seq![b]) =~= ix);
        assert(stretched_index(ix, e) =~= none);
        assert(flat_index(none, e) == 0);
        assert(elem(zero_t->Ok_0, none) == Elem::Real(lit(ZERO_BITS)));
    }
    assert(stretched_index(ix, seq![b]) =~= ix);
    reveal(raw_where);
}

/// A generator whose sampler does not penalize repetition draws the same token whatever its
/// history, with the same draw.
pub proof fn generation_without_penalty<M: LanguageModel<C>, C: FreshCache>(
    model: &M,
    state: StateTerm,
    slots: Seq<Option<C::State>>,
    opts: SamplerOpts,
    history: Seq<u32>,
    other: Seq<u32>,
    draw: u64,
)
    requires
        !opts.penalizes(),
    ensures
        generated::<M, C>(model, state, slots, opts, history, draw) == generated::<M, C>(
            model,
            state,
            slots,
            opts,
            other,
            draw,
        ),
{
}

/// The order of single-precision numbers: of two numbers exactly one of below, equal and above
/// holds, and what is not a number is in no order.
pub proof fn float_order(a: Float, b: Float)
    ensures
        a.is_nan() || b.is_nan() ==> !a.less(b) && !a.same(b) && !b.less(a),
        !a.is_nan() && !b.is_nan() ==> (a.less(b) || a.same(b) || b.less(a)),
        !(a.less(b) && a.same(b)) && !(a.less(b) && b.less(a)) && !(a.same(b) && b.less(a)),
        a.same(b) == b.same(a),
{
}

/// The order of single-precision numbers is transitive.
pub proof fn float_order_transitive(a: Float, b: Float, c: Float)
    requires
        a.less(b),
        b.less(c),
    ensures
        a.less(c),
{
}

} // verus!
