//! The delta rule in one run and in several.

use crate::array::{BinaryOp, Dtype, Term};
use crate::error::Exception;
use crate::laws::arrays::{
    a_part_converts, a_part_repeats, a_position_of_a_part, a_slice_is_a_part, is_part,
    same_array, same_expanded, same_pairs, same_sums,
};
use crate::laws::hybrid::scan_carries_over;
use crate::laws::shapes::{a_step_keeps_shapes, has_shape, is_single, lemma_position, lemma_spread};
use crate::meaning::{elem, in_shape};
use crate::models::gated_delta::{
    decayed, first_state, next_state, scan, scanned, spread, step_at, step_output, stepped,
    ScanInput,
};
use crate::ops::create::t_zeros;
use crate::ops::elementwise::{raw_cast, t_cast, t_multiply, t_subtract};
use crate::ops::layout::{raw_repeat, t_expand_dims};
use crate::ops::reduce::t_sum;
use crate::ops::select::{raw_stack, t_select, t_slice, t_stack};
use vstd::prelude::*;

verus! {

/// The same inputs and the same state give the same output and the same new state.
proof fn lemma_same_step(
    q: Term,
    k: Term,
    v: Term,
    g: Term,
    beta: Term,
    state: Term,
    q2: Term,
    k2: Term,
    v2: Term,
    g2: Term,
    beta2: Term,
    state2: Term,
    b: i32,
    h: i32,
    dk: i32,
    dv: i32,
)
    requires
        is_single(Ok(q), seq![b, h, dk]),
        is_single(Ok(k), seq![b, h, dk]),
        is_single(Ok(v), seq![b, h, dv]),
        is_single(Ok(g), seq![b, h]),
        is_single(Ok(beta), seq![b, h]),
        is_single(Ok(state), seq![b, h, dv, dk]),
        same_array(q, q2),
        same_array(k, k2),
        same_array(v, v2),
        same_array(g, g2),
        same_array(beta, beta2),
        same_array(state, state2),
    ensures
        ({
            let r = stepped(Ok(q), Ok(k), Ok(v), Ok(g), Ok(beta), Ok(state));
            let r2 = stepped(Ok(q2), Ok(k2), Ok(v2), Ok(g2), Ok(beta2), Ok(state2));
            &&& r is Ok && r2 is Ok
            &&& is_single(Ok(r->Ok_0.0), seq![b, h, dv])
            &&& is_single(Ok(r->Ok_0.1), seq![b, h, dv, dk])
            &&& same_array(r->Ok_0.0, r2->Ok_0.0)
            &&& same_array(r->Ok_0.1, r2->Ok_0.1)
        }),
{
    a_step_keeps_shapes(Ok(q), Ok(k), Ok(v), Ok(g), Ok(beta), Ok(state), b, h, dk, dv);
    let (s, s2) = (decayed(Ok(state), Ok(g)), decayed(Ok(state2), Ok(g2)));
    let n = next_state(Ok(k), Ok(v), Ok(g), Ok(beta), Ok(state));
    let n2 = next_state(Ok(k2), Ok(v2), Ok(g2), Ok(beta2), Ok(state2));
    assert(n is Ok && step_output(Ok(q), n) is Ok);
    same_expanded(g, g2, 2);
    let (g3, g32) = (t_expand_dims(Ok(g), 2)->Ok_0, t_expand_dims(Ok(g2), 2)->Ok_0);
    assert(g3.shape.len() == 3) by {
        reveal(crate::ops::layout::raw_expand_dims);
    }
    same_expanded(g3, g32, 3);
    let (g4, g42) = (t_expand_dims(Ok(g3), 3)->Ok_0, t_expand_dims(Ok(g32), 3)->Ok_0);
    assert(s is Ok);
    same_pairs(BinaryOp::Multiply, state, state2, g4, g42);
    same_expanded(k, k2, 2);
    let (k4, k42) = (t_expand_dims(Ok(k), 2)->Ok_0, t_expand_dims(Ok(k2), 2)->Ok_0);
    let (p, p2) = (t_multiply(s, Ok(k4)), t_multiply(s2, Ok(k42)));
    assert(p is Ok);
    same_pairs(BinaryOp::Multiply, s->Ok_0, s2->Ok_0, k4, k42);
    assert(p->Ok_0.shape.len() == 4) by {
        reveal(crate::ops::elementwise::raw_binary);
        reveal(crate::ops::layout::raw_expand_dims);
    }
    same_sums(p->Ok_0, p2->Ok_0);
    let (m, m2) = (t_sum(p, -1i32, false), t_sum(p2, -1i32, false));
    let (d, d2) = (t_subtract(Ok(v), m), t_subtract(Ok(v2), m2));
    assert(d is Ok);
    same_pairs(BinaryOp::Subtract, v, v2, m->Ok_0, m2->Ok_0);
    same_expanded(beta, beta2, 2);
    let (b3, b32) = (t_expand_dims(Ok(beta), 2)->Ok_0, t_expand_dims(Ok(beta2), 2)->Ok_0);
    let (e, e2) = (t_multiply(d, Ok(b3)), t_multiply(d2, Ok(b32)));
    assert(e is Ok);
    same_pairs(BinaryOp::Multiply, d->Ok_0, d2->Ok_0, b3, b32);
    assert(e->Ok_0.shape.len() == 3) by {
        reveal(crate::ops::elementwise::raw_binary);
        reveal(crate::ops::layout::raw_expand_dims);
        reveal(crate::ops::reduce::raw_sum);
    }
    same_expanded(e->Ok_0, e2->Ok_0, 3);
    let (e4, e42) = (t_expand_dims(e, 3)->Ok_0, t_expand_dims(e2, 3)->Ok_0);
    let (w, w2) = (t_multiply(Ok(k4), Ok(e4)), t_multiply(Ok(k42), Ok(e42)));
    assert(w is Ok);
    same_pairs(BinaryOp::Multiply, k4, k42, e4, e42);
    same_pairs(BinaryOp::Add, s->Ok_0, s2->Ok_0, w->Ok_0, w2->Ok_0);
    same_expanded(q, q2, 2);
    let (q4, q42) = (t_expand_dims(Ok(q), 2)->Ok_0, t_expand_dims(Ok(q2), 2)->Ok_0);
    let (o, o2) = (t_multiply(n, Ok(q4)), t_multiply(n2, Ok(q42)));
    assert(o is Ok);
    same_pairs(BinaryOp::Multiply, n->Ok_0, n2->Ok_0, q4, q42);
    assert(o->Ok_0.shape.len() == 4) by {
        reveal(crate::ops::elementwise::raw_binary);
        reveal(crate::ops::layout::raw_expand_dims);
    }
    same_sums(o->Ok_0, o2->Ok_0);
}

/// Whether the inputs of a scan are single-precision arrays of `t` positions for `b` rows and `h`
/// heads.
pub open spec fn scan_goes(x: ScanInput, b: i32, t: i32, h: i32, dk: i32, dv: i32) -> bool {
    &&& is_single(Ok(x.q), seq![b, t, h, dk])
    &&& is_single(Ok(x.k), seq![b, t, h, dk])
    &&& is_single(Ok(x.v), seq![b, t, h, dv])
    &&& is_single(Ok(x.g), seq![b, t, h])
    &&& is_single(Ok(x.beta), seq![b, t, h])
}

/// Whether the inputs of a scan are the parts of others from position `lo` on.
pub open spec fn are_parts(x: ScanInput, whole: ScanInput, lo: int) -> bool {
    &&& is_part(x.q, whole.q, lo)
    &&& is_part(x.k, whole.k, lo)
    &&& is_part(x.v, whole.v, lo)
    &&& is_part(x.g, whole.g, lo)
    &&& is_part(x.beta, whole.beta, lo)
}

/// Scanning a part of the positions is scanning those positions of the whole.
pub(crate) proof fn lemma_part_scan(
    x: ScanInput,
    whole: ScanInput,
    lo: int,
    state: Term,
    state2: Term,
    b: i32,
    t: i32,
    h: i32,
    dk: i32,
    dv: i32,
    n: nat,
)
    requires
        n <= t,
        scan_goes(x, b, t, h, dk, dv),
        are_parts(x, whole, lo),
        is_single(Ok(state), seq![b, h, dv, dk]),
        same_array(state, state2),
    ensures
        ({
            let r = scan(x, state, 0, n);
            let r2 = scan(whole, state2, lo, n);
            &&& r is Ok && r2 is Ok
            &&& r->Ok_0.0.len() == n && r2->Ok_0.0.len() == n
            &&& is_single(Ok(r->Ok_0.1), seq![b, h, dv, dk])
            &&& same_array(r->Ok_0.1, r2->Ok_0.1)
            &&& forall|i: int|
                0 <= i < n ==> {
                    &&& is_single(Ok(#[trigger] r->Ok_0.0[i]), seq![b, h, dv])
                    &&& same_array(r->Ok_0.0[i], r2->Ok_0.0[i])
                }
        }),
    decreases n,
{
    if n > 0 {
        let m = (n - 1) as nat;
        lemma_part_scan(x, whole, lo, state, state2, b, t, h, dk, dv, m);
        let (ys, s) = scan(x, state, 0, m)->Ok_0;
        let (ys2, s2) = scan(whole, state2, lo, m)->Ok_0;
        let i = n - 1;
        a_position_of_a_part(x.q, whole.q, lo, i);
        a_position_of_a_part(x.k, whole.k, lo, i);
        a_position_of_a_part(x.v, whole.v, lo, i);
        a_position_of_a_part(x.g, whole.g, lo, i);
        a_position_of_a_part(x.beta, whole.beta, lo, i);
        lemma_position(x.q, seq![b, t, h, dk], i, seq![b, h, dk]);
        lemma_position(x.k, seq![b, t, h, dk], i, seq![b, h, dk]);
        lemma_position(x.v, seq![b, t, h, dv], i, seq![b, h, dv]);
        lemma_position(x.g, seq![b, t, h], i, seq![b, h]);
        lemma_position(x.beta, seq![b, t, h], i, seq![b, h]);
        let j = (lo + i) as i32;
        lemma_same_step(
            t_select(Ok(x.q), 1, i as i32)->Ok_0,
            t_select(Ok(x.k), 1, i as i32)->Ok_0,
            t_select(Ok(x.v), 1, i as i32)->Ok_0,
            t_select(Ok(x.g), 1, i as i32)->Ok_0,
            t_select(Ok(x.beta), 1, i as i32)->Ok_0,
            s,
            t_select(Ok(whole.q), 1, j)->Ok_0,
            t_select(Ok(whole.k), 1, j)->Ok_0,
            t_select(Ok(whole.v), 1, j)->Ok_0,
            t_select(Ok(whole.g), 1, j)->Ok_0,
            t_select(Ok(whole.beta), 1, j)->Ok_0,
            s2,
            b,
            h,
            dk,
            dv,
        );
        let (y, z) = step_at(x, 0 + n - 1, s)->Ok_0;
        let (y2, z2) = step_at(whole, lo + n - 1, s2)->Ok_0;
        assert forall|l: int| 0 <= l < n implies is_single(
            Ok(#[trigger] ys.push(y)[l]),
            seq![b, h, dv],
        ) && same_array(ys.push(y)[l], ys2.push(y2)[l]) by {
            if l < m {
                assert(ys.push(y)[l] == ys[l] && ys2.push(y2)[l] == ys2[l]);
            }
        }
    }
}

/// What a scan reads of queries, keys, values, decays and correction parts.
pub open spec fn scan_input(q: Term, k: Term, v: Term, g: Term, beta: Term) -> ScanInput {
    let hk = q.shape[2];
    let hv = v.shape[2];
    ScanInput {
        q: spread(t_cast(Ok(q), Dtype::Float32), hv, hk)->Ok_0,
        k: spread(t_cast(Ok(k), Dtype::Float32), hv, hk)->Ok_0,
        v: t_cast(Ok(v), Dtype::Float32)->Ok_0,
        g: t_cast(Ok(g), Dtype::Float32)->Ok_0,
        beta: t_cast(Ok(beta), Dtype::Float32)->Ok_0,
    }
}

pub(crate) proof fn lemma_part_spread(
    x: Term,
    whole: Term,
    lo: int,
    b: i32,
    t: i32,
    hk: i32,
    hv: i32,
    d: i32,
)
    requires
        whole.shape == seq![b, t, hk, d],
        is_part(x, whole, lo),
        0 < hk <= hv,
        hv % hk == 0,
    ensures
        spread(t_cast(Ok(x), Dtype::Float32), hv, hk) matches Ok(p) && is_part(
            p,
            spread(t_cast(Ok(whole), Dtype::Float32), hv, hk)->Ok_0,
            lo,
        ),
{
    lemma_spread(whole, b, t, hk, hv, d);
    a_part_converts(x, whole, lo, Dtype::Float32);
    let p = t_cast(Ok(x), Dtype::Float32)->Ok_0;
    let w = t_cast(Ok(whole), Dtype::Float32)->Ok_0;
    if hv / hk > 1 {
        a_part_repeats(p, w, lo, (hv / hk) as i32);
    }
}

/// The parts that a run from `lo` to `hi` reads.
proof fn lemma_parts(
    q: Term,
    k: Term,
    v: Term,
    g: Term,
    beta: Term,
    lo: i32,
    hi: i32,
    b: i32,
    t: i32,
    hk: i32,
    hv: i32,
    dk: i32,
    dv: i32,
)
    requires
        0 <= lo <= hi <= t,
        0 < hk <= hv,
        hv % hk == 0,
        q.shape == seq![b, t, hk, dk],
        k.shape == seq![b, t, hk, dk],
        v.shape == seq![b, t, hv, dv],
        g.shape == seq![b, t, hv],
        beta.shape == seq![b, t, hv],
    ensures
        ({
            let n = (hi - lo) as i32;
            let (q1, k1, v1, g1, beta1) = cut(q, k, v, g, beta, lo, hi);
            &&& q1.shape == seq![b, n, hk, dk] && q1.dtype == q.dtype
            &&& k1.shape == seq![b, n, hk, dk]
            &&& v1.shape == seq![b, n, hv, dv]
            &&& g1.shape == seq![b, n, hv]
            &&& beta1.shape == seq![b, n, hv]
            &&& scan_goes(scan_input(q1, k1, v1, g1, beta1), b, n, hv, dk, dv)
            &&& are_parts(
                scan_input(q1, k1, v1, g1, beta1),
                scan_input(q, k, v, g, beta),
                lo as int,
            )
        }),
{
    let n = (hi - lo) as i32;
    a_slice_is_a_part(q, lo, hi);
    a_slice_is_a_part(k, lo, hi);
    a_slice_is_a_part(v, lo, hi);
    a_slice_is_a_part(g, lo, hi);
    a_slice_is_a_part(beta, lo, hi);
    let (q1, k1, v1, g1, beta1) = cut(q, k, v, g, beta, lo, hi);
    assert(q1.shape =~= seq![b, n, hk, dk]);
    assert(k1.shape =~= seq![b, n, hk, dk]);
    assert(v1.shape =~= seq![b, n, hv, dv]);
    assert(g1.shape =~= seq![b, n, hv]);
    assert(beta1.shape =~= seq![b, n, hv]);
    lemma_part_spread(q1, q, lo as int, b, t, hk, hv, dk);
    lemma_part_spread(k1, k, lo as int, b, t, hk, hv, dk);
    lemma_spread(q1, b, n, hk, hv, dk);
    lemma_spread(k1, b, n, hk, hv, dk);
    a_part_converts(v1, v, lo as int, Dtype::Float32);
    a_part_converts(g1, g, lo as int, Dtype::Float32);
    a_part_converts(beta1, beta, lo as int, Dtype::Float32);
    assert(scan_goes(scan_input(q1, k1, v1, g1, beta1), b, n, hv, dk, dv)) by {
        reveal(raw_cast);
    }
}

/// The positions `lo..hi` of queries, keys, values, decays and correction parts.
pub open spec fn cut(
    q: Term,
    k: Term,
    v: Term,
    g: Term,
    beta: Term,
    lo: i32,
    hi: i32,
) -> (Term, Term, Term, Term, Term) {
    (
        t_slice(Ok(q), 1, lo, hi)->Ok_0,
        t_slice(Ok(k), 1, lo, hi)->Ok_0,
        t_slice(Ok(v), 1, lo, hi)->Ok_0,
        t_slice(Ok(g), 1, lo, hi)->Ok_0,
        t_slice(Ok(beta), 1, lo, hi)->Ok_0,
    )
}

/// An output at a position is the output of the step there, converted.
pub(crate) proof fn lemma_output(ys: Seq<Term>, dtype: Dtype, b: i32, h: i32, dv: i32)
    requires
        0 < ys.len() <= i32::MAX,
        forall|i: int| 0 <= i < ys.len() ==> is_single(Ok(#[trigger] ys[i]), seq![b, h, dv]),
    ensures
        t_cast(t_stack(ys, 1), dtype) matches Ok(y) && y.shape == seq![
            b,
            ys.len() as i32,
            h,
            dv,
        ] && y.args.len() == 1 && y.kind is Cast && y.dtype == dtype && y.args[0].dtype
            == Dtype::Float32 && forall|ix: Seq<int>| #[trigger]
            in_shape(ix, y.shape) ==> elem(y.args[0], ix) == elem(ys[ix[1]], ix.remove(1)),
{
    reveal(raw_stack);
    reveal(raw_cast);
    assert(crate::ops::select::alike(ys)) by {
        assert forall|i: int| 0 <= i < ys.len() implies (#[trigger] ys[i]).shape == ys[0].shape
            && ys[i].dtype == ys[0].dtype by {
            assert(is_single(Ok(ys[i]), seq![b, h, dv]));
            assert(is_single(Ok(ys[0]), seq![b, h, dv]));
        }
    }
    assert(is_single(Ok(ys[0]), seq![b, h, dv]));
    let n = ys.len() as i32;
    assert(seq![b, h, dv].insert(1, n) =~= seq![b, n, h, dv]);
    let y = t_cast(t_stack(ys, 1), dtype)->Ok_0;
    assert forall|ix: Seq<int>| #[trigger] in_shape(ix, y.shape) implies elem(y.args[0], ix)
        == elem(ys[ix[1]], ix.remove(1)) by {
        assert(0 <= ix[1] < y.shape[1]);
        assert(y.args[0].args == ys);
    }
}

/// Where both runs put out the same at a position, so do they behind the conversion.
pub(crate) proof fn lemma_same_output(
    whole: Term,
    part: Term,
    ys: Seq<Term>,
    zs: Seq<Term>,
    ix: Seq<int>,
    jx: Seq<int>,
    b: i32,
    h: i32,
    dv: i32,
)
    requires
        whole.kind is Cast,
        part.kind is Cast,
        whole.args.len() == 1,
        part.args.len() == 1,
        whole.dtype == part.dtype,
        whole.args[0].dtype == part.args[0].dtype,
        elem(whole.args[0], ix) == elem(ys[ix[1]], ix.remove(1)),
        elem(part.args[0], jx) == elem(zs[jx[1]], jx.remove(1)),
        same_array(zs[jx[1]], ys[ix[1]]),
        zs[jx[1]].shape == seq![b, h, dv],
        ix.remove(1) == jx.remove(1),
        in_shape(ix.remove(1), seq![b, h, dv]),
    ensures
        elem(whole, ix) == elem(part, jx),
{
}

/// Whether the outputs of two runs, joined, are the output of one run: position `i` is position
/// `i` of the first run below `split` and position `i - split` of the second one from there on.
pub open spec fn joins(whole: Term, first: Term, second: Term, split: i32) -> bool {
    &&& whole.shape.len() == 4
    &&& first.shape == whole.shape.update(1, split)
    &&& second.shape == whole.shape.update(1, (whole.shape[1] - split) as i32)
    &&& whole.dtype == first.dtype && whole.dtype == second.dtype
    &&& forall|ix: Seq<int>| #[trigger]
        in_shape(ix, whole.shape) ==> elem(whole, ix) == if ix[1] < split {
            elem(first, ix)
        } else {
            elem(second, ix.update(1, ix[1] - split))
        }
}

/// The delta rule carries over from one call to the next: running the first `split` positions and
/// then, from the state reached, the others gives the joined outputs and the last state of one run
/// over all positions.
#[verifier::rlimit(60)]
pub proof fn two_runs_are_one(
    q: Term,
    k: Term,
    v: Term,
    g: Term,
    beta: Term,
    state: Option<Term>,
    split: i32,
    b: i32,
    t: i32,
    hk: i32,
    hv: i32,
    dk: i32,
    dv: i32,
)
    requires
        b >= 0,
        0 < split < t,
        0 < hk <= hv,
        hv % hk == 0,
        dk >= 0,
        dv >= 0,
        q.shape == seq![b, t, hk, dk],
        k.shape == seq![b, t, hk, dk],
        v.shape == seq![b, t, hv, dv],
        g.shape == seq![b, t, hv],
        beta.shape == seq![b, t, hv],
        state matches Some(s) ==> is_single(Ok(s), seq![b, hv, dv, dk]),
    ensures
        ({
            let (q1, k1, v1, g1, beta1) = cut(q, k, v, g, beta, 0, split);
            let (q2, k2, v2, g2, beta2) = cut(q, k, v, g, beta, split, t);
            let whole = scanned(q, k, v, g, beta, state);
            let first = scanned(q1, k1, v1, g1, beta1, state);
            let second = scanned(q2, k2, v2, g2, beta2, Some(first->Ok_0.1));
            &&& whole is Ok && first is Ok && second is Ok
            &&& joins(whole->Ok_0.0, first->Ok_0.0, second->Ok_0.0, split)
            &&& same_array(whole->Ok_0.1, second->Ok_0.1)
        }),
{
    let (q1, k1, v1, g1, beta1) = cut(q, k, v, g, beta, 0, split);
    let (q2, k2, v2, g2, beta2) = cut(q, k, v, g, beta, split, t);
    let rest = (t - split) as i32;
    lemma_parts(q, k, v, g, beta, 0, split, b, t, hk, hv, dk, dv);
    lemma_parts(q, k, v, g, beta, split, t, b, t, hk, hv, dk, dv);
    lemma_spread(q, b, t, hk, hv, dk);
    lemma_spread(k, b, t, hk, hv, dk);
    lemma_spread(q1, b, split, hk, hv, dk);
    lemma_spread(k1, b, split, hk, hv, dk);
    lemma_spread(q2, b, rest, hk, hv, dk);
    lemma_spread(k2, b, rest, hk, hv, dk);
    let x = scan_input(q, k, v, g, beta);
    let x1 = scan_input(q1, k1, v1, g1, beta1);
    let x2 = scan_input(q2, k2, v2, g2, beta2);
    let s0 = first_state(state, b, hv, dv, dk);
    assert(is_single(s0, seq![b, hv, dv, dk]));
    let s0 = s0->Ok_0;
    lemma_part_scan(x1, x, 0, s0, s0, b, split, hv, dk, dv, split as nat);
    let (ys1, st1) = scan(x1, s0, 0, split as nat)->Ok_0;
    let (ys, st) = scan(x, s0, 0, split as nat)->Ok_0;
    assert(same_array(st1, st));
    lemma_part_scan(x2, x, split as int, st1, st, b, rest, hv, dk, dv, rest as nat);
    let (zs2, e2) = scan(x2, st1, 0, rest as nat)->Ok_0;
    let (zs, e) = scan(x, st, split as int, rest as nat)->Ok_0;
    scan_carries_over(x, s0, 0, split as nat, rest as nat);
    assert(scan(x, s0, 0, t as nat) == Ok::<(Seq<Term>, Term), Exception>((ys + zs, e)));
    assert forall|i: int| 0 <= i < ys.len() implies is_single(
        Ok(#[trigger] ys[i]),
        seq![b, hv, dv],
    ) by {
        assert(is_single(Ok(ys1[i]), seq![b, hv, dv]));
    }
    let all = ys + zs;
    assert forall|i: int| 0 <= i < all.len() implies is_single(
        Ok(#[trigger] all[i]),
        seq![b, hv, dv],
    ) by {
        if i < split {
            assert(is_single(Ok(ys1[i]), seq![b, hv, dv]));
        } else {
            assert(is_single(Ok(zs2[i - split]), seq![b, hv, dv]));
        }
    }
    lemma_output(all, q.dtype, b, hv, dv);
    lemma_output(ys1, q.dtype, b, hv, dv);
    lemma_output(zs2, q.dtype, b, hv, dv);
    lemma_casts(v, g, beta);
    lemma_casts(v1, g1, beta1);
    lemma_casts(v2, g2, beta2);
    assert(scanned(q1, k1, v1, g1, beta1, state)->Ok_0.1 == st1);
    let whole = scanned(q, k, v, g, beta, state)->Ok_0.0;
    let first = scanned(q1, k1, v1, g1, beta1, state)->Ok_0.0;
    let second = scanned(q2, k2, v2, g2, beta2, Some(st1))->Ok_0.0;
    assert(first.shape =~= whole.shape.update(1, split));
    assert(second.shape =~= whole.shape.update(1, rest));
    assert forall|ix: Seq<int>| #[trigger] in_shape(ix, whole.shape) implies elem(whole, ix) == (
    if ix[1] < split {
        elem(first, ix)
    } else {
        elem(second, ix.update(1, ix[1] - split))
    }) by {
        let sh = whole.shape;
        assert(0 <= ix[0] < sh[0] && 0 <= ix[1] < sh[1] && 0 <= ix[2] < sh[2] && 0 <= ix[3]
            < sh[3]);
        let out = ix.remove(1);
        assert(in_shape(out, seq![b, hv, dv]));
        if ix[1] < split {
            assert(in_shape(ix, first.shape));
            assert(is_single(Ok(ys1[ix[1]]), seq![b, hv, dv]));
            assert(all[ix[1]] == ys[ix[1]]);
            lemma_same_output(whole, first, all, ys1, ix, ix, b, hv, dv);
        } else {
            let jx = ix.update(1, ix[1] - split);
            assert(in_shape(jx, second.shape));
            assert(is_single(Ok(zs2[jx[1]]), seq![b, hv, dv]));
            assert(all[ix[1]] == zs[jx[1]]);
            assert(jx.remove(1) =~= ix.remove(1));
            lemma_same_output(whole, second, all, zs2, ix, jx, b, hv, dv);
        }
    }
}

pub(crate) proof fn lemma_casts(v: Term, g: Term, beta: Term)
    ensures
        t_cast(Ok(v), Dtype::Float32) is Ok,
        t_cast(Ok(g), Dtype::Float32) is Ok,
        t_cast(Ok(beta), Dtype::Float32) is Ok,
{
    reveal(raw_cast);
}

/// Without a state the delta rule starts from zeros.
pub proof fn no_state_is_zeros(q: Term, k: Term, v: Term, g: Term, beta: Term)
    requires
        q.shape.len() >= 4,
        v.shape.len() >= 4,
    ensures
        ({
            let zeros = t_zeros(
                seq![q.shape[0], v.shape[2], v.shape[3], q.shape[3]],
                Dtype::Float32,
            );
            zeros is Ok ==> scanned(q, k, v, g, beta, None) == scanned(
                q,
                k,
                v,
                g,
                beta,
                Some(zeros->Ok_0),
            )
        }),
{
}

/// Every value head reads the key head of its group: with `hv / hk` value heads a key head, value
/// head `ix[2]` reads key head `ix[2] / (hv / hk)`.
pub proof fn value_heads_share_key_heads(
    x: Term,
    b: i32,
    t: i32,
    hk: i32,
    hv: i32,
    d: i32,
    ix: Seq<int>,
)
    requires
        x.shape == seq![b, t, hk, d],
        0 < hk <= hv,
        hv % hk == 0,
        in_shape(ix, seq![b, t, hv, d]),
    ensures
        ({
            let single = t_cast(Ok(x), Dtype::Float32);
            let jx = ix.update(2, ix[2] / (hv / hk));
            &&& has_shape(spread(single, hv, hk), seq![b, t, hv, d])
            &&& in_shape(jx, x.shape)
            &&& elem(spread(single, hv, hk)->Ok_0, ix) == elem(single->Ok_0, jx)
        }),
{
    lemma_spread(x, b, t, hk, hv, d);
    let times = hv / hk;
    let sh = seq![b, t, hv, d];
    assert(0 <= ix[0] < sh[0] && 0 <= ix[1] < sh[1] && 0 <= ix[2] < sh[2] && 0 <= ix[3] < sh[3]);
    assert(0 <= ix[2] / times < hk) by (nonlinear_arith)
        requires
            0 <= ix[2] < hk * times,
            times >= 1,
    ;
    reveal(raw_repeat);
    if times == 1 {
        assert(ix[2] / 1 == ix[2]);
        assert(ix.update(2, ix[2] / times) =~= ix);
    }
}

} // verus!
