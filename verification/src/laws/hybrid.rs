//! Caches, snapshots and prompt reading of models that mix full and linear attention.

use crate::array::{Dtype, Term, Tn};
use crate::cache::{kv_truncated, kv_updated, ConcatKeyValueCache, KvState};
use crate::error::Exception;
use crate::fast::MaskTerm;
use crate::models::gated_delta::{
    decay, first_state, lemma_scan_fails, scan, scannable, scanned, spread, step_at, updated,
    ScanInput,
};
use crate::models::hybrid::{
    chunk_end, chunk_read, chunks_read, empty_layer, polled, prompt_read, read_through, run_hybrid,
    FeedForward, HybridLayer, HybridModel,
};
use crate::models::qwen3_5::{
    layer_truncated, restored, snapped, Attention, GatedDeltaNet, LayerState, SnapState,
};
use crate::nn::t_linear;
use crate::ops::elementwise::{t_cast, t_multiply, t_sigmoid};
use crate::ops::layout::t_reshape;
use crate::ops::select::t_slice;
use crate::utils::attention::{attended, join_heads, rotated};
use crate::utils::rope::RopeVariant;
use vstd::prelude::*;

verus! {

/// Whether two caches are of the same sort.
pub open spec fn same_sort(a: LayerState, b: LayerState) -> bool {
    a is Full == b is Full
}

/// Putting a snapshot back gives the recurrence of a linear layer back, whatever happened in
/// between, and leaves a full layer alone.
pub proof fn restore_gives_back(before: LayerState, after: LayerState)
    requires
        same_sort(before, after),
    ensures
        before is Linear ==> restored(after, snapped(before)) == before,
        before is Full ==> restored(after, snapped(before)) == after,
        snapped(restored(after, snapped(before))) == snapped(before),
{
}

/// Putting a snapshot back twice is putting it back once: the snapshot stays as it was.
pub proof fn restore_twice(c: LayerState, snap: SnapState)
    ensures
        restored(restored(c, snap), snap) == restored(c, snap),
{
}

/// Going back to a shared prefix of `len` positions: after truncating and putting the snapshot
/// back, a full layer is cut down to `len` positions and a linear layer is as it was at the
/// snapshot.
pub proof fn prefix_reuse(at_prefix: LayerState, later: LayerState, len: i32)
    requires
        same_sort(at_prefix, later),
    ensures
        ({
            let c = restored(layer_truncated(later, len), snapped(at_prefix));
            match (at_prefix, later) {
                (LayerState::Linear { .. }, _) => c == at_prefix,
                (_, LayerState::Full(kv)) => c == LayerState::Full(kv_truncated(kv, len)),
                _ => false,
            }
        }),
{
}

/// Truncation leaves a recurrence alone.
pub proof fn truncate_keeps_recurrence(c: LayerState, len: i32)
    requires
        c is Linear,
    ensures
        layer_truncated(c, len) == c,
{
}

/// A layer keeps the sort of its cache.
proof fn lemma_layer_sort<F: FeedForward>(
    layer: HybridLayer<F>,
    x: Term,
    causal: bool,
    cache: LayerState,
)
    ensures
        same_sort(layer.apply(x, causal, cache).1, cache),
{
    reveal(HybridLayer::apply);
}

/// A run keeps the number of the caches and the sort of each.
pub proof fn run_keeps_sorts<F: FeedForward>(
    layers: Seq<HybridLayer<F>>,
    h: Term,
    causal: bool,
    caches: Seq<LayerState>,
    n: nat,
)
    requires
        n <= layers.len(),
        n <= caches.len(),
    ensures
        run_hybrid(layers, h, causal, caches, n).1.len() == caches.len(),
        forall|i: int|
            0 <= i < caches.len() ==> same_sort(
                #[trigger] run_hybrid(layers, h, causal, caches, n).1[i],
                caches[i],
            ),
    decreases n,
{
    if n > 0 {
        run_keeps_sorts(layers, h, causal, caches, (n - 1) as nat);
        let (x, s) = run_hybrid(layers, h, causal, caches, (n - 1) as nat);
        match x {
            Ok(t) => {
                lemma_layer_sort(layers[n - 1], t, causal, s[n - 1]);
            },
            Err(_) => {},
        }
    }
}

/// Whether an outcome, where it is a failure, is about operands that do not fit.
pub open spec fn only_operands(t: Tn) -> bool {
    t matches Err(e) ==> e == Exception::Operands
}

proof fn lemma_linear_errors(l: crate::nn::LinearTerm, x: Tn)
    requires
        only_operands(x),
    ensures
        only_operands(t_linear(l, x)),
{
}

proof fn lemma_cache_errors(s: KvState, k: Term, v: Term)
    ensures
        kv_updated(s, k, v).1 matches Err(e) ==> e == Exception::Operands,
{
}

proof fn lemma_rotated_errors(rope: RopeVariant, x: Tn, cache: Option<KvState>)
    requires
        only_operands(x),
    ensures
        only_operands(rotated::<ConcatKeyValueCache>(rope, x, cache, None)),
{
}

proof fn lemma_attention_errors(a: Attention, n: Term, causal: bool, kv: KvState)
    ensures
        only_operands(a.apply(n, causal, Some(kv)).0),
{
    reveal(Attention::apply);
    if n.shape.len() >= 2 {
        match (a.queries(n), a.gates(n), a.keys(n), a.values(n)) {
            (Ok(q), Ok(g), Ok(k), Ok(v)) => {
                let mask = if causal {
                    MaskTerm::Causal
                } else {
                    MaskTerm::Unmasked
                };
                let cache = Some(kv);
                lemma_rotated_errors(a.rope, Ok(q), cache);
                lemma_rotated_errors(a.rope, Ok(k), cache);
                let q2 = rotated::<ConcatKeyValueCache>(a.rope, Ok(q), cache, None);
                let k2 = rotated::<ConcatKeyValueCache>(a.rope, Ok(k), cache, None);
                if q2 is Ok && k2 is Ok {
                    lemma_cache_errors(kv, k2->Ok_0, v);
                }
                let (attn, after) = attended::<ConcatKeyValueCache>(
                    a.rope,
                    Ok(q),
                    Ok(k),
                    Ok(v),
                    a.scale,
                    mask,
                    None,
                    cache,
                    None,
                );
                assert(only_operands(attn));
                let joined = join_heads(attn, n.shape[0], n.shape[1]);
                assert(only_operands(joined));
                lemma_linear_errors(a.o_proj@, t_multiply(joined, t_sigmoid(Ok(g))));
            },
            _ => {},
        }
    }
}

proof fn lemma_scan_errors(x: ScanInput, state: Term, start: int, n: nat)
    ensures
        scan(x, state, start, n) matches Err(e) ==> e == Exception::Operands,
    decreases n,
{
    if n > 0 {
        lemma_scan_errors(x, state, start, (n - 1) as nat);
    }
}

proof fn lemma_update_errors(
    q: Term,
    k: Term,
    v: Term,
    a: Tn,
    b: Tn,
    a_log: Term,
    dt_bias: Term,
    state: Option<Term>,
    by_ops: bool,
)
    requires
        only_operands(a),
        only_operands(b),
    ensures
        updated(q, k, v, a, b, a_log, dt_bias, state, by_ops) matches Err(e) ==> e
            == Exception::Operands,
{
    match (t_sigmoid(b), decay(Ok(a_log), a, Ok(dt_bias))) {
        (Ok(beta), Ok(g)) => if by_ops {
            lemma_scanned_errors(q, k, v, g, beta, state);
        },
        _ => {},
    }
}

proof fn lemma_scanned_errors(
    q: Term,
    k: Term,
    v: Term,
    g: Term,
    beta: Term,
    state: Option<Term>,
)
    ensures
        scanned(q, k, v, g, beta, state) matches Err(e) ==> e == Exception::Operands,
{
    if scannable(q, v) {
        let hk = q.shape[2];
        let hv = v.shape[2];
        match (
            first_state(state, q.shape[0], hv, v.shape[3], q.shape[3]),
            spread(t_cast(Ok(q), Dtype::Float32), hv, hk),
            spread(t_cast(Ok(k), Dtype::Float32), hv, hk),
            t_cast(Ok(v), Dtype::Float32),
            t_cast(Ok(g), Dtype::Float32),
            t_cast(Ok(beta), Dtype::Float32),
        ) {
            (Ok(s0), Ok(q2), Ok(k2), Ok(v2), Ok(g2), Ok(beta2)) => {
                let x = ScanInput { q: q2, k: k2, v: v2, g: g2, beta: beta2 };
                lemma_scan_errors(x, s0, 0, q.shape[1] as nat);
            },
            _ => {},
        }
    }
}

proof fn lemma_linear_attention_errors(
    a: GatedDeltaNet,
    x: Term,
    conv: Option<Term>,
    state: Option<Term>,
)
    ensures
        only_operands(a.apply(x, conv, state).0),
{
    reveal(GatedDeltaNet::apply);
    if x.shape.len() >= 2 && a.projected(x) {
        match a.conv_input(x, conv) {
            Ok(input) => {
                match (a.queries(x, input), a.keys(x, input), a.values(x, input)) {
                    (Ok(q), Ok(k), Ok(v)) => {
                        lemma_update_errors(
                            q,
                            k,
                            v,
                            t_linear(a.in_proj_a@, Ok(x)),
                            t_linear(a.in_proj_b@, Ok(x)),
                            a.a_log@,
                            a.dt_bias@,
                            state,
                            a.by_ops,
                        );
                        match a.recurred(x, input, state) {
                            Ok((out, next)) => {
                                let normed = a.norm.apply(Ok(out), Some(a.gate(x)));
                                assert(only_operands(normed));
                                let flat = t_reshape(
                                    normed,
                                    seq![x.shape[0], x.shape[1], -1i32],
                                );
                                lemma_linear_errors(a.out_proj@, flat);
                            },
                            Err(_) => {},
                        }
                    },
                    _ => {},
                }
            },
            Err(_) => {},
        }
    }
}

/// A layer whose cache is of its sort never refuses the cache. The condition on the layer says
/// that its feed-forward part does not fail for that reason itself.
proof fn lemma_layer_accepts<F: FeedForward>(
    layer: HybridLayer<F>,
    x: Term,
    causal: bool,
    cache: LayerState,
)
    requires
        (cache is Linear) == layer.is_linear,
        layer.wf(),
        forall|t: Term| #[trigger] layer.mlp.feed(t) != Err::<Term, Exception>(Exception::CacheKind),
    ensures
        layer.apply(x, causal, cache).0 != Err::<Term, Exception>(Exception::CacheKind),
{
    reveal(HybridLayer::apply);
    match layer.input_layernorm.apply(Ok(x)) {
        Ok(n) => {
            match cache {
                LayerState::Full(kv) => {
                    lemma_attention_errors(layer.self_attn->Some_0, n, causal, kv);
                },
                LayerState::Linear { conv, state } => {
                    lemma_linear_attention_errors(layer.linear_attn->Some_0, n, conv, state);
                },
            }
            let (r, after) = layer.mixed(n, causal, cache);
            assert(only_operands(r));
        },
        Err(_) => {},
    }
}

/// Fresh caches fit the layers that they were made for: running over them no layer refuses its
/// cache.
pub proof fn fresh_caches_are_accepted<F: FeedForward>(
    layers: Seq<HybridLayer<F>>,
    h: Term,
    causal: bool,
    caches: Seq<LayerState>,
    n: nat,
)
    requires
        n <= layers.len(),
        caches.len() == layers.len(),
        forall|i: int|
            0 <= i < caches.len() ==> #[trigger] caches[i] == empty_layer(layers[i].is_linear),
        forall|i: int| 0 <= i < layers.len() ==> (#[trigger] layers[i]).wf(),
        forall|i: int, t: Term|
            0 <= i < layers.len() ==> #[trigger] layers[i].mlp.feed(t) != Err::<Term, Exception>(
                Exception::CacheKind,
            ),
    ensures
        run_hybrid(layers, h, causal, caches, n).0 != Err::<Term, Exception>(Exception::CacheKind),
    decreases n,
{
    if n > 0 {
        fresh_caches_are_accepted(layers, h, causal, caches, (n - 1) as nat);
        run_keeps_sorts(layers, h, causal, caches, (n - 1) as nat);
        let (x, s) = run_hybrid(layers, h, causal, caches, (n - 1) as nat);
        match x {
            Ok(t) => {
                assert(caches[n - 1] == empty_layer(layers[n - 1].is_linear));
                assert(same_sort(s[n - 1], caches[n - 1]));
                assert forall|t: Term| #[trigger]
                    layers[n - 1].mlp.feed(t) != Err::<Term, Exception>(Exception::CacheKind) by {}
                lemma_layer_accepts(layers[n - 1], t, causal, s[n - 1]);
            },
            Err(_) => {},
        }
    }
}

/// The chunks of a prompt follow each other without a gap: after `k` whole chunks the next
/// position to read is `k * chunk`, and every position before it was read once.
pub proof fn chunks_follow_each_other<F: FeedForward>(
    model: &HybridModel<F>,
    ids: Term,
    caches: Seq<LayerState>,
    chunk: i32,
    k: nat,
)
    requires
        ids.shape.len() >= 2,
        chunk > 0,
        chunks_read(model, ids, caches, chunk, k).out is None,
    ensures
        chunks_read(model, ids, caches, chunk, k).start == k * chunk,
        k > 0 ==> k * chunk < ids.shape[1],
    decreases k,
{
    if k > 0 {
        let p = chunks_read(model, ids, caches, chunk, (k - 1) as nat);
        chunks_follow_each_other(model, ids, caches, chunk, (k - 1) as nat);
        assert((k - 1) * chunk + chunk == k * chunk) by (nonlinear_arith);
    }
}

/// A prompt that fits in one chunk is read in one pass: the outcome is that of running all of it
/// and keeping the last position.
pub proof fn one_chunk_is_one_pass<F: FeedForward>(
    model: &HybridModel<F>,
    ids: Term,
    caches: Seq<LayerState>,
    chunk: i32,
)
    requires
        ids.shape.len() >= 2,
        0 <= ids.shape[1] < i32::MAX,
        ids.shape[1] <= chunk,
        chunk > 0,
    ensures
        ({
            let t = ids.shape[1];
            let p = prompt_read(model, ids, caches, chunk);
            match t_slice(Ok(ids), 1, 0, t) {
                Ok(whole) => {
                    let (h, after) = model.run(whole, caches);
                    p.caches == after && p.out == Some(t_slice(h, 1, (t - 1) as i32, t))
                },
                Err(e) => p.caches == caches && p.out == Some(Err::<Term, Exception>(e)),
            }
        }),
{
    let t = ids.shape[1];
    let p0 = chunks_read(model, ids, caches, chunk, 0);
    let p1 = chunks_read(model, ids, caches, chunk, 1);
    assert(p1 == chunk_read(model, ids, chunk, p0));
    assert(chunk_end(0, chunk, t) == t);
    crate::models::hybrid::lemma_chunks_end(model, ids, caches, chunk, 1, (t + 1) as nat);
}

/// Reading always ends: the whole reading of a prompt has an outcome.
pub proof fn reading_ends<F: FeedForward>(
    model: &HybridModel<F>,
    ids: Term,
    caches: Seq<LayerState>,
    chunk: i32,
)
    requires
        ids.shape.len() >= 2,
        0 <= ids.shape[1] < i32::MAX,
        chunk > 0,
    ensures
        prompt_read(model, ids, caches, chunk).out is Some,
{
    let t = ids.shape[1];
    let k = (t + 1) as nat;
    if chunks_read(model, ids, caches, chunk, k).out is None {
        chunks_follow_each_other(model, ids, caches, chunk, k);
        assert(k * chunk >= k) by (nonlinear_arith)
            requires
                chunk >= 1,
                k >= 0,
        ;
    }
}

/// While every answer is no, a polled reading is the reading of as many chunks.
proof fn lemma_polls<F: FeedForward>(
    model: &HybridModel<F>,
    ids: Term,
    caches: Seq<LayerState>,
    chunk: i32,
    answers: Seq<bool>,
)
    requires
        !polled(model, ids, caches, chunk, answers).ended(),
    ensures
        forall|j: int| 0 <= j < answers.len() ==> !(#[trigger] answers[j]),
        polled(model, ids, caches, chunk, answers).progress == chunks_read(
            model,
            ids,
            caches,
            chunk,
            answers.len(),
        ),
    decreases answers.len(),
{
    if answers.len() > 0 {
        let front = answers.drop_last();
        let p = polled(model, ids, caches, chunk, front);
        assert(!p.ended());
        lemma_polls(model, ids, caches, chunk, front);
        assert forall|j: int| 0 <= j < answers.len() implies !(#[trigger] answers[j]) by {
            if j < front.len() {
                assert(answers[j] == front[j]);
            }
        }
    }
}

/// Asking whether to stop: a reading asks once before each chunk, every answer but the last is no,
/// and a yes stops it. Where it was stopped at answer `j`, `j` whole chunks were read, and the
/// caches stand behind `j * chunk` positions. Where it was not, the outcome is that of reading
/// without asking.
pub proof fn polls_go_with_the_chunks<F: FeedForward>(
    model: &HybridModel<F>,
    ids: Term,
    caches: Seq<LayerState>,
    chunk: i32,
    answers: Seq<bool>,
)
    requires
        ids.shape.len() >= 2,
        0 <= ids.shape[1] < i32::MAX,
        chunk > 0,
        read_through(model, ids, caches, chunk, answers),
    ensures
        ({
            let p = polled(model, ids, caches, chunk, answers);
            let j = (answers.len() - 1) as nat;
            &&& forall|i: int| 0 <= i < j ==> !(#[trigger] answers[i])
            &&& p.stopped == answers.last()
            &&& p.stopped ==> p.progress == chunks_read(model, ids, caches, chunk, j)
                && p.progress.start == j * chunk && p.progress.out is None
            &&& !p.stopped ==> p.progress == prompt_read(model, ids, caches, chunk)
        }),
{
    let front = answers.drop_last();
    let j = front.len();
    lemma_polls(model, ids, caches, chunk, front);
    assert forall|i: int| 0 <= i < j implies !(#[trigger] answers[i]) by {
        assert(answers[i] == front[i]);
    }
    let p = polled(model, ids, caches, chunk, answers);
    if p.stopped {
        chunks_follow_each_other(model, ids, caches, chunk, j);
    } else {
        assert(p.progress == chunks_read(model, ids, caches, chunk, j + 1));
        chunks_follow_each_other(model, ids, caches, chunk, j);
        let t = ids.shape[1];
        assert(j <= j * chunk) by (nonlinear_arith)
            requires
                chunk >= 1,
                j >= 0,
        ;
        assert(j + 1 <= t + 1);
        crate::models::hybrid::lemma_chunks_end(
            model,
            ids,
            caches,
            chunk,
            j + 1,
            (t + 1) as nat,
        );
    }
}

/// The number of questions: a reading that comes to the end of a prompt of `t` tokens has asked as
/// often as there are chunks, and once where there is nothing to read.
pub proof fn as_many_polls_as_chunks<F: FeedForward>(
    model: &HybridModel<F>,
    ids: Term,
    caches: Seq<LayerState>,
    chunk: i32,
    answers: Seq<bool>,
)
    requires
        ids.shape.len() >= 2,
        0 <= ids.shape[1] < i32::MAX,
        chunk > 0,
        read_through(model, ids, caches, chunk, answers),
        polled(model, ids, caches, chunk, answers).progress.out matches Some(Ok(_)),
    ensures
        (answers.len() - 1) * chunk < ids.shape[1] || answers.len() == 1,
        ids.shape[1] <= answers.len() * chunk,
{
    let front = answers.drop_last();
    let j = front.len();
    let t = ids.shape[1];
    lemma_polls(model, ids, caches, chunk, front);
    chunks_follow_each_other(model, ids, caches, chunk, j);
    let p = chunks_read(model, ids, caches, chunk, j);
    assert(polled(model, ids, caches, chunk, answers).progress == chunk_read(
        model,
        ids,
        chunk,
        p,
    ));
    assert(chunk_end(p.start, chunk, t) == t);
    assert(j * chunk + chunk == (j + 1) * chunk) by (nonlinear_arith);
}

/// The delta rule carries over from one stretch to the next: scanning `n + m` positions is
/// scanning `n` and then, from the state reached, the next `m`.
pub proof fn scan_carries_over(x: ScanInput, state: Term, start: int, n: nat, m: nat)
    ensures
        scan(x, state, start, n + m) == match scan(x, state, start, n) {
            Ok((ys, s)) => match scan(x, s, start + n, m) {
                Ok((zs, t)) => Ok::<(Seq<Term>, Term), Exception>((ys + zs, t)),
                Err(e) => Err(e),
            },
            Err(e) => Err(e),
        },
    decreases m,
{
    if m == 0 {
        match scan(x, state, start, n) {
            Ok((ys, s)) => {
                assert(ys + Seq::<Term>::empty() =~= ys);
            },
            Err(_) => {},
        }
    } else {
        scan_carries_over(x, state, start, n, (m - 1) as nat);
        match scan(x, state, start, n) {
            Ok((ys, s)) => match scan(x, s, start + n, (m - 1) as nat) {
                Ok((zs, t)) => {
                    match step_at(x, start + (n + m) - 1, t) {
                        Ok((y, u)) => {
                            assert((ys + zs).push(y) =~= ys + zs.push(y));
                        },
                        Err(_) => {},
                    }
                },
                Err(_) => {},
            },
            Err(_) => {
                lemma_scan_fails(x, state, start, n, n + m);
            },
        }
    }
}

/// A scan puts out one array for every position.
pub proof fn scan_outputs_every_position(x: ScanInput, state: Term, start: int, n: nat)
    ensures
        scan(x, state, start, n) matches Ok((ys, _)) ==> ys.len() == n,
    decreases n,
{
    if n > 0 {
        scan_outputs_every_position(x, state, start, (n - 1) as nat);
    }
}

} // verus!
