//! Where the features of attention on compressed keys and values come from.
//!
//! A query and a key of a head have a part without positions and a turned part behind it; what is
//! multiplied with each other corresponds.

use crate::array::{Term, Tn};
use crate::error::Exception;
use crate::laws::elements::num;
use crate::laws::heads::{heads_of, sizes, states};
use crate::laws::moves::{
    groups_are_stretches, joins_keep_the_order, slices_begin_where_asked, stretching_repeats,
    swaps_go_by_place,
};
use crate::laws::shapes::{has_shape, turning_keeps_shape, turns_heads};
use crate::meaning::{in_shape, stretched_index};
use crate::models::deepseek_v2::MlaAttention;
use crate::nn::t_linear;
use crate::ops::layout::t_reshape;
use crate::ops::select::t_slice;
use crate::shape::broadcast_shape;
use vstd::prelude::*;

verus! {

/// Whether the sizes of a layer fit each other and hidden states of `l` positions in `b` rows.
pub open spec fn latent_sizes(a: MlaAttention, x: Term, b: i32, l: i32) -> bool {
    let (nope, turned, vd) = (a.qk_nope_head_dim, a.qk_rope_head_dim, a.v_head_dim);
    &&& 0 < nope && 0 < turned && 0 < vd && 0 < a.kv_lora_rank
    &&& a.sizes_fit()
    &&& a.q_head_dim == nope + turned
    &&& sizes(b, l, a.num_heads, a.q_head_dim)
    &&& sizes(b, l, a.num_heads, (nope + vd) as i32)
    &&& x.shape.len() == 3 && x.shape[0] == b && x.shape[1] == l
    &&& turns_heads(a.rope)
}

/// The part of the queries that is turned.
pub open spec fn query_part(a: MlaAttention, x: Term) -> Tn {
    t_slice(
        MlaAttention::headed(a.projected_queries(x), x, a.num_heads, a.q_head_dim),
        3,
        a.qk_nope_head_dim,
        (a.qk_nope_head_dim + a.qk_rope_head_dim) as i32,
    )
}

/// The part of the keys that is turned: what lies behind the latent vectors, as one head.
pub open spec fn key_part(a: MlaAttention, x: Term) -> Tn {
    MlaAttention::headed(
        t_slice(
            a.latent(x),
            2,
            a.kv_lora_rank,
            (a.kv_lora_rank + a.qk_rope_head_dim) as i32,
        ),
        x,
        1,
        a.qk_rope_head_dim,
    )
}

/// Keys without positions and values, before they are put under heads.
pub open spec fn unpacked_features(a: MlaAttention, x: Term) -> Tn {
    t_linear(
        a.kv_b_proj@,
        a.kv_a_layernorm.apply(t_slice(a.latent(x), 2, 0, a.kv_lora_rank)),
    )
}

/// Features under heads, before positions.
proof fn lemma_headed_at(y: Term, x: Term, b: i32, l: i32, n: i32, d: i32, ix: Seq<int>)
    requires
        sizes(b, l, n, d),
        x.shape.len() == 3 && x.shape[0] == b && x.shape[1] == l,
        y.shape == states(b, l, (n * d) as i32),
        in_shape(ix, heads_of(b, n, l, d)),
    ensures
        ({
            let r = MlaAttention::headed(Ok(y), x, n, d);
            &&& has_shape(r, heads_of(b, n, l, d))
            &&& r->Ok_0.dtype == y.dtype
            &&& num(r->Ok_0, ix) == num(y, seq![ix[0], ix[2], ix[1] * d + ix[3]])
        }),
{
    let s = heads_of(b, n, l, d);
    assert(0 <= ix[0] < s[0] && 0 <= ix[1] < s[1] && 0 <= ix[2] < s[2] && 0 <= ix[3] < s[3]);
    let jx = seq![ix[0], ix[2], ix[1], ix[3]];
    assert(in_shape(jx, heads_of(b, l, n, d)));
    groups_are_stretches(y, b, l, n, d, jx);
    let g = t_reshape(Ok(y), seq![b, l, n, d])->Ok_0;
    swaps_go_by_place(g, b, l, n, d, ix);
}

/// The part of the queries that is turned holds, for each head, the features from
/// `qk_nope_head_dim` on.
pub proof fn queries_turn_their_last_features(
    a: MlaAttention,
    x: Term,
    y: Term,
    b: i32,
    l: i32,
    ix: Seq<int>,
)
    requires
        latent_sizes(a, x, b, l),
        a.projected_queries(x) == Ok::<Term, Exception>(y),
        y.shape == states(b, l, (a.num_heads * a.q_head_dim) as i32),
        in_shape(ix, heads_of(b, a.num_heads, l, a.qk_rope_head_dim)),
    ensures
        has_shape(query_part(a, x), heads_of(b, a.num_heads, l, a.qk_rope_head_dim)),
        num(query_part(a, x)->Ok_0, ix) == num(
            y,
            seq![ix[0], ix[2], ix[1] * a.q_head_dim + a.qk_nope_head_dim + ix[3]],
        ),
{
    let (n, d) = (a.num_heads, a.q_head_dim);
    let s = heads_of(b, n, l, a.qk_rope_head_dim);
    assert(0 <= ix[0] < s[0] && 0 <= ix[1] < s[1] && 0 <= ix[2] < s[2] && 0 <= ix[3] < s[3]);
    let kx = ix.update(3, ix[3] + a.qk_nope_head_dim);
    assert(in_shape(kx, heads_of(b, n, l, d)));
    lemma_headed_at(y, x, b, l, n, d, kx);
    let q = MlaAttention::headed(Ok(y), x, n, d)->Ok_0;
    slices_begin_where_asked(q, 3, 3, a.qk_nope_head_dim, d, ix);
    assert(q.shape.update(3, a.qk_rope_head_dim) =~= s);
    assert(seq![kx[0], kx[2], kx[1] * d + kx[3]] =~= seq![
        ix[0],
        ix[2],
        ix[1] * d + a.qk_nope_head_dim + ix[3],
    ]);
}

/// The features of a query below `qk_nope_head_dim` are those of its head as they were projected;
/// the features from there on are the turned ones.
pub proof fn queries_hold_content_before_places(
    a: MlaAttention,
    x: Term,
    y: Term,
    offset: i32,
    b: i32,
    l: i32,
    ix: Seq<int>,
)
    requires
        latent_sizes(a, x, b, l),
        a.projected_queries(x) == Ok::<Term, Exception>(y),
        y.shape == states(b, l, (a.num_heads * a.q_head_dim) as i32),
        in_shape(ix, heads_of(b, a.num_heads, l, a.q_head_dim)),
    ensures
        has_shape(a.queries(x, offset), heads_of(b, a.num_heads, l, a.q_head_dim)),
        num(a.queries(x, offset)->Ok_0, ix).e == if ix[3] < a.qk_nope_head_dim {
            num(y, seq![ix[0], ix[2], ix[1] * a.q_head_dim + ix[3]]).e
        } else {
            num(
                a.rope.apply(query_part(a, x), offset)->Ok_0,
                seq![ix[0], ix[1], ix[2], ix[3] - a.qk_nope_head_dim],
            ).e
        },
{
    let (nope, turned) = (a.qk_nope_head_dim, a.qk_rope_head_dim);
    let (n, d) = (a.num_heads, a.q_head_dim);
    let s = heads_of(b, n, l, d);
    assert(0 <= ix[0] < s[0] && 0 <= ix[1] < s[1] && 0 <= ix[2] < s[2] && 0 <= ix[3] < s[3]);
    lemma_headed_at(y, x, b, l, n, d, ix);
    let q = MlaAttention::headed(Ok(y), x, n, d)->Ok_0;
    slices_begin_where_asked(q, 3, 3, 0, nope, ix);
    slices_begin_where_asked(q, 3, 3, nope, d, ix);
    let front = t_slice(Ok(q), 3, 0, nope)->Ok_0;
    let back = query_part(a, x)->Ok_0;
    assert(front.shape =~= heads_of(b, n, l, nope));
    assert(back.shape =~= heads_of(b, n, l, turned));
    assert(ix.update(3, ix[3] + 0) =~= ix);
    turning_keeps_shape(a.rope, back, offset);
    let t = a.rope.apply(Ok(back), offset)->Ok_0;
    assert(t.shape =~= front.shape.update(3, turned));
    joins_keep_the_order(front, t, -1i32, 3, ix);
    assert(front.shape.update(3, d) =~= s);
    assert(ix.update(3, ix[3] - nope) =~= seq![ix[0], ix[1], ix[2], ix[3] - nope]);
}

/// The part of the keys that is turned holds what lies behind the latent vector of each position.
pub proof fn keys_turn_what_lies_behind(
    a: MlaAttention,
    x: Term,
    z: Term,
    b: i32,
    l: i32,
    ix: Seq<int>,
)
    requires
        latent_sizes(a, x, b, l),
        a.latent(x) == Ok::<Term, Exception>(z),
        z.shape == states(b, l, (a.kv_lora_rank + a.qk_rope_head_dim) as i32),
        in_shape(ix, heads_of(b, 1, l, a.qk_rope_head_dim)),
    ensures
        has_shape(key_part(a, x), heads_of(b, 1, l, a.qk_rope_head_dim)),
        num(key_part(a, x)->Ok_0, ix) == num(z, seq![ix[0], ix[2], a.kv_lora_rank + ix[3]]),
{
    let (rank, turned) = (a.kv_lora_rank, a.qk_rope_head_dim);
    let s = heads_of(b, 1, l, turned);
    assert(0 <= ix[0] < s[0] && 0 <= ix[1] < s[1] && 0 <= ix[2] < s[2] && 0 <= ix[3] < s[3]);
    let jx = seq![ix[0], ix[2], ix[3]];
    let end = (rank + turned) as i32;
    slices_begin_where_asked(z, 2, 2, rank, end, jx);
    let p = t_slice(Ok(z), 2, rank, end)->Ok_0;
    assert(p.shape =~= states(b, l, turned));
    assert(1 * turned == turned);
    lemma_headed_at(p, x, b, l, 1, turned, ix);
    assert(seq![ix[0], ix[2], ix[1] * turned + ix[3]] =~= jx) by {
        assert(ix[1] == 0);
        assert(0 * turned == 0);
    }
    assert(jx.update(2, ix[3] + rank) =~= seq![ix[0], ix[2], rank + ix[3]]);
}

/// The turned part of the keys is the same for all heads.
pub proof fn heads_share_the_turned_key(
    a: MlaAttention,
    x: Term,
    z: Term,
    offset: i32,
    b: i32,
    l: i32,
    ix: Seq<int>,
)
    requires
        latent_sizes(a, x, b, l),
        a.latent(x) == Ok::<Term, Exception>(z),
        z.shape == states(b, l, (a.kv_lora_rank + a.qk_rope_head_dim) as i32),
        in_shape(ix, heads_of(b, a.num_heads, l, a.qk_rope_head_dim)),
    ensures
        has_shape(a.key_positions(x, offset), heads_of(b, a.num_heads, l, a.qk_rope_head_dim)),
        num(a.key_positions(x, offset)->Ok_0, ix) == num(
            a.rope.apply(key_part(a, x), offset)->Ok_0,
            seq![ix[0], 0, ix[2], ix[3]],
        ),
{
    let turned = a.qk_rope_head_dim;
    let s = heads_of(b, a.num_heads, l, turned);
    assert(0 <= ix[0] < s[0] && 0 <= ix[1] < s[1] && 0 <= ix[2] < s[2] && 0 <= ix[3] < s[3]);
    let hx = seq![ix[0], 0, ix[2], ix[3]];
    assert(in_shape(hx, heads_of(b, 1, l, turned)));
    keys_turn_what_lies_behind(a, x, z, b, l, hx);
    let p = key_part(a, x)->Ok_0;
    turning_keeps_shape(a.rope, p, offset);
    let r = a.rope.apply(Ok(p), offset)->Ok_0;
    assert(broadcast_shape(r.shape, s) =~= s);
    stretching_repeats(r, s, ix);
    assert(stretched_index(ix, r.shape) =~= hx);
}

/// The features of a key below `qk_nope_head_dim` are the first of those unpacked for its head; the
/// features from there on are the turned ones. So a feature of a key and the same feature of a query
/// are both without positions or both turned.
pub proof fn keys_hold_content_before_places(
    a: MlaAttention,
    x: Term,
    z: Term,
    y: Term,
    offset: i32,
    b: i32,
    l: i32,
    ix: Seq<int>,
)
    requires
        latent_sizes(a, x, b, l),
        a.latent(x) == Ok::<Term, Exception>(z),
        z.shape == states(b, l, (a.kv_lora_rank + a.qk_rope_head_dim) as i32),
        unpacked_features(a, x) == Ok::<Term, Exception>(y),
        y.shape == states(b, l, (a.num_heads * (a.qk_nope_head_dim + a.v_head_dim)) as i32),
        in_shape(ix, heads_of(b, a.num_heads, l, a.q_head_dim)),
    ensures
        has_shape(a.keys(x, offset), heads_of(b, a.num_heads, l, a.q_head_dim)),
        num(a.keys(x, offset)->Ok_0, ix).e == if ix[3] < a.qk_nope_head_dim {
            num(
                y,
                seq![ix[0], ix[2], ix[1] * (a.qk_nope_head_dim + a.v_head_dim) + ix[3]],
            ).e
        } else {
            num(
                a.rope.apply(key_part(a, x), offset)->Ok_0,
                seq![ix[0], 0, ix[2], ix[3] - a.qk_nope_head_dim],
            ).e
        },
{
    let (nope, turned) = (a.qk_nope_head_dim, a.qk_rope_head_dim);
    let w = (nope + a.v_head_dim) as i32;
    let n = a.num_heads;
    let s = heads_of(b, n, l, a.q_head_dim);
    assert(0 <= ix[0] < s[0] && 0 <= ix[1] < s[1] && 0 <= ix[2] < s[2] && 0 <= ix[3] < s[3]);
    let content = ix[3] < nope;
    // The part without positions.
    let cx = ix.update(
        3,
        if content {
            ix[3]
        } else {
            0
        },
    );
    assert(in_shape(cx, heads_of(b, n, l, w)));
    lemma_headed_at(y, x, b, l, n, w, cx);
    let u = a.unpacked(x)->Ok_0;
    slices_begin_where_asked(u, 3, 3, 0, nope, cx);
    let front = t_slice(Ok(u), 3, 0, nope)->Ok_0;
    assert(front.shape =~= heads_of(b, n, l, nope));
    assert(cx.update(3, cx[3] + 0) =~= cx);
    // The part that is turned.
    let px = ix.update(
        3,
        if content {
            0
        } else {
            ix[3] - nope
        },
    );
    assert(in_shape(px, heads_of(b, n, l, turned)));
    heads_share_the_turned_key(a, x, z, offset, b, l, px);
    let part = a.key_positions(x, offset)->Ok_0;
    assert(part.shape =~= front.shape.update(3, turned));
    joins_keep_the_order(front, part, -1i32, 3, ix);
    assert(front.shape.update(3, a.q_head_dim) =~= s);
    if content {
        assert(cx =~= ix);
    } else {
        assert(ix.update(3, ix[3] - nope) =~= px);
        assert(seq![px[0], 0, px[2], px[3]] =~= seq![ix[0], 0, ix[2], ix[3] - nope]);
    }
}

/// The values of a head are unpacked behind its keys.
pub proof fn values_lie_behind_keys(
    a: MlaAttention,
    x: Term,
    y: Term,
    b: i32,
    l: i32,
    ix: Seq<int>,
)
    requires
        latent_sizes(a, x, b, l),
        unpacked_features(a, x) == Ok::<Term, Exception>(y),
        y.shape == states(b, l, (a.num_heads * (a.qk_nope_head_dim + a.v_head_dim)) as i32),
        in_shape(ix, heads_of(b, a.num_heads, l, a.v_head_dim)),
    ensures
        has_shape(a.values(x), heads_of(b, a.num_heads, l, a.v_head_dim)),
        num(a.values(x)->Ok_0, ix) == num(
            y,
            seq![
                ix[0],
                ix[2],
                ix[1] * (a.qk_nope_head_dim + a.v_head_dim) + a.qk_nope_head_dim + ix[3],
            ],
        ),
{
    let (nope, vd) = (a.qk_nope_head_dim, a.v_head_dim);
    let w = (nope + vd) as i32;
    let s = heads_of(b, a.num_heads, l, vd);
    assert(0 <= ix[0] < s[0] && 0 <= ix[1] < s[1] && 0 <= ix[2] < s[2] && 0 <= ix[3] < s[3]);
    let jx = ix.update(3, ix[3] + nope);
    assert(in_shape(jx, heads_of(b, a.num_heads, l, w)));
    lemma_headed_at(y, x, b, l, a.num_heads, w, jx);
    let u = a.unpacked(x)->Ok_0;
    slices_begin_where_asked(u, 3, 3, nope, w, ix);
    assert(u.shape.update(3, vd) =~= s);
    assert(seq![jx[0], jx[2], jx[1] * w + jx[3]] =~= seq![
        ix[0],
        ix[2],
        ix[1] * w + nope + ix[3],
    ]);
}

} // verus!
