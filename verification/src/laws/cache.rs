//! Reading back what was written to a key/value cache.

use crate::array::{plain, Dtype, Kind, Term, Tn};
use crate::cache::{
    can_add, grown, growth, kept, kv_empty, kv_truncated, kv_updated, room, written, KvState,
    KV_STEP,
};
use crate::error::Exception;
use crate::meaning::{elem, in_shape, stretched_index};
use crate::ops::create::t_zeros;
use crate::ops::select::{
    raw_concatenate, raw_slice, raw_slice_update, t_concatenate, t_slice, t_slice_update,
};
use crate::shape::{axis_of, bound_of, broadcast, broadcast_shape, no_negative, span};
use vstd::prelude::*;

verus! {

/// A buffer of `n` positions for `b` rows and `h` heads of `d` features.
pub open spec fn heads(b: i32, h: i32, n: i32, d: i32) -> Seq<i32> {
    seq![b, h, n, d]
}

/// Whether a cache holds buffers for `b` rows and `h` heads, with keys of `dk` and values of `dv`
/// features, and its used part lies within them.
pub open spec fn kv_wf(s: KvState, b: i32, h: i32, dk: i32, dv: i32) -> bool {
    &&& b >= 0 && h >= 0 && dk >= 0 && dv >= 0
    &&& 0 <= s.offset <= room(s.keys)
    &&& match (s.keys, s.values) {
        (Some(k), Some(v)) => k.shape == heads(b, h, room(s.keys), dk) && v.shape == heads(
            b,
            h,
            room(s.keys),
            dv,
        ),
        (None, None) => true,
        _ => false,
    }
}

/// Whether a step has `l` positions for such a cache.
pub open spec fn step_goes(
    keys: Term,
    values: Term,
    b: i32,
    h: i32,
    dk: i32,
    dv: i32,
    l: i32,
) -> bool {
    &&& l >= 0
    &&& keys.shape == heads(b, h, l, dk)
    &&& values.shape == heads(b, h, l, dv)
}

/// Whether a step has `l` positions for such a cache and stays within the range of lengths.
pub open spec fn step_fits(
    s: KvState,
    keys: Term,
    values: Term,
    b: i32,
    h: i32,
    dk: i32,
    dv: i32,
    l: i32,
) -> bool {
    &&& step_goes(keys, values, b, h, dk, dv, l)
    &&& room(s.keys) + l + KV_STEP <= i32::MAX
}

/// The used part of `buffer` followed by `step`.
pub open spec fn reads_back(
    fetched: Term,
    buffer: Option<Term>,
    offset: i32,
    step: Term,
    b: i32,
    h: i32,
    l: i32,
    d: i32,
) -> bool {
    &&& fetched.shape == heads(b, h, (offset + l) as i32, d)
    &&& forall|ix: Seq<int>| #[trigger]
        in_shape(ix, heads(b, h, (offset + l) as i32, d)) ==> elem(fetched, ix) == if ix[2]
            < offset {
            elem(buffer->Some_0, ix)
        } else {
            elem(step, ix.update(2, ix[2] - offset))
        }
}

proof fn lemma_same_broadcast(a: Seq<i32>)
    ensures
        broadcast(a, a) == Some(a),
{
    assert(broadcast_shape(a, a) =~= a);
}

proof fn lemma_slice(a: Term, b: i32, h: i32, n: i32, d: i32, stop: i32)
    requires
        a.shape == heads(b, h, n, d),
        0 <= stop <= n,
    ensures
        t_slice(Ok(a), 2, 0, stop) == Ok::<Term, Exception>(
            plain(Kind::Slice { axis: 2, start: 0 }, seq![a], heads(b, h, stop, d), a.dtype),
        ),
{
    reveal(raw_slice);
    assert(axis_of(2, 4) == Some(2int));
    assert(a.shape.update(2, stop) =~= heads(b, h, stop, d));
    assert(span(0, stop as int) == stop);
}

proof fn lemma_concatenate(a: Term, c: Term, b: i32, h: i32, n: i32, m: i32, d: i32)
    requires
        a.shape == heads(b, h, n, d),
        c.shape == heads(b, h, m, d),
        n >= 0,
        m >= 0,
        n + m <= i32::MAX,
    ensures
        t_concatenate(Ok(a), Ok(c), -2i32) matches Ok(r) && r.kind == (Kind::Concatenate {
            axis: 2,
        }) && r.args == seq![a, c] && r.shape == heads(b, h, (n + m) as i32, d),
{
    reveal(raw_concatenate);
    assert(axis_of(-2i32, 4) == Some(2int));
    assert(a.shape.update(2, 0) =~= c.shape.update(2, 0));
    assert(a.shape.update(2, (n + m) as i32) =~= heads(b, h, (n + m) as i32, d));
}

proof fn lemma_write(a: Term, u: Term, b: i32, h: i32, n: i32, d: i32, start: i32, l: i32)
    requires
        a.shape == heads(b, h, n, d),
        u.shape == heads(b, h, l, d),
        0 <= start,
        0 <= l,
        start + l <= n,
    ensures
        t_slice_update(Ok(a), 2, start, (start + l) as i32, Ok(u)) == Ok::<Term, Exception>(
            plain(
                Kind::SliceUpdate { axis: 2, start },
                seq![a, u],
                heads(b, h, n, d),
                a.dtype,
            ),
        ),
{
    reveal(raw_slice_update);
    assert(axis_of(2, 4) == Some(2int));
    assert(bound_of(start, n) == start);
    assert(bound_of((start + l) as i32, n) == start + l);
    assert(span(start as int, start + l) == l);
    assert(a.shape.update(2, l) =~= heads(b, h, l, d));
    lemma_same_broadcast(heads(b, h, l, d));
}

proof fn lemma_stretch_same(ix: Seq<int>, b: i32, h: i32, l: i32, d: i32)
    requires
        in_shape(ix, heads(b, h, l, d)),
    ensures
        stretched_index(ix, heads(b, h, l, d)) == ix,
{
    let s = heads(b, h, l, d);
    assert forall|i: int| 0 <= i < 4 implies stretched_index(ix, s)[i] == ix[i] by {
        assert(0 <= ix[i] < s[i]);
    }
    assert(stretched_index(ix, s) =~= ix);
}

/// The number of positions that stay of a buffer that is to grow.
pub open spec fn kept_length(offset: i32, n: i32) -> i32 {
    if offset as int % KV_STEP as int != 0 {
        offset
    } else {
        n
    }
}

/// The buffer after growing: as many positions as were used or allocated, then a block of zeros.
proof fn lemma_grow_one(
    buffer: Term,
    offset: i32,
    b: i32,
    h: i32,
    n: i32,
    d: i32,
    add: i32,
    dtype: Dtype,
)
    requires
        buffer.shape == heads(b, h, n, d),
        b >= 0,
        h >= 0,
        d >= 0,
        0 <= offset <= n,
        0 <= add,
        kept_length(offset, n) + add <= i32::MAX,
    ensures
        ({
            let zeros = t_zeros(heads(b, h, add, d), dtype);
            let m = kept_length(offset, n);
            &&& zeros is Ok
            &&& t_concatenate(kept(buffer, offset), zeros, -2i32) matches Ok(r) && r.shape == heads(
                b,
                h,
                (m + add) as i32,
                d,
            ) && forall|ix: Seq<int>| #[trigger]
                in_shape(ix, heads(b, h, (m + add) as i32, d)) && ix[2] < offset ==> elem(r, ix)
                    == elem(buffer, ix)
        }),
{
    let zeros = t_zeros(heads(b, h, add, d), dtype);
    assert(no_negative(heads(b, h, add, d)));
    let m = kept_length(offset, n);
    if offset as int % KV_STEP as int != 0 {
        lemma_slice(buffer, b, h, n, d, offset);
    }
    let part = kept(buffer, offset)->Ok_0;
    assert(part.shape == heads(b, h, m, d));
    lemma_concatenate(part, zeros->Ok_0, b, h, m, add, d);
    let r = t_concatenate(Ok(part), zeros, -2i32)->Ok_0;
    assert forall|ix: Seq<int>| #[trigger]
        in_shape(ix, heads(b, h, (m + add) as i32, d)) && ix[2] < offset implies elem(r, ix)
        == elem(buffer, ix) by {
        assert(r.args[0] == part);
        assert(elem(r, ix) == elem(part, ix));
        if offset as int % KV_STEP as int != 0 {
            assert(ix.update(2, ix[2] + 0) =~= ix);
            assert(part.args[0] == buffer);
            assert(elem(part, ix) == elem(buffer, ix.update(2, ix[2] + 0)));
        }
    }
}

/// Writing a step behind the used part of a buffer and reading the used part.
proof fn lemma_write_one(
    buffer: Term,
    step: Term,
    offset: i32,
    b: i32,
    h: i32,
    n: i32,
    d: i32,
    l: i32,
)
    requires
        buffer.shape == heads(b, h, n, d),
        step.shape == heads(b, h, l, d),
        0 <= offset,
        0 <= l,
        offset + l <= n,
    ensures
        ({
            let end = (offset + l) as i32;
            let r = t_slice_update(Ok(buffer), 2, offset, end, Ok(step));
            let f = t_slice(r, 2, 0, end);
            &&& r is Ok
            &&& r->Ok_0.shape == heads(b, h, n, d)
            &&& f is Ok
            &&& reads_back(f->Ok_0, Some(buffer), offset, step, b, h, l, d)
            &&& reads_back_buffer(r->Ok_0, f->Ok_0, b, h, end, d)
        }),
{
    let end = (offset + l) as i32;
    lemma_write(buffer, step, b, h, n, d, offset, l);
    let r = t_slice_update(Ok(buffer), 2, offset, end, Ok(step))->Ok_0;
    lemma_slice(r, b, h, n, d, end);
    let f = t_slice(Ok(r), 2, 0, end)->Ok_0;
    assert forall|ix: Seq<int>| #[trigger] in_shape(ix, heads(b, h, end, d)) implies elem(f, ix)
        == elem(r, ix) && elem(r, ix) == (if ix[2] < offset {
        elem(buffer, ix)
    } else {
        elem(step, ix.update(2, ix[2] - offset))
    }) by {
        let s = heads(b, h, end, d);
        assert(0 <= ix[0] < s[0] && 0 <= ix[1] < s[1] && 0 <= ix[2] < s[2] && 0 <= ix[3] < s[3]);
        assert(f.args[0] == r);
        assert(ix.update(2, ix[2] + 0) =~= ix);
        assert(elem(f, ix) == elem(r, ix.update(2, ix[2] + 0)));
        assert(r.args[0] == buffer && r.args[1] == step);
        if ix[2] >= offset {
            let jx = ix.update(2, ix[2] - offset);
            assert(in_shape(jx, heads(b, h, l, d)));
            lemma_stretch_same(jx, b, h, l, d);
            assert(elem(r, ix) == elem(step, stretched_index(jx, step.shape)));
        }
    }
}

/// Whether a buffer starts with what was handed back.
pub open spec fn reads_back_buffer(
    buffer: Term,
    fetched: Term,
    b: i32,
    h: i32,
    n: i32,
    d: i32,
) -> bool {
    forall|ix: Seq<int>| #[trigger]
        in_shape(ix, heads(b, h, n, d)) ==> elem(buffer, ix) == elem(fetched, ix)
}

/// Whether buffers that must grow for a step of `l` positions stay within the range of lengths.
pub open spec fn growth_fits(s: KvState, l: i32) -> bool {
    s.keys is Some && s.offset + l > room(s.keys) ==> kept_length(s.offset, room(s.keys)) + growth(
        l,
    ) <= i32::MAX
}

/// An update whose buffers stay within the range of lengths.
#[verifier::rlimit(60)]
proof fn lemma_update(
    s: KvState,
    keys: Term,
    values: Term,
    b: i32,
    h: i32,
    dk: i32,
    dv: i32,
    l: i32,
)
    requires
        kv_wf(s, b, h, dk, dv),
        step_goes(keys, values, b, h, dk, dv, l),
        can_add(s.offset, keys, values),
        growth_fits(s, l),
    ensures
        ({
            let (t, r) = kv_updated(s, keys, values);
            &&& kv_wf(t, b, h, dk, dv)
            &&& t.offset == s.offset + l
            &&& r is Ok
            &&& reads_back(r->Ok_0.0, s.keys, s.offset, keys, b, h, l, dk)
            &&& reads_back(r->Ok_0.1, s.values, s.offset, values, b, h, l, dv)
            &&& t.keys is Some && reads_back_buffer(
                t.keys->Some_0,
                r->Ok_0.0,
                b,
                h,
                t.offset,
                dk,
            )
            &&& t.values is Some && reads_back_buffer(
                t.values->Some_0,
                r->Ok_0.1,
                b,
                h,
                t.offset,
                dv,
            )
        }),
{
    assert(can_add(s.offset, keys, values));
    let add = growth(l);
    assert(l <= add <= l + KV_STEP);
    let grows = s.keys is None || s.offset + l > room(s.keys);
    let g = if grows {
        grown(s, keys, values).0
    } else {
        s
    };
    if grows {
        assert(seq![keys.shape[0], keys.shape[1], add, keys.shape[3]] =~= heads(b, h, add, dk));
        assert(seq![keys.shape[0], keys.shape[1], add, values.shape.last()] =~= heads(
            b,
            h,
            add,
            dv,
        ));
        if s.keys is Some {
            lemma_grow_one(s.keys->Some_0, s.offset, b, h, room(s.keys), dk, add, keys.dtype);
            lemma_grow_one(s.values->Some_0, s.offset, b, h, room(s.keys), dv, add, values.dtype);
        } else {
            assert(no_negative(heads(b, h, add, dk)));
            assert(no_negative(heads(b, h, add, dv)));
        }
    }
    let n = room(g.keys);
    let m = kept_length(s.offset, room(s.keys));
    assert(grows && s.keys is Some ==> n == m + add);
    assert(grows && s.keys is None ==> n == add);
    assert(g.keys is Some && g.values is Some);
    assert(g.keys->Some_0.shape == heads(b, h, n, dk));
    assert(g.values->Some_0.shape == heads(b, h, n, dv));
    assert(s.offset + l <= n);
    lemma_write_one(g.keys->Some_0, keys, s.offset, b, h, n, dk, l);
    lemma_write_one(g.values->Some_0, values, s.offset, b, h, n, dv, l);
    let (t, r) = kv_updated(s, keys, values);
    assert(t == written(g, keys, values).0);
    let end = (s.offset + l) as i32;
    assert(s.keys is None ==> s.offset == 0);
    assert forall|ix: Seq<int>| #[trigger] in_shape(ix, heads(b, h, end, dk)) && ix[2]
        < s.offset implies elem(g.keys->Some_0, ix) == elem(s.keys->Some_0, ix) by {
        let sh = heads(b, h, end, dk);
        assert(0 <= ix[0] < sh[0] && 0 <= ix[1] < sh[1] && 0 <= ix[2] < sh[2] && 0 <= ix[3]
            < sh[3]);
        assert(in_shape(ix, heads(b, h, n, dk)));
        if grows {
            assert(s.keys is Some);
            assert(in_shape(ix, heads(b, h, (m + add) as i32, dk)));
        }
    }
    assert forall|ix: Seq<int>| #[trigger] in_shape(ix, heads(b, h, end, dv)) && ix[2]
        < s.offset implies elem(g.values->Some_0, ix) == elem(s.values->Some_0, ix) by {
        let sh = heads(b, h, end, dv);
        assert(0 <= ix[0] < sh[0] && 0 <= ix[1] < sh[1] && 0 <= ix[2] < sh[2] && 0 <= ix[3]
            < sh[3]);
        assert(in_shape(ix, heads(b, h, n, dv)));
        if grows {
            assert(s.values is Some);
            assert(in_shape(ix, heads(b, h, (m + add) as i32, dv)));
        }
    }
    assert forall|ix: Seq<int>| #[trigger] in_shape(ix, heads(b, h, end, dk)) implies 0
        <= ix[2] by {
        assert(0 <= ix[2] < heads(b, h, end, dk)[2]);
    }
    assert forall|ix: Seq<int>| #[trigger] in_shape(ix, heads(b, h, end, dv)) implies 0
        <= ix[2] by {
        assert(0 <= ix[2] < heads(b, h, end, dv)[2]);
    }
}

/// Writing to a cache and reading it back: an update that fits succeeds, moves the offset on by
/// the length of the step, leaves the used part within the buffers, and hands back all positions
/// held before followed by those of the step. What the cache then holds is what it handed back.
pub proof fn update_reads_back(
    s: KvState,
    keys: Term,
    values: Term,
    b: i32,
    h: i32,
    dk: i32,
    dv: i32,
    l: i32,
)
    requires
        kv_wf(s, b, h, dk, dv),
        step_fits(s, keys, values, b, h, dk, dv, l),
    ensures
        ({
            let (t, r) = kv_updated(s, keys, values);
            &&& kv_wf(t, b, h, dk, dv)
            &&& t.offset == s.offset + l
            &&& r is Ok
            &&& reads_back(r->Ok_0.0, s.keys, s.offset, keys, b, h, l, dk)
            &&& reads_back(r->Ok_0.1, s.values, s.offset, values, b, h, l, dv)
            &&& t.keys is Some && reads_back_buffer(
                t.keys->Some_0,
                r->Ok_0.0,
                b,
                h,
                t.offset,
                dk,
            )
            &&& t.values is Some && reads_back_buffer(
                t.values->Some_0,
                r->Ok_0.1,
                b,
                h,
                t.offset,
                dv,
            )
        }),
{
    assert(l <= growth(l) <= l + KV_STEP);
    lemma_update(s, keys, values, b, h, dk, dv, l);
}

/// Writing to a cache and reading it back, whatever the lengths: an update that succeeds moves the
/// offset on by the length of the step and hands back all positions held before followed by those
/// of the step. What the cache then holds is what it handed back.
pub proof fn successful_update_reads_back(
    s: KvState,
    keys: Term,
    values: Term,
    b: i32,
    h: i32,
    dk: i32,
    dv: i32,
    l: i32,
)
    requires
        kv_wf(s, b, h, dk, dv),
        step_goes(keys, values, b, h, dk, dv, l),
        kv_updated(s, keys, values).1 is Ok,
    ensures
        ({
            let (t, r) = kv_updated(s, keys, values);
            &&& kv_wf(t, b, h, dk, dv)
            &&& t.offset == s.offset + l
            &&& r is Ok
            &&& reads_back(r->Ok_0.0, s.keys, s.offset, keys, b, h, l, dk)
            &&& reads_back(r->Ok_0.1, s.values, s.offset, values, b, h, l, dv)
            &&& t.keys is Some && reads_back_buffer(
                t.keys->Some_0,
                r->Ok_0.0,
                b,
                h,
                t.offset,
                dk,
            )
            &&& t.values is Some && reads_back_buffer(
                t.values->Some_0,
                r->Ok_0.1,
                b,
                h,
                t.offset,
                dv,
            )
        }),
{
    let add = growth(l);
    assert(can_add(s.offset, keys, values));
    assert(l <= add <= l + KV_STEP);
    if s.keys is Some && s.offset + l > room(s.keys) {
        let n = room(s.keys);
        let buffer = s.keys->Some_0;
        let zeros = t_zeros(
            seq![keys.shape[0], keys.shape[1], add, keys.shape[3]],
            keys.dtype,
        );
        assert(seq![keys.shape[0], keys.shape[1], add, keys.shape[3]] =~= heads(b, h, add, dk));
        assert(no_negative(heads(b, h, add, dk)));
        if s.offset as int % KV_STEP as int != 0 {
            lemma_slice(buffer, b, h, n, dk, s.offset);
        }
        let part = kept(buffer, s.offset)->Ok_0;
        assert(part.shape == heads(b, h, kept_length(s.offset, n), dk));
        assert(t_concatenate(kept(buffer, s.offset), zeros, -2i32) is Ok);
        assert(kept_length(s.offset, n) + add <= i32::MAX) by {
            reveal(raw_concatenate);
            assert(axis_of(-2i32, 4) == Some(2int));
        }
    }
    lemma_update(s, keys, values, b, h, dk, dv, l);
}

/// Buffers grow only where they lack room, and then to the kept positions and whole blocks that
/// hold the step.
pub proof fn update_grows_in_blocks(
    s: KvState,
    keys: Term,
    values: Term,
    b: i32,
    h: i32,
    dk: i32,
    dv: i32,
    l: i32,
)
    requires
        kv_wf(s, b, h, dk, dv),
        step_fits(s, keys, values, b, h, dk, dv, l),
    ensures
        ({
            let t = kv_updated(s, keys, values).0;
            if s.keys is Some && s.offset + l <= room(s.keys) {
                room(t.keys) == room(s.keys)
            } else {
                &&& growth(l) as int % KV_STEP as int == 0
                &&& l <= growth(l) < l + KV_STEP
                &&& room(t.keys) == growth(l) + (if s.keys is Some {
                    kept_length(s.offset, room(s.keys)) as int
                } else {
                    0
                })
            }
        }),
{
    update_reads_back(s, keys, values, b, h, dk, dv, l);
    let add = growth(l);
    assert(l <= add < l + KV_STEP && add as int % KV_STEP as int == 0);
    let grows = s.keys is None || s.offset + l > room(s.keys);
    if grows {
        assert(seq![keys.shape[0], keys.shape[1], add, keys.shape[3]] =~= heads(b, h, add, dk));
        assert(seq![keys.shape[0], keys.shape[1], add, values.shape.last()] =~= heads(
            b,
            h,
            add,
            dv,
        ));
        assert(no_negative(heads(b, h, add, dk)));
        assert(no_negative(heads(b, h, add, dv)));
        if s.keys is Some {
            lemma_grow_one(s.keys->Some_0, s.offset, b, h, room(s.keys), dk, add, keys.dtype);
            lemma_grow_one(s.values->Some_0, s.offset, b, h, room(s.keys), dv, add, values.dtype);
        }
        let g = grown(s, keys, values).0;
        lemma_write(g.keys->Some_0, keys, b, h, room(g.keys), dk, s.offset, l);
        lemma_write(g.values->Some_0, values, b, h, room(g.keys), dv, s.offset, l);
    } else {
        lemma_write(s.keys->Some_0, keys, b, h, room(s.keys), dk, s.offset, l);
        lemma_write(s.values->Some_0, values, b, h, room(s.keys), dv, s.offset, l);
    }
}

/// Buffers do not grow without need: those of a cache that never holds more than `top` positions
/// have room for at most twice as many and one block.
pub proof fn buffers_stay_in_bounds(
    s: KvState,
    keys: Term,
    values: Term,
    b: i32,
    h: i32,
    dk: i32,
    dv: i32,
    l: i32,
    top: int,
)
    requires
        kv_wf(s, b, h, dk, dv),
        step_fits(s, keys, values, b, h, dk, dv, l),
        s.offset + l <= top,
        room(s.keys) <= 2 * top + KV_STEP,
    ensures
        room(kv_updated(s, keys, values).0.keys) <= 2 * top + KV_STEP,
{
    update_grows_in_blocks(s, keys, values, b, h, dk, dv, l);
}

/// Truncation keeps the buffers and so the positions below the new offset, never raises the
/// offset, and does nothing where no more positions are held.
pub proof fn truncate_keeps_prefix(s: KvState, len: i32, b: i32, h: i32, dk: i32, dv: i32)
    requires
        kv_wf(s, b, h, dk, dv),
    ensures
        ({
            let t = kv_truncated(s, len);
            &&& kv_wf(t, b, h, dk, dv)
            &&& t.keys == s.keys
            &&& t.values == s.values
            &&& t.offset <= s.offset
            &&& len >= s.offset ==> t == s
            &&& 0 <= len < s.offset ==> t.offset == len
            &&& len < 0 ==> t.offset == 0
        }),
{
}

/// Reusing a prefix: a cache cut down to `len` positions and then extended hands back the first
/// `len` positions that it held followed by the new ones.
pub proof fn truncate_then_update(
    s: KvState,
    len: i32,
    keys: Term,
    values: Term,
    b: i32,
    h: i32,
    dk: i32,
    dv: i32,
    l: i32,
)
    requires
        kv_wf(s, b, h, dk, dv),
        0 <= len <= s.offset,
        step_fits(s, keys, values, b, h, dk, dv, l),
    ensures
        ({
            let (t, r) = kv_updated(kv_truncated(s, len), keys, values);
            &&& r is Ok
            &&& t.offset == len + l
            &&& reads_back(r->Ok_0.0, s.keys, len, keys, b, h, l, dk)
            &&& reads_back(r->Ok_0.1, s.values, len, values, b, h, l, dv)
        }),
{
    let c = kv_truncated(s, len);
    truncate_keeps_prefix(s, len, b, h, dk, dv);
    update_reads_back(c, keys, values, b, h, dk, dv, l);
}

/// Two steps in a row hand back what the two steps joined into one hand back.
pub proof fn two_updates_are_one(
    s: KvState,
    k1: Term,
    v1: Term,
    k2: Term,
    v2: Term,
    b: i32,
    h: i32,
    dk: i32,
    dv: i32,
    l1: i32,
    l2: i32,
)
    requires
        kv_wf(s, b, h, dk, dv),
        step_fits(s, k1, v1, b, h, dk, dv, l1),
        step_fits(kv_updated(s, k1, v1).0, k2, v2, b, h, dk, dv, l2),
        room(s.keys) + l1 + l2 + KV_STEP <= i32::MAX,
    ensures
        ({
            let (t1, r1) = kv_updated(s, k1, v1);
            let (t2, r2) = kv_updated(t1, k2, v2);
            let k = t_concatenate(Ok(k1), Ok(k2), -2i32);
            let v = t_concatenate(Ok(v1), Ok(v2), -2i32);
            let (t, r) = kv_updated(s, k->Ok_0, v->Ok_0);
            &&& k is Ok && v is Ok && r2 is Ok && r is Ok
            &&& t2.offset == t.offset
            &&& r2->Ok_0.0.shape == r->Ok_0.0.shape
            &&& r2->Ok_0.1.shape == r->Ok_0.1.shape
            &&& forall|ix: Seq<int>| #[trigger]
                in_shape(ix, heads(b, h, t.offset, dk)) ==> elem(r2->Ok_0.0, ix) == elem(
                    r->Ok_0.0,
                    ix,
                )
            &&& forall|ix: Seq<int>| #[trigger]
                in_shape(ix, heads(b, h, t.offset, dv)) ==> elem(r2->Ok_0.1, ix) == elem(
                    r->Ok_0.1,
                    ix,
                )
        }),
{
    let l = (l1 + l2) as i32;
    lemma_concatenate(k1, k2, b, h, l1, l2, dk);
    lemma_concatenate(v1, v2, b, h, l1, l2, dv);
    let k = t_concatenate(Ok(k1), Ok(k2), -2i32)->Ok_0;
    let v = t_concatenate(Ok(v1), Ok(v2), -2i32)->Ok_0;
    update_reads_back(s, k1, v1, b, h, dk, dv, l1);
    let (t1, r1) = kv_updated(s, k1, v1);
    update_reads_back(t1, k2, v2, b, h, dk, dv, l2);
    let (t2, r2) = kv_updated(t1, k2, v2);
    update_reads_back(s, k, v, b, h, dk, dv, l);
    let (t, r) = kv_updated(s, k, v);
    lemma_joined(
        r2->Ok_0.0,
        r->Ok_0.0,
        t1.keys->Some_0,
        r1->Ok_0.0,
        s.keys,
        s.offset,
        k1,
        k2,
        k,
        b,
        h,
        l1,
        l2,
        dk,
    );
    lemma_joined(
        r2->Ok_0.1,
        r->Ok_0.1,
        t1.values->Some_0,
        r1->Ok_0.1,
        s.values,
        s.offset,
        v1,
        v2,
        v,
        b,
        h,
        l1,
        l2,
        dv,
    );
}

proof fn lemma_joined(
    twice: Term,
    once: Term,
    middle: Term,
    first: Term,
    start: Option<Term>,
    offset: i32,
    a: Term,
    c: Term,
    joined: Term,
    b: i32,
    h: i32,
    l1: i32,
    l2: i32,
    d: i32,
)
    requires
        0 <= offset,
        0 <= l1,
        0 <= l2,
        offset + l1 + l2 <= i32::MAX,
        a.shape == heads(b, h, l1, d),
        joined.kind == (Kind::Concatenate { axis: 2 }),
        joined.args == seq![a, c],
        reads_back(first, start, offset, a, b, h, l1, d),
        reads_back_buffer(middle, first, b, h, (offset + l1) as i32, d),
        reads_back(twice, Some(middle), (offset + l1) as i32, c, b, h, l2, d),
        reads_back(once, start, offset, joined, b, h, (l1 + l2) as i32, d),
    ensures
        twice.shape == once.shape,
        forall|ix: Seq<int>| #[trigger]
            in_shape(ix, heads(b, h, (offset + l1 + l2) as i32, d)) ==> elem(twice, ix) == elem(
                once,
                ix,
            ),
{
    let mid = (offset + l1) as i32;
    let l = (l1 + l2) as i32;
    let end = (offset + l1 + l2) as i32;
    assert((mid + l2) as i32 == end);
    assert((offset + l) as i32 == end);
    assert forall|ix: Seq<int>| #[trigger] in_shape(ix, heads(b, h, end, d)) implies elem(twice, ix)
        == elem(once, ix) by {
        let sh = heads(b, h, end, d);
        assert(0 <= ix[0] < sh[0] && 0 <= ix[1] < sh[1] && 0 <= ix[2] < sh[2] && 0 <= ix[3]
            < sh[3]);
        assert(in_shape(ix, heads(b, h, (mid + l2) as i32, d)));
        assert(in_shape(ix, heads(b, h, (offset + l) as i32, d)));
        assert(joined.args[0] == a && joined.args[1] == c);
        if ix[2] < mid {
            assert(in_shape(ix, heads(b, h, mid, d)));
            assert(elem(twice, ix) == elem(middle, ix));
            assert(elem(middle, ix) == elem(first, ix));
            if ix[2] >= offset {
                let jx = ix.update(2, ix[2] - offset);
                assert(elem(once, ix) == elem(joined, jx));
                assert(elem(joined, jx) == elem(a, jx));
            }
        } else {
            let jx = ix.update(2, ix[2] - offset);
            assert(elem(once, ix) == elem(joined, jx));
            assert(jx.update(2, jx[2] - l1) =~= ix.update(2, ix[2] - mid));
            assert(elem(joined, jx) == elem(c, jx.update(2, jx[2] - l1)));
        }
    }
}

/// A cache fed one step after another, and what the last update handed back.
pub open spec fn kv_fed(s: KvState, steps: Seq<(Term, Term)>) -> (
    KvState,
    Result<(Term, Term), Exception>,
)
    decreases steps.len(),
{
    if steps.len() == 0 {
        (s, Err(Exception::Operands))
    } else {
        kv_updated(kv_fed(s, steps.drop_last()).0, steps.last().0, steps.last().1)
    }
}

/// Whether every one of the updates succeeds.
pub open spec fn all_succeed(s: KvState, steps: Seq<(Term, Term)>) -> bool
    decreases steps.len(),
{
    steps.len() > 0 ==> kv_fed(s, steps).1 is Ok && all_succeed(s, steps.drop_last())
}

/// The number of positions of a list of steps.
pub open spec fn positions_of(steps: Seq<(Term, Term)>) -> int
    decreases steps.len(),
{
    if steps.len() == 0 {
        0
    } else {
        positions_of(steps.drop_last()) + steps.last().0.shape[2]
    }
}

/// The keys of a list of steps, or their values, joined along the positions.
pub open spec fn joined_steps(steps: Seq<Term>) -> Tn
    decreases steps.len(),
{
    if steps.len() <= 1 {
        Ok(steps[0])
    } else {
        t_concatenate(joined_steps(steps.drop_last()), Ok(steps.last()), -2i32)
    }
}

/// The keys of a list of steps.
pub open spec fn keys_of(steps: Seq<(Term, Term)>) -> Seq<Term> {
    Seq::new(steps.len(), |i: int| steps[i].0)
}

/// The values of a list of steps.
pub open spec fn values_of(steps: Seq<(Term, Term)>) -> Seq<Term> {
    Seq::new(steps.len(), |i: int| steps[i].1)
}

/// Whether an array is that of an outcome, element by element, and has `n` positions.
pub open spec fn is_joined(x: Term, t: Tn, b: i32, h: i32, n: int, d: i32) -> bool {
    &&& x.shape == heads(b, h, n as i32, d)
    &&& t matches Ok(y)
    &&& y.shape == heads(b, h, n as i32, d)
    &&& forall|ix: Seq<int>| #[trigger]
        in_shape(ix, heads(b, h, n as i32, d)) ==> elem(x, ix) == elem(y, ix)
}

/// One more step behind joined ones.
proof fn lemma_one_more(
    fetched: Term,
    buffer: Term,
    before: Term,
    joined: Term,
    step: Term,
    b: i32,
    h: i32,
    n: i32,
    l: i32,
    d: i32,
)
    requires
        0 <= n,
        0 <= l,
        n + l <= i32::MAX,
        is_joined(before, Ok(joined), b, h, n as int, d),
        reads_back_buffer(buffer, before, b, h, n, d),
        step.shape == heads(b, h, l, d),
        reads_back(fetched, Some(buffer), n, step, b, h, l, d),
    ensures
        is_joined(fetched, t_concatenate(Ok(joined), Ok(step), -2i32), b, h, n + l, d),
{
    lemma_concatenate(joined, step, b, h, n, l, d);
    let y = t_concatenate(Ok(joined), Ok(step), -2i32)->Ok_0;
    let end = (n + l) as i32;
    assert(y.args[0] == joined && y.args[1] == step);
    assert forall|ix: Seq<int>| #[trigger] in_shape(ix, heads(b, h, end, d)) implies elem(
        fetched,
        ix,
    ) == elem(y, ix) by {
        let sh = heads(b, h, end, d);
        assert(0 <= ix[0] < sh[0] && 0 <= ix[1] < sh[1] && 0 <= ix[2] < sh[2] && 0 <= ix[3]
            < sh[3]);
        if ix[2] < n {
            assert(in_shape(ix, heads(b, h, n, d)));
        }
    }
}

/// The first step of a fresh cache.
proof fn lemma_first(fetched: Term, step: Term, b: i32, h: i32, l: i32, d: i32)
    requires
        0 <= l,
        step.shape == heads(b, h, l, d),
        reads_back(fetched, None, 0, step, b, h, l, d),
    ensures
        is_joined(fetched, Ok(step), b, h, l as int, d),
{
    assert forall|ix: Seq<int>| #[trigger] in_shape(ix, heads(b, h, l, d)) implies elem(
        fetched,
        ix,
    ) == elem(step, ix) by {
        assert(0 <= ix[2] < heads(b, h, l, d)[2]);
        assert(ix.update(2, ix[2] - 0) =~= ix);
    }
}

/// A fresh cache hands back, after each of any number of updates that succeed, the concatenation of
/// all steps so far, position by position and in their order; its offset is the number of these
/// positions.
pub proof fn updates_join_all_steps(
    steps: Seq<(Term, Term)>,
    b: i32,
    h: i32,
    dk: i32,
    dv: i32,
)
    requires
        b >= 0 && h >= 0 && dk >= 0 && dv >= 0,
        steps.len() > 0,
        forall|j: int|
            0 <= j < steps.len() ==> step_goes(
                (#[trigger] steps[j]).0,
                steps[j].1,
                b,
                h,
                dk,
                dv,
                steps[j].0.shape[2],
            ),
        all_succeed(kv_empty(), steps),
    ensures
        ({
            let (t, r) = kv_fed(kv_empty(), steps);
            let n = positions_of(steps);
            &&& kv_wf(t, b, h, dk, dv)
            &&& t.offset == n
            &&& is_joined(r->Ok_0.0, joined_steps(keys_of(steps)), b, h, n, dk)
            &&& is_joined(r->Ok_0.1, joined_steps(values_of(steps)), b, h, n, dv)
            &&& t.keys is Some && reads_back_buffer(t.keys->Some_0, r->Ok_0.0, b, h, t.offset, dk)
            &&& t.values is Some && reads_back_buffer(
                t.values->Some_0,
                r->Ok_0.1,
                b,
                h,
                t.offset,
                dv,
            )
        }),
    decreases steps.len(),
{
    let front = steps.drop_last();
    let (k, v) = steps.last();
    let l = k.shape[2];
    assert(step_goes(steps[steps.len() - 1].0, v, b, h, dk, dv, l));
    let before = kv_fed(kv_empty(), front).0;
    if steps.len() == 1 {
        assert(front.len() == 0);
        assert(before == kv_empty());
        successful_update_reads_back(before, k, v, b, h, dk, dv, l);
        let r = kv_updated(before, k, v).1->Ok_0;
        lemma_first(r.0, k, b, h, l, dk);
        lemma_first(r.1, v, b, h, l, dv);
        assert(positions_of(front) == 0);
        assert(keys_of(steps)[0] == k && values_of(steps)[0] == v);
    } else {
        assert forall|j: int| 0 <= j < front.len() implies step_goes(
            (#[trigger] front[j]).0,
            front[j].1,
            b,
            h,
            dk,
            dv,
            front[j].0.shape[2],
        ) by {
            assert(front[j] == steps[j]);
        }
        updates_join_all_steps(front, b, h, dk, dv);
        let last = kv_fed(kv_empty(), front).1->Ok_0;
        successful_update_reads_back(before, k, v, b, h, dk, dv, l);
        let r = kv_updated(before, k, v).1->Ok_0;
        assert(keys_of(steps).drop_last() =~= keys_of(front));
        assert(values_of(steps).drop_last() =~= values_of(front));
        assert(keys_of(steps).last() == k && values_of(steps).last() == v);
        lemma_one_more(
            r.0,
            before.keys->Some_0,
            last.0,
            joined_steps(keys_of(front))->Ok_0,
            k,
            b,
            h,
            before.offset,
            l,
            dk,
        );
        lemma_one_more(
            r.1,
            before.values->Some_0,
            last.1,
            joined_steps(values_of(front))->Ok_0,
            v,
            b,
            h,
            before.offset,
            l,
            dv,
        );
    }
}

proof fn lemma_same_behind(
    cut: Term,
    fresh: Term,
    buffer: Term,
    prefix: Term,
    first: Term,
    middle: Term,
    step: Term,
    b: i32,
    h: i32,
    n: i32,
    l: i32,
    d: i32,
)
    requires
        0 <= n,
        0 <= l,
        n + l <= i32::MAX,
        prefix.kind == (Kind::Slice { axis: 2, start: 0 }),
        prefix.args == seq![buffer],
        prefix.shape == heads(b, h, n, d),
        reads_back(first, None, 0, prefix, b, h, n, d),
        reads_back_buffer(middle, first, b, h, n, d),
        reads_back(cut, Some(buffer), n, step, b, h, l, d),
        reads_back(fresh, Some(middle), n, step, b, h, l, d),
    ensures
        cut.shape == fresh.shape,
        forall|ix: Seq<int>| #[trigger]
            in_shape(ix, heads(b, h, (n + l) as i32, d)) ==> elem(cut, ix) == elem(fresh, ix),
{
    lemma_first(first, prefix, b, h, n, d);
    let end = (n + l) as i32;
    assert forall|ix: Seq<int>| #[trigger] in_shape(ix, heads(b, h, end, d)) implies elem(cut, ix)
        == elem(fresh, ix) by {
        let sh = heads(b, h, end, d);
        assert(0 <= ix[0] < sh[0] && 0 <= ix[1] < sh[1] && 0 <= ix[2] < sh[2] && 0 <= ix[3]
            < sh[3]);
        if ix[2] < n {
            assert(in_shape(ix, heads(b, h, n, d)));
            assert(elem(middle, ix) == elem(first, ix));
            assert(elem(first, ix) == elem(prefix, ix));
            assert(prefix.args[0] == buffer);
            assert(ix.update(2, ix[2] + 0) =~= ix);
        }
    }
}

/// Cutting a cache down to `n` positions and going on is as starting from a fresh cache with those
/// `n` positions: the next update that succeeds in both hands back the same.
pub proof fn truncated_is_fresh_with_the_prefix(
    s: KvState,
    n: i32,
    keys: Term,
    values: Term,
    b: i32,
    h: i32,
    dk: i32,
    dv: i32,
    l: i32,
)
    requires
        kv_wf(s, b, h, dk, dv),
        s.keys is Some,
        0 <= n <= s.offset,
        step_goes(keys, values, b, h, dk, dv, l),
    ensures
        ({
            let k = t_slice(Ok(s.keys->Some_0), 2, 0, n);
            let v = t_slice(Ok(s.values->Some_0), 2, 0, n);
            let (fresh, first) = kv_updated(kv_empty(), k->Ok_0, v->Ok_0);
            let (t, r) = kv_updated(kv_truncated(s, n), keys, values);
            let (t2, r2) = kv_updated(fresh, keys, values);
            &&& k is Ok && v is Ok
            &&& first is Ok && r is Ok && r2 is Ok ==> {
                &&& t.offset == n + l && t2.offset == n + l
                &&& r->Ok_0.0.shape == r2->Ok_0.0.shape
                &&& r->Ok_0.1.shape == r2->Ok_0.1.shape
                &&& forall|ix: Seq<int>| #[trigger]
                    in_shape(ix, heads(b, h, t.offset, dk)) ==> elem(r->Ok_0.0, ix) == elem(
                        r2->Ok_0.0,
                        ix,
                    )
                &&& forall|ix: Seq<int>| #[trigger]
                    in_shape(ix, heads(b, h, t.offset, dv)) ==> elem(r->Ok_0.1, ix) == elem(
                        r2->Ok_0.1,
                        ix,
                    )
            }
        }),
{
    let room = room(s.keys);
    let (kb, vb) = (s.keys->Some_0, s.values->Some_0);
    lemma_slice(kb, b, h, room, dk, n);
    lemma_slice(vb, b, h, room, dv, n);
    let k = t_slice(Ok(kb), 2, 0, n)->Ok_0;
    let v = t_slice(Ok(vb), 2, 0, n)->Ok_0;
    let (fresh, first) = kv_updated(kv_empty(), k, v);
    let c = kv_truncated(s, n);
    let (t, r) = kv_updated(c, keys, values);
    let (t2, r2) = kv_updated(fresh, keys, values);
    if first is Ok && r is Ok && r2 is Ok {
        truncate_keeps_prefix(s, n, b, h, dk, dv);
        successful_update_reads_back(kv_empty(), k, v, b, h, dk, dv, n);
        successful_update_reads_back(c, keys, values, b, h, dk, dv, l);
        successful_update_reads_back(fresh, keys, values, b, h, dk, dv, l);
        lemma_same_behind(
            r->Ok_0.0,
            r2->Ok_0.0,
            kb,
            k,
            first->Ok_0.0,
            fresh.keys->Some_0,
            keys,
            b,
            h,
            n,
            l,
            dk,
        );
        lemma_same_behind(
            r->Ok_0.1,
            r2->Ok_0.1,
            vb,
            v,
            first->Ok_0.1,
            fresh.values->Some_0,
            values,
            b,
            h,
            n,
            l,
            dv,
        );
    }
}

} // verus!
