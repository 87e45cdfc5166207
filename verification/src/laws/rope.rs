//! From which position rotary embeddings turn.

use crate::array::{Kind, Term};
use crate::cache::KeyValueCache;
use crate::fast::{raw_rope, raw_rope_dynamic};
use crate::laws::shapes::{prescaling_keeps_shape, turning_keeps_shape, turns_heads};
use crate::meaning::{computed, elem, flat_index, row_index, stretched_index, Elem};
use crate::models::qwen3::pads_set;
use crate::ops::create::t_int;
use crate::ops::elementwise::{raw_binary, t_subtract};
use crate::shape::{broadcast, broadcast_shape};
use crate::utils::attention::rotated;
use crate::utils::rope::RopeVariant;
use vstd::prelude::*;

verus! {

/// Whether an array holds one offset for all rows of `x`, or one for each.
pub open spec fn are_offsets(offsets: Term, x: Term) -> bool {
    offsets.shape.len() == 0 || offsets.shape == seq![x.shape[0]]
}

/// Every row turns from its own offset: a row with the offset `o` comes out as it does where all
/// rows are turned from `o`.
pub proof fn rows_turn_from_their_own_offset(
    rope: RopeVariant,
    x: Term,
    offsets: Term,
    ix: Seq<int>,
    o: i32,
)
    requires
        x.shape.len() >= 3,
        ix.len() == x.shape.len(),
        turns_heads(rope),
        are_offsets(offsets, x),
        elem(offsets, row_index(offsets.shape, ix[0])) == Elem::Int(o as int),
    ensures
        rope.apply_dynamic(Ok(x), Ok(offsets)) matches Ok(d) && rope.apply(Ok(x), o) matches Ok(s)
            && d.shape == x.shape && s.shape == x.shape && elem(d, ix) == elem(s, ix),
{
    reveal(raw_rope);
    reveal(raw_rope_dynamic);
    let d = rope.apply_dynamic(Ok(x), Ok(offsets))->Ok_0;
    let s = rope.apply(Ok(x), o)->Ok_0;
    match rope {
        RopeVariant::Default(_) => {
            assert(d.args[0] == s.args[0] && d.args[1] == offsets);
        },
        RopeVariant::Llama3(_) => {
            assert(d.args[0] == s.args[0] && d.args[1] == offsets && d.args[2] == s.args[1]);
        },
        RopeVariant::Yarn(r) => {
            prescaling_keeps_shape(x, r.dimensions, r.mscale);
            assert(d.args[0] == s.args[0] && d.args[1] == offsets && d.args[2] == s.args[1]);
        },
    }
    lemma_turns_alike(d, s, ix, o);
}

/// An element turned from an offset of a list is that turned from the offset itself.
proof fn lemma_turns_alike(d: Term, s: Term, ix: Seq<int>, o: i32)
    requires
        d.kind matches Kind::RopeDynamic { dims, traditional } && s.kind == (Kind::Rope {
            dims,
            traditional,
            offset: o,
        }),
        ix.len() >= 2,
        d.args.len() == s.args.len() + 1,
        1 <= s.args.len() <= 2,
        d.args[0] == s.args[0],
        s.args.len() == 2 ==> d.args[2] == s.args[1],
        d.scalars == s.scalars,
        elem(d.args[1], row_index(d.args[1].shape, ix[0])) == Elem::Int(o as int),
    ensures
        elem(d, ix) == elem(s, ix),
{
    reveal(computed);
    assert(elem(d, ix) == computed(d, ix) && elem(s, ix) == computed(s, ix));
}

/// Where all offsets are equal, turning by a list of offsets is turning by that one offset.
pub proof fn equal_offsets_turn_alike(rope: RopeVariant, x: Term, offsets: Term, o: i32)
    requires
        x.shape.len() >= 3,
        turns_heads(rope),
        are_offsets(offsets, x),
        forall|r: int|
            0 <= r < x.shape[0] ==> elem(offsets, #[trigger] row_index(offsets.shape, r))
                == Elem::Int(o as int),
    ensures
        rope.apply_dynamic(Ok(x), Ok(offsets)) matches Ok(d) && rope.apply(Ok(x), o) matches Ok(s)
            && d.shape == s.shape && forall|ix: Seq<int>|
            ix.len() == x.shape.len() && 0 <= ix[0] < x.shape[0] ==> #[trigger] elem(d, ix)
                == elem(s, ix),
{
    let d = rope.apply_dynamic(Ok(x), Ok(offsets))->Ok_0;
    let s = rope.apply(Ok(x), o)->Ok_0;
    turning_keeps_shape(rope, x, o);
    reveal(raw_rope_dynamic);
    if let RopeVariant::Yarn(r) = rope {
        prescaling_keeps_shape(x, r.dimensions, r.mscale);
    }
    assert forall|ix: Seq<int>|
        ix.len() == x.shape.len() && 0 <= ix[0] < x.shape[0] implies #[trigger] elem(d, ix)
        == elem(s, ix) by {
        let at = row_index(offsets.shape, ix[0]);
        assert(elem(offsets, at) == Elem::Int(o as int));
        rows_turn_from_their_own_offset(rope, x, offsets, ix, o);
    }
}

/// In a left-padded batch every row turns from its true position: row `r`, whose first `p`
/// positions are padding, from the number of positions in the cache less `p`.
pub proof fn padded_rows_turn_from_their_true_position<C: KeyValueCache>(
    rope: RopeVariant,
    x: Term,
    s: C::State,
    pads: Term,
    ix: Seq<int>,
    p: int,
)
    requires
        x.shape.len() >= 3,
        ix.len() == x.shape.len(),
        0 <= ix[0] < x.shape[0],
        turns_heads(rope),
        pads.shape == seq![x.shape[0]],
        elem(pads, seq![ix[0]]) == Elem::Int(p),
        i32::MIN <= C::offset_of(s) - p <= i32::MAX,
    ensures
        rotated::<C>(rope, Ok(x), Some(s), Some(pads)) matches Ok(d) && rope.apply(
            Ok(x),
            (C::offset_of(s) - p) as i32,
        ) matches Ok(t) && d.shape == x.shape && elem(d, ix) == elem(t, ix),
{
    let o = C::offset_of(s);
    let b = x.shape[0];
    let e = Seq::<i32>::empty();
    let offsets = t_subtract(t_int(o), Ok(pads));
    let at = seq![ix[0]];
    reveal(raw_binary);
    assert(broadcast_shape(e, seq![b]) =~= seq![b]);
    assert(broadcast(e, seq![b]) == Some(seq![b]));
    let none = Seq::<int>::empty();
    assert(stretched_index(at, e) =~= none);
    assert(stretched_index(at, seq![b]) =~= at);
    assert(flat_index(none, e) == 0);
    assert(elem(t_int(o)->Ok_0, none) == Elem::Int(o as int));
    assert(elem(offsets->Ok_0, at) == Elem::Int(o - p));
    rows_turn_from_their_own_offset(rope, x, offsets->Ok_0, ix, (o - p) as i32);
}

/// The pad offsets that are kept after a number of settings.
pub open spec fn pads_after(kept: Option<Term>, calls: Seq<Option<Term>>) -> Option<Term>
    decreases calls.len(),
{
    if calls.len() == 0 {
        kept
    } else {
        pads_set(pads_after(kept, calls.drop_last()), calls.last())
    }
}

/// The number of positions of padding before row `r`.
pub open spec fn padding_of(pads: Option<Term>, r: int) -> int {
    match pads {
        Some(t) => elem(t, seq![r])->Int_0,
        None => 0,
    }
}

/// However often pad offsets are set, the last setting counts: every row turns from the number of
/// positions in the cache less its own padding, or from that number where the last setting took
/// the pad offsets away.
pub proof fn the_last_pad_offsets_count<C: KeyValueCache>(
    rope: RopeVariant,
    x: Term,
    s: C::State,
    kept: Option<Term>,
    calls: Seq<Option<Term>>,
    ix: Seq<int>,
)
    requires
        x.shape.len() >= 3,
        ix.len() == x.shape.len(),
        0 <= ix[0] < x.shape[0],
        turns_heads(rope),
        calls.len() > 0,
        calls.last() matches Some(pads) ==> pads.shape == seq![x.shape[0]] && elem(
            pads,
            seq![ix[0]],
        ) is Int,
        i32::MIN <= C::offset_of(s) - padding_of(calls.last(), ix[0]) <= i32::MAX,
    ensures
        pads_after(kept, calls) == calls.last(),
        rotated::<C>(rope, Ok(x), Some(s), pads_after(kept, calls)) matches Ok(d) && rope.apply(
            Ok(x),
            (C::offset_of(s) - padding_of(calls.last(), ix[0])) as i32,
        ) matches Ok(t) && d.shape == x.shape && elem(d, ix) == elem(t, ix),
{
    match calls.last() {
        Some(pads) => {
            padded_rows_turn_from_their_true_position::<C>(
                rope,
                x,
                s,
                pads,
                ix,
                padding_of(calls.last(), ix[0]),
            );
        },
        None => {
            turning_keeps_shape(rope, x, C::offset_of(s));
        },
    }
}

} // verus!
