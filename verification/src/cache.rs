//! Key/value caches.

use crate::array::{opt_term, Array, Term, Tn};
use crate::error::Exception;
use crate::ops::create::{t_zeros, zeros_dtype};
use crate::ops::select::{
    concatenate_axis, t_concatenate, t_slice, t_slice_update,
};
use vstd::prelude::*;

verus! {

/// A store of the keys and values of the positions seen so far.
pub trait KeyValueCache: Sized {
    /// What the cache holds.
    type State;

    /// What the cache holds.
    spec fn state(&self) -> Self::State;

    /// The number of positions held.
    spec fn offset_of(s: Self::State) -> i32;

    /// The largest number of positions that can be held.
    spec fn max_size_of(s: Self::State) -> Option<i32>;

    /// The group size and width that the entries are packed with.
    spec fn packing_of(s: Self::State) -> Option<(i32, i32)>;

    /// What the cache holds after an update, and what the update hands back: the keys and values
    /// of every position held.
    spec fn updated(s: Self::State, keys: Term, values: Term) -> (
        Self::State,
        Result<(Term, Term), Exception>,
    );

    /// Whether the entries are packed.
    fn is_quantized(&self) -> (r: bool)
        ensures
            r == (Self::packing_of(self.state()) is Some),
    ;

    /// The group size that the entries are packed with.
    fn group_size(&self) -> (r: Option<i32>)
        ensures
            r == match Self::packing_of(self.state()) {
                Some(p) => Some(p.0),
                None => None,
            },
    ;

    /// The number of bits that the entries are packed with.
    fn bits(&self) -> (r: Option<i32>)
        ensures
            r == match Self::packing_of(self.state()) {
                Some(p) => Some(p.1),
                None => None,
            },
    ;

    /// The number of positions held.
    fn offset(&self) -> (r: i32)
        ensures
            r == Self::offset_of(self.state()),
    ;

    /// The largest number of positions that can be held.
    fn max_size(&self) -> (r: Option<i32>)
        ensures
            r == Self::max_size_of(self.state()),
    ;

    /// Adds positions and hands back all positions held.
    fn update_and_fetch(&mut self, keys: Array, values: Array) -> (r: Result<
        (Array, Array),
        Exception,
    >)
        ensures
            (*final(self)).state() == Self::updated((*old(self)).state(), keys@, values@).0,
            pair_outcome(r) == Self::updated((*old(self)).state(), keys@, values@).1,
    ;
}

/// A cache that can be made out of nothing.
pub trait FreshCache: KeyValueCache {
    /// What a fresh cache holds.
    spec fn empty_state() -> Self::State;

    /// An empty cache.
    fn fresh() -> (r: Self)
        ensures
            r.state() == Self::empty_state(),
    ;
}

/// What the slot of a cache holds.
pub open spec fn slot_state<C: KeyValueCache>(slot: Option<C>) -> Option<C::State> {
    match slot {
        Some(c) => Some(c.state()),
        None => None,
    }
}

/// What the slots of a list of caches hold.
pub open spec fn slot_states<C: KeyValueCache>(slots: Seq<Option<C>>) -> Seq<Option<C::State>> {
    Seq::new(slots.len(), |i: int| slot_state(slots[i]))
}

/// What a borrowed cache holds.
pub open spec fn borrowed_state<C: KeyValueCache>(cache: Option<&mut C>) -> Option<C::State> {
    match cache {
        Some(c) => Some((*c).state()),
        None => None,
    }
}

/// The outcome of building two arrays.
pub open spec fn pair_outcome(r: Result<(Array, Array), Exception>) -> Result<
    (Term, Term),
    Exception,
> {
    match r {
        Ok((a, b)) => Ok((a@, b@)),
        Err(e) => Err(e),
    }
}

impl<T: KeyValueCache> KeyValueCache for &mut T {
    type State = T::State;

    open spec fn state(&self) -> T::State {
        (**self).state()
    }

    open spec fn offset_of(s: T::State) -> i32 {
        T::offset_of(s)
    }

    open spec fn max_size_of(s: T::State) -> Option<i32> {
        T::max_size_of(s)
    }

    open spec fn packing_of(s: T::State) -> Option<(i32, i32)> {
        T::packing_of(s)
    }

    open spec fn updated(s: T::State, keys: Term, values: Term) -> (
        T::State,
        Result<(Term, Term), Exception>,
    ) {
        T::updated(s, keys, values)
    }

    fn is_quantized(&self) -> bool {
        T::is_quantized(&**self)
    }

    fn group_size(&self) -> Option<i32> {
        T::group_size(&**self)
    }

    fn bits(&self) -> Option<i32> {
        T::bits(&**self)
    }

    fn offset(&self) -> i32 {
        let held: i32 = T::offset(&**self);
        proof {
            assert(held == T::offset_of((**self).state()));
            assert(Self::offset_of(self.state()) == T::offset_of(self.state()));
        }
        held
    }

    fn max_size(&self) -> Option<i32> {
        T::max_size(&**self)
    }

    fn update_and_fetch(&mut self, keys: Array, values: Array) -> Result<
        (Array, Array),
        Exception,
    > {
        T::update_and_fetch(self, keys, values)
    }
}

/// The number of positions that the buffers of a cache grow by.
pub const KV_STEP: i32 = 256;

/// A cache that keeps its keys and values in buffers with room to spare. A step is written in
/// place behind the used part and the used part is handed back; the buffers grow in blocks of
/// [`KV_STEP`] positions, so most steps do not grow them.
pub struct ConcatKeyValueCache {
    keys: Option<Array>,
    values: Option<Array>,
    offset: i32,
}

/// What a [`ConcatKeyValueCache`] holds: two buffers and the length of their used part.
pub struct KvState {
    pub keys: Option<Term>,
    pub values: Option<Term>,
    pub offset: i32,
}

/// The number of positions that a buffer has room for.
pub open spec fn room(keys: Option<Term>) -> i32 {
    match keys {
        Some(k) => if k.shape.len() >= 2 {
            k.shape[k.shape.len() - 2]
        } else {
            0
        },
        None => 0,
    }
}

/// The number of positions that a step of `l` positions adds to buffers that must grow: `l`,
/// rounded up to whole blocks.
pub open spec fn growth(l: i32) -> i32 {
    ((KV_STEP + l - 1) / KV_STEP as int * KV_STEP) as i32
}

/// Whether a step can be added: keys have four axes and values at least one, and the numbers of
/// positions stay in range.
pub open spec fn can_add(offset: i32, keys: Term, values: Term) -> bool {
    &&& keys.shape.len() >= 4
    &&& values.shape.len() >= 1
    &&& 0 <= keys.shape[2] <= i32::MAX - KV_STEP
    &&& offset + keys.shape[2] <= i32::MAX
}

/// The used part of a buffer, to which a block is to be added: a block that is partly filled is
/// cut down first.
pub open spec fn kept(buffer: Term, offset: i32) -> Tn {
    if offset as int % KV_STEP as int != 0 {
        t_slice(Ok(buffer), 2, 0, offset)
    } else {
        Ok(buffer)
    }
}

/// Buffers with room for a step, and the reason why a step failed there.
pub open spec fn grown(s: KvState, keys: Term, values: Term) -> (KvState, Option<Exception>) {
    let add = growth(keys.shape[2]);
    let new_k = t_zeros(seq![keys.shape[0], keys.shape[1], add, keys.shape[3]], keys.dtype);
    let new_v = t_zeros(seq![keys.shape[0], keys.shape[1], add, values.shape.last()], values.dtype);
    match (new_k, new_v) {
        (Ok(nk), Ok(nv)) => match (s.keys, s.values) {
            (Some(k), Some(v)) => match (
                t_concatenate(kept(k, s.offset), new_k, -2i32),
                t_concatenate(kept(v, s.offset), new_v, -2i32),
            ) {
                (Ok(k2), Ok(v2)) => (
                    KvState { keys: Some(k2), values: Some(v2), offset: s.offset },
                    None,
                ),
                (Ok(k2), Err(e)) => (
                    KvState { keys: Some(k2), values: None, offset: s.offset },
                    Some(e),
                ),
                (Err(e), _) => (KvState { keys: None, values: None, offset: s.offset }, Some(e)),
            },
            _ => (KvState { keys: Some(nk), values: Some(nv), offset: s.offset }, None),
        },
        (Err(e), _) => (s, Some(e)),
        (Ok(_), Err(e)) => (s, Some(e)),
    }
}

/// Buffers with a step written behind their used part, and what is handed back.
pub open spec fn written(s: KvState, keys: Term, values: Term) -> (
    KvState,
    Result<(Term, Term), Exception>,
) {
    let end = (s.offset + keys.shape[2]) as i32;
    match (s.keys, s.values) {
        (Some(k), Some(v)) => match t_slice_update(Ok(k), 2, s.offset, end, Ok(keys)) {
            Ok(k2) => match t_slice_update(Ok(v), 2, s.offset, end, Ok(values)) {
                Ok(v2) => (
                    KvState { keys: Some(k2), values: Some(v2), offset: end },
                    match (t_slice(Ok(k2), 2, 0, end), t_slice(Ok(v2), 2, 0, end)) {
                        (Ok(a), Ok(b)) => Ok((a, b)),
                        (Err(e), _) => Err(e),
                        (Ok(_), Err(e)) => Err(e),
                    },
                ),
                Err(e) => (KvState { keys: Some(k2), values: Some(v), offset: end }, Err(e)),
            },
            Err(e) => (KvState { keys: Some(k), values: Some(v), offset: end }, Err(e)),
        },
        _ => (KvState { keys: s.keys, values: s.values, offset: end }, Err(Exception::Operands)),
    }
}

/// An update: the buffers grow where there are none or where they lack room, and the step is
/// written.
pub open spec fn kv_updated(s: KvState, keys: Term, values: Term) -> (
    KvState,
    Result<(Term, Term), Exception>,
) {
    if !can_add(s.offset, keys, values) {
        (s, Err(Exception::Operands))
    } else if s.keys is None || s.offset + keys.shape[2] > room(s.keys) {
        match grown(s, keys, values) {
            (g, None) => written(g, keys, values),
            (g, Some(e)) => (g, Err(e)),
        }
    } else {
        written(s, keys, values)
    }
}

/// A cache cut down to its first `len` positions.
pub open spec fn kv_truncated(s: KvState, len: i32) -> KvState {
    if len < s.offset {
        KvState {
            offset: if len > 0 {
                len
            } else {
                0
            },
            ..s
        }
    } else {
        s
    }
}

/// A cache that holds nothing.
pub open spec fn kv_empty() -> KvState {
    KvState { keys: None, values: None, offset: 0 }
}

/// What a cache holds after its two buffers were replaced; one without buffers stays as it is.
pub open spec fn kv_settled(s: KvState, keys: Term, values: Term) -> KvState {
    if s.keys is Some && s.values is Some {
        KvState { keys: Some(keys), values: Some(values), offset: s.offset }
    } else {
        s
    }
}

/// The buffers that a state holds, keys first.
pub open spec fn kv_arrays(s: KvState) -> Seq<Term> {
    match (s.keys, s.values) {
        (Some(k), Some(v)) => seq![k, v],
        (Some(k), None) => seq![k],
        (None, Some(v)) => seq![v],
        (None, None) => seq![],
    }
}

impl ConcatKeyValueCache {
    /// An empty cache.
    pub fn new() -> (r: ConcatKeyValueCache)
        ensures
            r.state() == kv_empty(),
    {
        ConcatKeyValueCache { keys: None, values: None, offset: 0 }
    }

    /// The live arrays of the cache, the whole buffers, keys first.
    pub fn state_arrays(&self) -> (r: Vec<Array>)
        ensures
            crate::array::terms(r@) == kv_arrays(self.state()),
    {
        let mut out: Vec<Array> = Vec::new();
        match &self.keys {
            Some(k) => out.push(k.share()),
            None => {},
        }
        match &self.values {
            Some(v) => out.push(v.share()),
            None => {},
        }
        proof {
            assert(crate::array::terms(out@) =~= kv_arrays(self.state()));
        }
        out
    }

    /// Puts computed buffers in the place of the expressions that they were computed from.
    pub fn settle(&mut self, keys: Array, values: Array)
        ensures
            (*final(self)).state() == kv_settled((*old(self)).state(), keys@, values@),
    {
        if self.keys.is_some() && self.values.is_some() {
            self.keys = Some(keys);
            self.values = Some(values);
        }
    }

    /// The number of positions that the buffers have room for.
    pub fn capacity(&self) -> (r: i32)
        ensures
            r == room(self.state().keys),
    {
        match &self.keys {
            Some(k) => {
                let n: usize = k.ndim();
                if n >= 2 {
                    k.shape()[n - 2]
                } else {
                    0
                }
            },
            None => 0,
        }
    }

    /// Drops all but the first `len` positions. The buffers stay; later steps are written over the
    /// dropped positions. Does nothing where no more than `len` positions are held.
    pub fn truncate(&mut self, len: i32)
        ensures
            (*final(self)).state() == kv_truncated((*old(self)).state(), len),
    {
        if len < self.offset {
            self.offset = if len > 0 {
                len
            } else {
                0
            };
        }
    }

    /// Another handle on the same contents.
    pub fn share(&self) -> (r: ConcatKeyValueCache)
        ensures
            r.state() == self.state(),
    {
        ConcatKeyValueCache {
            keys: crate::array::share_opt(&self.keys),
            values: crate::array::share_opt(&self.values),
            offset: self.offset,
        }
    }

    /// Makes room for a step.
    fn grow(&mut self, keys: &Array, values: &Array) -> (r: Result<(), Exception>)
        requires
            can_add((*old(self)).state().offset, keys@, values@),
        ensures
            (*final(self)).state() == grown((*old(self)).state(), keys@, values@).0,
            grown((*old(self)).state(), keys@, values@).1 == match r {
                Ok(_) => None,
                Err(e) => Some(e),
            },
    {
        let (b, h, l, dk): (i32, i32, i32, i32) = (
            keys.shape()[0],
            keys.shape()[1],
            keys.shape()[2],
            keys.shape()[3],
        );
        let dv: i32 = values.shape()[values.ndim() - 1];
        let prev: i32 = self.offset;
        let n_steps: i32 = (KV_STEP + l - 1) / KV_STEP;
        proof {
            assert(n_steps * 256 <= KV_STEP + l - 1);
        }
        let add: i32 = n_steps * KV_STEP;
        let k_shape: Vec<i32> = vec![b, h, add, dk];
        let v_shape: Vec<i32> = vec![b, h, add, dv];
        proof {
            assert(add == growth(l));
            assert(k_shape@ =~= seq![keys@.shape[0], keys@.shape[1], add, keys@.shape[3]]);
            assert(v_shape@ =~= seq![keys@.shape[0], keys@.shape[1], add, values@.shape.last()]);
        }
        let new_k = zeros_dtype(&k_shape, keys.dtype())?;
        let new_v = zeros_dtype(&v_shape, values.dtype())?;
        match (self.keys.take(), self.values.take()) {
            (Some(k), Some(v)) => {
                let k = if prev % KV_STEP != 0 {
                    k.slice(2, 0, prev)
                } else {
                    Ok(k)
                };
                let v = if prev % KV_STEP != 0 {
                    v.slice(2, 0, prev)
                } else {
                    Ok(v)
                };
                self.keys = Some(concatenate_axis(&k?, &new_k, -2)?);
                self.values = Some(concatenate_axis(&v?, &new_v, -2)?);
            },
            _ => {
                self.keys = Some(new_k);
                self.values = Some(new_v);
            },
        }
        Ok(())
    }

    /// Writes a step behind the used part.
    fn write(&mut self, keys: &Array, values: &Array) -> (r: Result<(Array, Array), Exception>)
        requires
            can_add((*old(self)).state().offset, keys@, values@),
        ensures
            (*final(self)).state() == written((*old(self)).state(), keys@, values@).0,
            pair_outcome(r) == written((*old(self)).state(), keys@, values@).1,
    {
        let prev: i32 = self.offset;
        self.offset = prev + keys.shape()[2];
        let k = match (&self.keys, &self.values) {
            (Some(k), Some(_)) => k.slice_update(2, prev, self.offset, keys)?,
            _ => {
                return Err(Exception::Operands);
            },
        };
        self.keys = Some(k.share());
        let v = match &self.values {
            Some(v) => v.slice_update(2, prev, self.offset, values)?,
            None => {
                return Err(Exception::Operands);
            },
        };
        self.values = Some(v.share());
        Ok((k.slice(2, 0, self.offset)?, v.slice(2, 0, self.offset)?))
    }
}

impl Default for ConcatKeyValueCache {
    fn default() -> (r: ConcatKeyValueCache)
        ensures
            r.state() == kv_empty(),
    {
        ConcatKeyValueCache::new()
    }
}

impl KeyValueCache for ConcatKeyValueCache {
    type State = KvState;

    closed spec fn state(&self) -> KvState {
        KvState { keys: opt_term(self.keys), values: opt_term(self.values), offset: self.offset }
    }

    open spec fn offset_of(s: KvState) -> i32 {
        s.offset
    }

    open spec fn max_size_of(s: KvState) -> Option<i32> {
        None
    }

    open spec fn packing_of(s: KvState) -> Option<(i32, i32)> {
        None
    }

    open spec fn updated(s: KvState, keys: Term, values: Term) -> (
        KvState,
        Result<(Term, Term), Exception>,
    ) {
        kv_updated(s, keys, values)
    }

    fn is_quantized(&self) -> bool {
        false
    }

    fn group_size(&self) -> Option<i32> {
        None
    }

    fn bits(&self) -> Option<i32> {
        None
    }

    fn offset(&self) -> i32 {
        self.offset
    }

    fn max_size(&self) -> Option<i32> {
        None
    }

    fn update_and_fetch(&mut self, keys: Array, values: Array) -> Result<
        (Array, Array),
        Exception,
    > {
        if keys.ndim() < 4 || values.ndim() < 1 {
            return Err(Exception::Operands);
        }
        let l: i32 = keys.shape()[2];
        if l < 0 || l > 0x7fff_ffff - KV_STEP || (self.offset > 0 && l > 0x7fff_ffff
            - self.offset) {
            return Err(Exception::Operands);
        }
        if self.keys.is_none() || self.offset + l > self.capacity() {
            self.grow(&keys, &values)?;
        }
        self.write(&keys, &values)
    }
}

impl FreshCache for ConcatKeyValueCache {
    open spec fn empty_state() -> KvState {
        kv_empty()
    }

    fn fresh() -> ConcatKeyValueCache {
        ConcatKeyValueCache::new()
    }
}

/// A cache of no particular kind.
pub struct DefaultKeyValueCache {}

} // verus!
