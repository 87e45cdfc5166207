//! Operations that pick, place and join parts of arrays.

use crate::array::{fitted, plain, promote, promoted, share_all, terms, tn, Array, Kind, Term, Tn};
use crate::error::Exception;
use crate::shape::{
    axis_of, bound_of, broadcast, broadcast_shapes, find_axis, same_list, slice_bound, span,
};
use vstd::prelude::*;

verus! {

/// The bound that leaves a slice open at the end.
pub const OPEN: i32 = 0x7fff_ffff;

#[verifier::opaque]
pub open spec fn raw_slice(a: Term, axis: i32, start: i32, stop: i32) -> Option<Term> {
    match axis_of(axis, a.shape.len()) {
        Some(k) => if a.shape[k] >= 0 {
            let s = bound_of(start, a.shape[k]);
            let e = bound_of(stop, a.shape[k]);
            Some(
                plain(
                    Kind::Slice { axis: k as usize, start: s as i32 },
                    seq![a],
                    a.shape.update(k, span(s, e)),
                    a.dtype,
                ),
            )
        } else {
            None
        },
        None => None,
    }
}

/// The position that an index names on an axis; negative indices count from the end.
pub open spec fn position_of(index: i32, dim: i32) -> Option<int> {
    if 0 <= index < dim {
        Some(index as int)
    } else if index < 0 && index + dim >= 0 && dim >= 0 {
        Some(index + dim)
    } else {
        None
    }
}

#[verifier::opaque]
pub open spec fn raw_select(a: Term, axis: i32, index: i32) -> Option<Term> {
    match axis_of(axis, a.shape.len()) {
        Some(k) => match position_of(index, a.shape[k]) {
            Some(p) => Some(
                plain(
                    Kind::Select { axis: k as usize, index: p as i32 },
                    seq![a],
                    a.shape.remove(k),
                    a.dtype,
                ),
            ),
            None => None,
        },
        None => None,
    }
}

#[verifier::opaque]
pub open spec fn raw_slice_update(
    a: Term,
    axis: i32,
    start: i32,
    stop: i32,
    update: Term,
) -> Option<Term> {
    match axis_of(axis, a.shape.len()) {
        Some(k) => if a.shape[k] >= 0 {
            let s = bound_of(start, a.shape[k]);
            let e = bound_of(stop, a.shape[k]);
            let region = a.shape.update(k, span(s, e));
            if broadcast(update.shape, region) == Some(region) {
                Some(
                    plain(
                        Kind::SliceUpdate { axis: k as usize, start: s as i32 },
                        seq![a, update],
                        a.shape,
                        a.dtype,
                    ),
                )
            } else {
                None
            }
        } else {
            None
        },
        None => None,
    }
}

#[verifier::opaque]
pub open spec fn raw_concatenate(a: Term, b: Term, axis: i32) -> Option<Term> {
    match axis_of(axis, a.shape.len()) {
        Some(k) => if b.shape.len() == a.shape.len() && a.shape.update(k, 0) == b.shape.update(k, 0)
            && a.shape[k] >= 0 && b.shape[k] >= 0 && a.shape[k] + b.shape[k] <= i32::MAX {
            Some(
                plain(
                    Kind::Concatenate { axis: k as usize },
                    seq![a, b],
                    a.shape.update(k, (a.shape[k] + b.shape[k]) as i32),
                    promoted(a.dtype, b.dtype),
                ),
            )
        } else {
            None
        },
        None => None,
    }
}

/// Whether every array has the shape and element type of the first.
pub open spec fn alike(v: Seq<Term>) -> bool {
    forall|i: int|
        0 <= i < v.len() ==> (#[trigger] v[i]).shape == v[0].shape && v[i].dtype == v[0].dtype
}

/// Arrays of one shape side by side on a new axis.
#[verifier::opaque]
pub open spec fn raw_stack(v: Seq<Term>, axis: i32) -> Option<Term> {
    if v.len() == 0 || v.len() > i32::MAX || !alike(v) || v[0].shape.len() >= i32::MAX {
        None
    } else {
        match axis_of(axis, v[0].shape.len() + 1) {
            Some(k) => Some(
                plain(
                    Kind::Stack { axis: k as usize },
                    v,
                    v[0].shape.insert(k, v.len() as i32),
                    v[0].dtype,
                ),
            ),
            None => None,
        }
    }
}

#[verifier::opaque]
pub open spec fn raw_take(a: Term, indices: Term, axis: i32) -> Option<Term> {
    match axis_of(axis, a.shape.len()) {
        Some(k) => Some(
            plain(
                Kind::Take { axis: k as usize },
                seq![a, indices],
                a.shape.take(k) + indices.shape + a.shape.skip(k + 1),
                a.dtype,
            ),
        ),
        None => None,
    }
}

#[verifier::opaque]
pub open spec fn raw_take_along(a: Term, indices: Term, axis: i32) -> Option<Term> {
    match axis_of(axis, a.shape.len()) {
        Some(k) => if indices.shape.len() == a.shape.len() {
            match broadcast(a.shape.update(k, 1), indices.shape) {
                Some(shape) => Some(
                    plain(Kind::TakeAlong { axis: k as usize }, seq![a, indices], shape, a.dtype),
                ),
                None => None,
            }
        } else {
            None
        },
        None => None,
    }
}

#[verifier::opaque]
pub open spec fn raw_put_along(a: Term, indices: Term, values: Term, axis: i32) -> Option<Term> {
    match axis_of(axis, a.shape.len()) {
        Some(k) => if indices.shape.len() == a.shape.len() && broadcast(
            indices.shape.update(k, 1),
            a.shape,
        ) == Some(a.shape) && broadcast(values.shape, indices.shape) == Some(indices.shape) {
            Some(
                plain(
                    Kind::PutAlong { axis: k as usize },
                    seq![a, indices, values],
                    a.shape,
                    a.dtype,
                ),
            )
        } else {
            None
        },
        None => None,
    }
}

/// The positions `start..stop` of an axis.
pub open spec fn t_slice(a: Tn, axis: i32, start: i32, stop: i32) -> Tn {
    match a {
        Ok(a) => fitted(raw_slice(a, axis, start, stop)),
        Err(e) => Err(e),
    }
}

/// One position of an axis, which goes away.
pub open spec fn t_select(a: Tn, axis: i32, index: i32) -> Tn {
    match a {
        Ok(a) => fitted(raw_select(a, axis, index)),
        Err(e) => Err(e),
    }
}

/// The array with the positions `start..stop` of an axis replaced.
pub open spec fn t_slice_update(a: Tn, axis: i32, start: i32, stop: i32, update: Tn) -> Tn {
    match (a, update) {
        (Ok(a), Ok(u)) => fitted(raw_slice_update(a, axis, start, stop, u)),
        (Err(e), _) => Err(e),
        (Ok(_), Err(e)) => Err(e),
    }
}

/// Two arrays one after the other on an axis.
pub open spec fn t_concatenate(a: Tn, b: Tn, axis: i32) -> Tn {
    match (a, b) {
        (Ok(a), Ok(b)) => fitted(raw_concatenate(a, b, axis)),
        (Err(e), _) => Err(e),
        (Ok(_), Err(e)) => Err(e),
    }
}

/// Arrays of one shape side by side on a new axis.
pub open spec fn t_stack(v: Seq<Term>, axis: i32) -> Tn {
    fitted(raw_stack(v, axis))
}

/// The positions of an axis that `indices` lists.
pub open spec fn t_take(a: Tn, indices: Tn, axis: i32) -> Tn {
    match (a, indices) {
        (Ok(a), Ok(i)) => fitted(raw_take(a, i, axis)),
        (Err(e), _) => Err(e),
        (Ok(_), Err(e)) => Err(e),
    }
}

/// The positions of an axis that `indices` lists for each of the other indices.
pub open spec fn t_take_along(a: Tn, indices: Tn, axis: i32) -> Tn {
    match (a, indices) {
        (Ok(a), Ok(i)) => fitted(raw_take_along(a, i, axis)),
        (Err(e), _) => Err(e),
        (Ok(_), Err(e)) => Err(e),
    }
}

/// The array with the positions that `indices` lists replaced by `values`.
pub open spec fn t_put_along(a: Tn, indices: Tn, values: Tn, axis: i32) -> Tn {
    match (a, indices, values) {
        (Ok(a), Ok(i), Ok(v)) => fitted(raw_put_along(a, i, v, axis)),
        (Err(e), _, _) => Err(e),
        (Ok(_), Err(e), _) => Err(e),
        (Ok(_), Ok(_), Err(e)) => Err(e),
    }
}

impl Array {
    /// Takes the positions `start..stop` of an axis; bounds are read as Python reads them.
    pub fn slice(&self, axis: i32, start: i32, stop: i32) -> (r: Result<Array, Exception>)
        ensures
            tn(r) == t_slice(Ok(self@), axis, start, stop),
    {
        proof {
            reveal(raw_slice);
        }
        match find_axis(axis, self.ndim()) {
            Some(k) => {
                let mut shape = self.dims();
                let d: i32 = shape[k];
                if d < 0 {
                    return Err(Exception::Operands);
                }
                let s: i32 = slice_bound(start, d);
                let e: i32 = slice_bound(stop, d);
                let n: i32 = if e > s {
                    e - s
                } else {
                    0
                };
                shape.set(k, n);
                Ok(Array::apply1(Kind::Slice { axis: k, start: s }, self, shape, self.dtype()))
            },
            None => Err(Exception::Operands),
        }
    }

    /// Takes one position of an axis.
    pub fn select(&self, axis: i32, index: i32) -> (r: Result<Array, Exception>)
        ensures
            tn(r) == t_select(Ok(self@), axis, index),
    {
        proof {
            reveal(raw_select);
        }
        match find_axis(axis, self.ndim()) {
            Some(k) => {
                let mut shape = self.dims();
                let d: i32 = shape.remove(k);
                let p: i32 = if index >= 0 {
                    index
                } else if d >= 0 {
                    index + d
                } else {
                    -1
                };
                if p >= 0 && p < d {
                    Ok(Array::apply1(Kind::Select { axis: k, index: p }, self, shape, self.dtype()))
                } else {
                    Err(Exception::Operands)
                }
            },
            None => Err(Exception::Operands),
        }
    }

    /// Replaces the positions `start..stop` of an axis.
    pub fn slice_update(&self, axis: i32, start: i32, stop: i32, update: &Array) -> (r: Result<
        Array,
        Exception,
    >)
        ensures
            tn(r) == t_slice_update(Ok(self@), axis, start, stop, Ok(update@)),
    {
        proof {
            reveal(raw_slice_update);
        }
        match find_axis(axis, self.ndim()) {
            Some(k) => {
                let mut region = self.dims();
                let d: i32 = region[k];
                if d < 0 {
                    return Err(Exception::Operands);
                }
                let s: i32 = slice_bound(start, d);
                let e: i32 = slice_bound(stop, d);
                let n: i32 = if e > s {
                    e - s
                } else {
                    0
                };
                region.set(k, n);
                match broadcast_shapes(update.shape(), &region) {
                    Some(s2) => if same_list(&s2, &region) {
                        Ok(
                            Array::apply2(
                                Kind::SliceUpdate { axis: k, start: s },
                                self,
                                update,
                                self.dims(),
                                self.dtype(),
                            ),
                        )
                    } else {
                        Err(Exception::Operands)
                    },
                    None => Err(Exception::Operands),
                }
            },
            None => Err(Exception::Operands),
        }
    }

    /// Takes the positions of an axis that `indices` lists.
    pub fn take_axis(&self, indices: &Array, axis: i32) -> (r: Result<Array, Exception>)
        ensures
            tn(r) == t_take(Ok(self@), Ok(indices@), axis),
    {
        proof {
            reveal(raw_take);
        }
        match find_axis(axis, self.ndim()) {
            Some(k) => {
                let mut shape: Vec<i32> = Vec::new();
                let mut i: usize = 0;
                while i < k
                    invariant
                        i <= k < self@.shape.len(),
                        shape@ =~= self@.shape.take(i as int),
                    decreases k - i,
                {
                    shape.push(self.shape()[i]);
                    i += 1;
                }
                let mut i: usize = 0;
                while i < indices.ndim()
                    invariant
                        i <= indices@.shape.len(),
                        0 <= k < self@.shape.len(),
                        shape@ =~= self@.shape.take(k as int) + indices@.shape.take(i as int),
                    decreases indices@.shape.len() - i,
                {
                    shape.push(indices.shape()[i]);
                    i += 1;
                }
                let mut i: usize = k + 1;
                while i < self.ndim()
                    invariant
                        k + 1 <= i <= self@.shape.len(),
                        shape@ =~= self@.shape.take(k as int) + indices@.shape
                            + self@.shape.subrange(k + 1, i as int),
                    decreases self@.shape.len() - i,
                {
                    shape.push(self.shape()[i]);
                    i += 1;
                }
                proof {
                    assert(shape@ =~= self@.shape.take(k as int) + indices@.shape
                        + self@.shape.skip(k + 1));
                }
                Ok(Array::apply2(Kind::Take { axis: k }, self, indices, shape, self.dtype()))
            },
            None => Err(Exception::Operands),
        }
    }
}

/// Joins two arrays on an axis.
pub fn concatenate_axis(a: &Array, b: &Array, axis: i32) -> (r: Result<Array, Exception>)
    ensures
        tn(r) == t_concatenate(Ok(a@), Ok(b@), axis),
{
    proof {
        reveal(raw_concatenate);
    }
    match find_axis(axis, a.ndim()) {
        Some(k) => {
            if b.ndim() != a.ndim() {
                return Err(Exception::Operands);
            }
            let mut sa = a.dims();
            let mut sb = b.dims();
            let da: i32 = sa[k];
            let db: i32 = sb[k];
            sa.set(k, 0);
            sb.set(k, 0);
            if !same_list(&sa, &sb) || da < 0 || db < 0 || da > 0x7fff_ffff - db {
                return Err(Exception::Operands);
            }
            sa.set(k, da + db);
            proof {
                assert(sa@ =~= a@.shape.update(k as int, (da + db) as i32));
            }
            Ok(
                Array::apply2(
                    Kind::Concatenate { axis: k },
                    a,
                    b,
                    sa,
                    promote(a.dtype(), b.dtype()),
                ),
            )
        },
        None => Err(Exception::Operands),
    }
}

/// Puts arrays of one shape side by side on a new axis.
pub fn stack_axis(v: &Vec<Array>, axis: i32) -> (r: Result<Array, Exception>)
    ensures
        tn(r) == t_stack(terms(v@), axis),
{
    proof {
        reveal(raw_stack);
    }
    let ghost ts = terms(v@);
    if v.len() == 0 || v.len() > 0x7fff_ffff || v[0].ndim() >= 0x7fff_ffff {
        return Err(Exception::Operands);
    }
    let mut i: usize = 0;
    while i < v.len()
        invariant
            0 < v.len(),
            i <= v.len(),
            ts == terms(v@),
            forall|j: int|
                0 <= j < i ==> (#[trigger] ts[j]).shape == ts[0].shape && ts[j].dtype == ts[0].dtype,
        decreases v.len() - i,
    {
        proof {
            reveal(raw_stack);
            assert(ts[i as int] == v@[i as int]@);
            assert(ts[0] == v@[0]@);
        }
        if !same_list(v[i].shape(), v[0].shape()) || v[i].dtype() != v[0].dtype() {
            return Err(Exception::Operands);
        }
        i += 1;
    }
    match find_axis(axis, v[0].ndim() + 1) {
        Some(k) => {
            let mut shape = v[0].dims();
            shape.insert(k, v.len() as i32);
            let args = share_all(v);
            let r = Array::with_attributes(
                Kind::Stack { axis: k },
                Vec::new(),
                Vec::new(),
                args,
                shape,
                v[0].dtype(),
            );
            Ok(r)
        },
        None => Err(Exception::Operands),
    }
}

#[verifier::opaque]
pub open spec fn raw_split_half(a: Term, axis: i32, half: i32) -> Option<Term> {
    match axis_of(axis, a.shape.len()) {
        Some(k) => if a.shape[k] >= 0 && a.shape[k] % 2 == 0 {
            let n = (a.shape[k] / 2) as i32;
            raw_slice(a, axis, (half * n) as i32, (half * n + n) as i32)
        } else {
            None
        },
        None => None,
    }
}

/// The first (0) or second (1) half of an axis of even length.
pub open spec fn t_split_half(a: Tn, axis: i32, half: i32) -> Tn {
    match a {
        Ok(a) => fitted(raw_split_half(a, axis, half)),
        Err(e) => Err(e),
    }
}

/// Splits an axis of even length into its halves.
pub fn split_halves(a: &Array, axis: i32) -> (r: Result<(Array, Array), Exception>)
    ensures
        match r {
            Ok((x, y)) => t_split_half(Ok(a@), axis, 0) == Ok::<Term, Exception>(x@)
                && t_split_half(Ok(a@), axis, 1) == Ok::<Term, Exception>(y@),
            Err(e) => t_split_half(Ok(a@), axis, 0) == Err::<Term, Exception>(e) && t_split_half(
                Ok(a@),
                axis,
                1,
            ) == Err::<Term, Exception>(e),
        },
{
    proof {
        reveal(raw_split_half);
        reveal(raw_slice);
    }
    match find_axis(axis, a.ndim()) {
        Some(k) => {
            let d: i32 = a.shape()[k];
            if d < 0 || d % 2 != 0 {
                return Err(Exception::Operands);
            }
            let n: i32 = d / 2;
            Ok((a.slice(axis, 0, n)?, a.slice(axis, n, d)?))
        },
        None => Err(Exception::Operands),
    }
}

/// Takes along an axis the positions that `indices` lists for each of the other indices.
pub fn take_along_axis(a: &Array, indices: &Array, axis: i32) -> (r: Result<Array, Exception>)
    ensures
        tn(r) == t_take_along(Ok(a@), Ok(indices@), axis),
{
    proof {
        reveal(raw_take_along);
    }
    match find_axis(axis, a.ndim()) {
        Some(k) => {
            if indices.ndim() != a.ndim() {
                return Err(Exception::Operands);
            }
            let mut rest = a.dims();
            rest.set(k, 1);
            match broadcast_shapes(&rest, indices.shape()) {
                Some(shape) => Ok(
                    Array::apply2(Kind::TakeAlong { axis: k }, a, indices, shape, a.dtype()),
                ),
                None => Err(Exception::Operands),
            }
        },
        None => Err(Exception::Operands),
    }
}

/// Replaces along an axis the positions that `indices` lists.
pub fn put_along_axis(a: &Array, indices: &Array, values: &Array, axis: i32) -> (r: Result<
    Array,
    Exception,
>)
    ensures
        tn(r) == t_put_along(Ok(a@), Ok(indices@), Ok(values@), axis),
{
    proof {
        reveal(raw_put_along);
    }
    match find_axis(axis, a.ndim()) {
        Some(k) => {
            if indices.ndim() != a.ndim() {
                return Err(Exception::Operands);
            }
            let mut rest = indices.dims();
            rest.set(k, 1);
            match (broadcast_shapes(&rest, a.shape()), broadcast_shapes(
                values.shape(),
                indices.shape(),
            )) {
                (Some(s), Some(t)) => if same_list(&s, a.shape()) && same_list(
                    &t,
                    indices.shape(),
                ) {
                    Ok(
                        Array::apply3(
                            Kind::PutAlong { axis: k },
                            a,
                            indices,
                            values,
                            a.dims(),
                            a.dtype(),
                        ),
                    )
                } else {
                    Err(Exception::Operands)
                },
                _ => Err(Exception::Operands),
            }
        },
        None => Err(Exception::Operands),
    }
}

} // verus!
