//! Reductions, orderings and draws along one axis.

use crate::array::{fitted, plain, tn, Array, Dtype, Kind, Term, Tn};
use crate::error::Exception;
use crate::shape::{axis_of, find_axis};
use vstd::prelude::*;

verus! {

/// The shape that a reduction of axis `k` leaves.
pub open spec fn reduced(shape: Seq<i32>, k: int, keep: bool) -> Seq<i32> {
    if keep {
        shape.update(k, 1)
    } else {
        shape.remove(k)
    }
}

/// The element type of an average.
pub open spec fn mean_dtype(dtype: Dtype) -> Dtype {
    if dtype.floating() {
        dtype
    } else {
        Dtype::Float32
    }
}

#[verifier::opaque]
pub open spec fn raw_sum(a: Term, axis: i32, keep: bool) -> Option<Term> {
    match axis_of(axis, a.shape.len()) {
        Some(k) => Some(
            plain(Kind::Sum { axis: k as usize, keep }, seq![a], reduced(a.shape, k, keep), a.dtype),
        ),
        None => None,
    }
}

#[verifier::opaque]
pub open spec fn raw_mean(a: Term, axis: i32, keep: bool) -> Option<Term> {
    match axis_of(axis, a.shape.len()) {
        Some(k) => Some(
            plain(
                Kind::Mean { axis: k as usize, keep },
                seq![a],
                reduced(a.shape, k, keep),
                mean_dtype(a.dtype),
            ),
        ),
        None => None,
    }
}

#[verifier::opaque]
pub open spec fn raw_softmax(a: Term, axis: i32, precise: bool) -> Option<Term> {
    match axis_of(axis, a.shape.len()) {
        Some(k) => Some(
            plain(
                Kind::Softmax { axis: k as usize, precise },
                seq![a],
                a.shape,
                mean_dtype(a.dtype),
            ),
        ),
        None => None,
    }
}

#[verifier::opaque]
pub open spec fn raw_cumsum(a: Term, axis: i32) -> Option<Term> {
    match axis_of(axis, a.shape.len()) {
        Some(k) => Some(plain(Kind::CumulativeSum { axis: k as usize }, seq![a], a.shape, a.dtype)),
        None => None,
    }
}

#[verifier::opaque]
pub open spec fn raw_argmax(a: Term, axis: i32) -> Option<Term> {
    match axis_of(axis, a.shape.len()) {
        Some(k) => Some(
            plain(Kind::ArgMax { axis: k as usize }, seq![a], a.shape.remove(k), Dtype::Uint32),
        ),
        None => None,
    }
}

#[verifier::opaque]
pub open spec fn raw_sort(a: Term, axis: i32) -> Option<Term> {
    match axis_of(axis, a.shape.len()) {
        Some(k) => Some(plain(Kind::Sort { axis: k as usize }, seq![a], a.shape, a.dtype)),
        None => None,
    }
}

#[verifier::opaque]
pub open spec fn raw_argsort(a: Term, axis: i32) -> Option<Term> {
    match axis_of(axis, a.shape.len()) {
        Some(k) => Some(plain(Kind::ArgSort { axis: k as usize }, seq![a], a.shape, Dtype::Uint32)),
        None => None,
    }
}

#[verifier::opaque]
pub open spec fn raw_argpartition(a: Term, kth: i32, axis: i32) -> Option<Term> {
    match axis_of(axis, a.shape.len()) {
        Some(k) => if 0 <= a.shape[k] && -a.shape[k] <= kth < a.shape[k] {
            let place = if kth < 0 {
                (kth + a.shape[k]) as i32
            } else {
                kth
            };
            Some(
                plain(
                    Kind::ArgPartition { axis: k as usize, kth: place },
                    seq![a],
                    a.shape,
                    Dtype::Uint32,
                ),
            )
        } else {
            None
        },
        None => None,
    }
}

#[verifier::opaque]
pub open spec fn raw_categorical(a: Term, draw: u64) -> Option<Term> {
    if a.shape.len() == 0 {
        None
    } else {
        Some(plain(Kind::Categorical { draw }, seq![a], a.shape.drop_last(), Dtype::Uint32))
    }
}

/// The sum along an axis.
pub open spec fn t_sum(a: Tn, axis: i32, keep: bool) -> Tn {
    match a {
        Ok(a) => fitted(raw_sum(a, axis, keep)),
        Err(e) => Err(e),
    }
}

/// The average along an axis.
pub open spec fn t_mean(a: Tn, axis: i32, keep: bool) -> Tn {
    match a {
        Ok(a) => fitted(raw_mean(a, axis, keep)),
        Err(e) => Err(e),
    }
}

/// The softmax along an axis.
pub open spec fn t_softmax(a: Tn, axis: i32, precise: bool) -> Tn {
    match a {
        Ok(a) => fitted(raw_softmax(a, axis, precise)),
        Err(e) => Err(e),
    }
}

/// The running sum along an axis, each element included.
pub open spec fn t_cumsum(a: Tn, axis: i32) -> Tn {
    match a {
        Ok(a) => fitted(raw_cumsum(a, axis)),
        Err(e) => Err(e),
    }
}

/// The position of the largest element along an axis.
pub open spec fn t_argmax(a: Tn, axis: i32) -> Tn {
    match a {
        Ok(a) => fitted(raw_argmax(a, axis)),
        Err(e) => Err(e),
    }
}

/// The elements in ascending order along an axis.
pub open spec fn t_sort(a: Tn, axis: i32) -> Tn {
    match a {
        Ok(a) => fitted(raw_sort(a, axis)),
        Err(e) => Err(e),
    }
}

/// The positions of the elements in ascending order along an axis.
pub open spec fn t_argsort(a: Tn, axis: i32) -> Tn {
    match a {
        Ok(a) => fitted(raw_argsort(a, axis)),
        Err(e) => Err(e),
    }
}

/// Positions that put the `kth` smallest element of an axis in its place.
pub open spec fn t_argpartition(a: Tn, kth: i32, axis: i32) -> Tn {
    match a {
        Ok(a) => fitted(raw_argpartition(a, kth, axis)),
        Err(e) => Err(e),
    }
}

/// A draw from every row of unnormalized log-probabilities, made under a number.
pub open spec fn t_categorical(a: Tn, draw: u64) -> Tn {
    match a {
        Ok(a) => fitted(raw_categorical(a, draw)),
        Err(e) => Err(e),
    }
}

impl Array {
    fn along(&self, kind: Kind, dtype: Dtype) -> (r: Array)
        ensures
            r@ == plain(kind, seq![self@], self@.shape, dtype),
    {
        Array::apply1(kind, self, self.dims(), dtype)
    }

    fn reduce(&self, kind: Kind, k: usize, keep: bool, dtype: Dtype) -> (r: Array)
        requires
            k < self@.shape.len(),
        ensures
            r@ == plain(kind, seq![self@], reduced(self@.shape, k as int, keep), dtype),
    {
        let mut shape = self.dims();
        if keep {
            shape.set(k, 1);
        } else {
            let _gone: i32 = shape.remove(k);
        }
        Array::apply1(kind, self, shape, dtype)
    }

    fn averaged_dtype(&self) -> (r: Dtype)
        ensures
            r == mean_dtype(self@.dtype),
    {
        if self.dtype().is_floating() {
            self.dtype()
        } else {
            Dtype::Float32
        }
    }

    /// Adds up an axis.
    pub fn sum_axis(&self, axis: i32, keep: bool) -> (r: Result<Array, Exception>)
        ensures
            tn(r) == t_sum(Ok(self@), axis, keep),
    {
        proof {
            reveal(raw_sum);
        }
        match find_axis(axis, self.ndim()) {
            Some(k) => Ok(self.reduce(Kind::Sum { axis: k, keep }, k, keep, self.dtype())),
            None => Err(Exception::Operands),
        }
    }

    /// Averages an axis.
    pub fn mean_axis(&self, axis: i32, keep: bool) -> (r: Result<Array, Exception>)
        ensures
            tn(r) == t_mean(Ok(self@), axis, keep),
    {
        proof {
            reveal(raw_mean);
        }
        match find_axis(axis, self.ndim()) {
            Some(k) => Ok(
                self.reduce(Kind::Mean { axis: k, keep }, k, keep, self.averaged_dtype()),
            ),
            None => Err(Exception::Operands),
        }
    }
}

/// Takes the softmax along an axis.
pub fn softmax_axis(a: &Array, axis: i32, precise: bool) -> (r: Result<Array, Exception>)
    ensures
        tn(r) == t_softmax(Ok(a@), axis, precise),
{
    proof {
        reveal(raw_softmax);
    }
    match find_axis(axis, a.ndim()) {
        Some(k) => Ok(a.along(Kind::Softmax { axis: k, precise }, a.averaged_dtype())),
        None => Err(Exception::Operands),
    }
}

/// Takes the running sum along an axis.
pub fn cumsum(a: &Array, axis: i32) -> (r: Result<Array, Exception>)
    ensures
        tn(r) == t_cumsum(Ok(a@), axis),
{
    proof {
        reveal(raw_cumsum);
    }
    match find_axis(axis, a.ndim()) {
        Some(k) => Ok(a.along(Kind::CumulativeSum { axis: k }, a.dtype())),
        None => Err(Exception::Operands),
    }
}

/// Finds the largest element along an axis.
pub fn argmax_axis(a: &Array, axis: i32) -> (r: Result<Array, Exception>)
    ensures
        tn(r) == t_argmax(Ok(a@), axis),
{
    proof {
        reveal(raw_argmax);
    }
    match find_axis(axis, a.ndim()) {
        Some(k) => Ok(a.reduce(Kind::ArgMax { axis: k }, k, false, Dtype::Uint32)),
        None => Err(Exception::Operands),
    }
}

/// Sorts along an axis.
pub fn sort_axis(a: &Array, axis: i32) -> (r: Result<Array, Exception>)
    ensures
        tn(r) == t_sort(Ok(a@), axis),
{
    proof {
        reveal(raw_sort);
    }
    match find_axis(axis, a.ndim()) {
        Some(k) => Ok(a.along(Kind::Sort { axis: k }, a.dtype())),
        None => Err(Exception::Operands),
    }
}

/// Finds the sorted order along an axis.
pub fn argsort_axis(a: &Array, axis: i32) -> (r: Result<Array, Exception>)
    ensures
        tn(r) == t_argsort(Ok(a@), axis),
{
    proof {
        reveal(raw_argsort);
    }
    match find_axis(axis, a.ndim()) {
        Some(k) => Ok(a.along(Kind::ArgSort { axis: k }, Dtype::Uint32)),
        None => Err(Exception::Operands),
    }
}

/// Finds an order that puts the `kth` smallest element of an axis in its place.
pub fn argpartition_axis(a: &Array, kth: i32, axis: i32) -> (r: Result<Array, Exception>)
    ensures
        tn(r) == t_argpartition(Ok(a@), kth, axis),
{
    proof {
        reveal(raw_argpartition);
    }
    match find_axis(axis, a.ndim()) {
        Some(k) => {
            let d: i32 = a.shape()[k];
            if d < 0 || kth >= d || kth < -d {
                return Err(Exception::Operands);
            }
            let place: i32 = if kth < 0 {
                kth + d
            } else {
                kth
            };
            Ok(a.along(Kind::ArgPartition { axis: k, kth: place }, Dtype::Uint32))
        },
        None => Err(Exception::Operands),
    }
}

/// Draws from every row of unnormalized log-probabilities.
pub fn categorical(a: &Array, draw: u64) -> (r: Result<Array, Exception>)
    ensures
        tn(r) == t_categorical(Ok(a@), draw),
{
    proof {
        reveal(raw_categorical);
    }
    if a.ndim() == 0 {
        return Err(Exception::Operands);
    }
    let k: usize = a.ndim() - 1;
    proof {
        assert(a@.shape.remove(k as int) =~= a@.shape.drop_last());
    }
    Ok(a.reduce(Kind::Categorical { draw }, k, false, Dtype::Uint32))
}

} // verus!
