//! Operations that rearrange an array without changing its elements.

use crate::array::{fitted, plain, tn, Array, Kind, Term, Tn};
use crate::error::Exception;
use crate::shape::{
    axis_of, broadcast, broadcast_shapes, copy_list, count, element_count, find_axis,
    is_permutation, permute_shape, permuted, resolve, resolve_shape, same_list,
};
use vstd::prelude::*;

verus! {

#[verifier::opaque]
pub open spec fn raw_reshape(a: Term, target: Seq<i32>) -> Option<Term> {
    match count(a.shape) {
        Some(total) => match resolve(target, total) {
            Some(shape) => Some(plain(Kind::Reshape, seq![a], shape, a.dtype)),
            None => None,
        },
        None => None,
    }
}

#[verifier::opaque]
pub open spec fn raw_transpose(a: Term, axes: Seq<i32>) -> Option<Term> {
    if is_permutation(axes, a.shape.len()) {
        Some(
            Term {
                kind: Kind::Transpose,
                ints: axes,
                scalars: seq![],
                args: seq![a],
                kernel: None,
                shape: permuted(a.shape, axes),
                dtype: a.dtype,
            },
        )
    } else {
        None
    }
}

#[verifier::opaque]
pub open spec fn raw_broadcast_to(a: Term, shape: Seq<i32>) -> Option<Term> {
    if broadcast(a.shape, shape) == Some(shape) {
        Some(plain(Kind::BroadcastTo, seq![a], shape, a.dtype))
    } else {
        None
    }
}

#[verifier::opaque]
pub open spec fn raw_expand_dims(a: Term, axis: i32) -> Option<Term> {
    match axis_of(axis, a.shape.len() + 1) {
        Some(k) => if a.shape.len() < i32::MAX {
            Some(plain(Kind::ExpandDims { axis: k as usize }, seq![a], a.shape.insert(k, 1), a.dtype))
        } else {
            None
        },
        None => None,
    }
}

#[verifier::opaque]
pub open spec fn raw_squeeze(a: Term, axis: i32) -> Option<Term> {
    match axis_of(axis, a.shape.len()) {
        Some(k) => if a.shape[k] == 1 {
            Some(plain(Kind::Squeeze { axis: k as usize }, seq![a], a.shape.remove(k), a.dtype))
        } else {
            None
        },
        None => None,
    }
}

#[verifier::opaque]
pub open spec fn raw_repeat(a: Term, times: i32, axis: i32) -> Option<Term> {
    match axis_of(axis, a.shape.len()) {
        Some(k) => if times >= 0 && 0 <= a.shape[k] * times <= i32::MAX {
            Some(
                plain(
                    Kind::Repeat { axis: k as usize, times },
                    seq![a],
                    a.shape.update(k, (a.shape[k] * times) as i32),
                    a.dtype,
                ),
            )
        } else {
            None
        },
        None => None,
    }
}

/// The same elements in row-major order under another shape, in which one dimension may be left
/// to be found as `-1`.
pub open spec fn t_reshape(a: Tn, target: Seq<i32>) -> Tn {
    match a {
        Ok(a) => fitted(raw_reshape(a, target)),
        Err(e) => Err(e),
    }
}

/// The axes in another order.
pub open spec fn t_transpose(a: Tn, axes: Seq<i32>) -> Tn {
    match a {
        Ok(a) => fitted(raw_transpose(a, axes)),
        Err(e) => Err(e),
    }
}

/// The array stretched to a shape it broadcasts to.
pub open spec fn t_broadcast_to(a: Tn, shape: Seq<i32>) -> Tn {
    match a {
        Ok(a) => fitted(raw_broadcast_to(a, shape)),
        Err(e) => Err(e),
    }
}

/// A new axis of length one.
pub open spec fn t_expand_dims(a: Tn, axis: i32) -> Tn {
    match a {
        Ok(a) => fitted(raw_expand_dims(a, axis)),
        Err(e) => Err(e),
    }
}

/// The array without an axis of length one.
pub open spec fn t_squeeze(a: Tn, axis: i32) -> Tn {
    match a {
        Ok(a) => fitted(raw_squeeze(a, axis)),
        Err(e) => Err(e),
    }
}

/// Every position of an axis, `times` times in a row.
pub open spec fn t_repeat(a: Tn, times: i32, axis: i32) -> Tn {
    match a {
        Ok(a) => fitted(raw_repeat(a, times, axis)),
        Err(e) => Err(e),
    }
}

/// The elements in one row.
pub open spec fn t_flatten(a: Tn) -> Tn {
    t_reshape(a, seq![-1i32])
}

impl Array {
    /// Puts the elements under another shape.
    pub fn reshape(&self, target: &Vec<i32>) -> (r: Result<Array, Exception>)
        ensures
            tn(r) == t_reshape(Ok(self@), target@),
    {
        proof {
            reveal(raw_reshape);
        }
        match element_count(self.shape()) {
            Some(total) => match resolve_shape(target, total) {
                Some(shape) => Ok(Array::apply1(Kind::Reshape, self, shape, self.dtype())),
                None => Err(Exception::Operands),
            },
            None => Err(Exception::Operands),
        }
    }

    /// Puts the elements in one row.
    pub fn flatten(&self) -> (r: Result<Array, Exception>)
        ensures
            tn(r) == t_flatten(Ok(self@)),
    {
        let target: Vec<i32> = vec![-1];
        proof {
            assert(target@ =~= seq![-1i32]);
        }
        self.reshape(&target)
    }

    /// Reorders the axes.
    pub fn transpose_axes(&self, axes: Vec<i32>) -> (r: Result<Array, Exception>)
        ensures
            tn(r) == t_transpose(Ok(self@), axes@),
    {
        proof {
            reveal(raw_transpose);
        }
        match permute_shape(self.shape(), &axes) {
            Some(shape) => {
                let args = vec![self.share()];
                let r = Array::with_attributes(
                    Kind::Transpose,
                    axes,
                    Vec::new(),
                    args,
                    shape,
                    self.dtype(),
                );
                proof {
                    assert(r@.args =~= seq![self@]);
                }
                Ok(r)
            },
            None => Err(Exception::Operands),
        }
    }

    /// Stretches the array.
    pub fn broadcast_to(&self, shape: &Vec<i32>) -> (r: Result<Array, Exception>)
        ensures
            tn(r) == t_broadcast_to(Ok(self@), shape@),
    {
        proof {
            reveal(raw_broadcast_to);
        }
        match broadcast_shapes(self.shape(), shape) {
            Some(s) => if same_list(&s, shape) {
                Ok(Array::apply1(Kind::BroadcastTo, self, copy_list(shape), self.dtype()))
            } else {
                Err(Exception::Operands)
            },
            None => Err(Exception::Operands),
        }
    }

    /// Adds an axis of length one.
    pub fn expand_dims(&self, axis: i32) -> (r: Result<Array, Exception>)
        ensures
            tn(r) == t_expand_dims(Ok(self@), axis),
    {
        proof {
            reveal(raw_expand_dims);
        }
        if self.ndim() >= 0x7fff_ffff {
            return Err(Exception::Operands);
        }
        match find_axis(axis, self.ndim() + 1) {
            Some(k) => {
                let mut shape = self.dims();
                shape.insert(k, 1);
                Ok(Array::apply1(Kind::ExpandDims { axis: k }, self, shape, self.dtype()))
            },
            None => Err(Exception::Operands),
        }
    }

    /// Removes an axis of length one.
    pub fn squeeze(&self, axis: i32) -> (r: Result<Array, Exception>)
        ensures
            tn(r) == t_squeeze(Ok(self@), axis),
    {
        proof {
            reveal(raw_squeeze);
        }
        match find_axis(axis, self.ndim()) {
            Some(k) => {
                let mut shape = self.dims();
                let d: i32 = shape.remove(k);
                if d == 1 {
                    Ok(Array::apply1(Kind::Squeeze { axis: k }, self, shape, self.dtype()))
                } else {
                    Err(Exception::Operands)
                }
            },
            None => Err(Exception::Operands),
        }
    }

    /// Repeats every position of an axis.
    pub fn repeat_axis(&self, times: i32, axis: i32) -> (r: Result<Array, Exception>)
        ensures
            tn(r) == t_repeat(Ok(self@), times, axis),
    {
        proof {
            reveal(raw_repeat);
        }
        match find_axis(axis, self.ndim()) {
            Some(k) => {
                let mut shape = self.dims();
                proof {
                    let d = shape@[k as int];
                    assert(-0x4000_0000_0000_0000 <= d * times <= 0x4000_0000_0000_0000)
                        by (nonlinear_arith)
                        requires
                            -0x8000_0000 <= d <= 0x7fff_ffff,
                            -0x8000_0000 <= times <= 0x7fff_ffff,
                    ;
                }
                let wide: i64 = shape[k] as i64 * times as i64;
                if times >= 0 && wide >= 0 && wide <= 0x7fff_ffff {
                    shape.set(k, wide as i32);
                    Ok(Array::apply1(Kind::Repeat { axis: k, times }, self, shape, self.dtype()))
                } else {
                    Err(Exception::Operands)
                }
            },
            None => Err(Exception::Operands),
        }
    }
}

} // verus!
