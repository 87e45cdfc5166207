//! Arrays out of nothing: constants, ranges, noise, and arrays that the caller holds.

use crate::array::{plain, tn, Array, Dtype, Kind, Term, Tn};
use crate::error::Exception;
use crate::scalar::Scalar;
use crate::shape::{all_non_negative, copy_list, count, element_count, no_negative};
use vstd::prelude::*;

verus! {

/// An array of zeros.
pub open spec fn t_zeros(shape: Seq<i32>, dtype: Dtype) -> Tn {
    if no_negative(shape) {
        Ok(plain(Kind::Zeros, seq![], shape, dtype))
    } else {
        Err(Exception::Operands)
    }
}

/// An array of ones.
pub open spec fn t_ones(shape: Seq<i32>, dtype: Dtype) -> Tn {
    if no_negative(shape) {
        Ok(plain(Kind::Ones, seq![], shape, dtype))
    } else {
        Err(Exception::Operands)
    }
}

/// Builds an array of zeros.
pub fn zeros_dtype(shape: &Vec<i32>, dtype: Dtype) -> (r: Result<Array, Exception>)
    ensures
        tn(r) == t_zeros(shape@, dtype),
{
    if all_non_negative(shape) {
        Ok(Array::nullary(Kind::Zeros, copy_list(shape), dtype))
    } else {
        Err(Exception::Operands)
    }
}

/// Builds an array of ones.
pub fn ones_dtype(shape: &Vec<i32>, dtype: Dtype) -> (r: Result<Array, Exception>)
    ensures
        tn(r) == t_ones(shape@, dtype),
{
    if all_non_negative(shape) {
        Ok(Array::nullary(Kind::Ones, copy_list(shape), dtype))
    } else {
        Err(Exception::Operands)
    }
}

/// Single-precision elements under a shape.
pub open spec fn constants_term(values: Seq<Scalar>, shape: Seq<i32>) -> Term {
    Term {
        kind: Kind::Constant,
        ints: seq![],
        scalars: values,
        args: seq![],
        kernel: None,
        shape,
        dtype: Dtype::Float32,
    }
}

/// Integer elements under a shape.
pub open spec fn integers_term(values: Seq<i32>, shape: Seq<i32>, dtype: Dtype) -> Term {
    Term { kind: Kind::Integers, ints: values, scalars: seq![], args: seq![], kernel: None, shape, dtype }
}

/// A single-precision array of no axes.
pub open spec fn t_scalar(s: Scalar) -> Tn {
    Ok(constants_term(seq![s], seq![]))
}

/// An integer array of no axes.
pub open spec fn t_int(i: i32) -> Tn {
    Ok(integers_term(seq![i], seq![], Dtype::Int32))
}

/// Single-precision elements, as many as the shape holds.
pub open spec fn t_constants(values: Seq<Scalar>, shape: Seq<i32>) -> Tn {
    if count(shape) == Some(values.len() as int) {
        Ok(constants_term(values, shape))
    } else {
        Err(Exception::Operands)
    }
}

/// Integer elements, as many as the shape holds.
pub open spec fn t_integers(values: Seq<i32>, shape: Seq<i32>, dtype: Dtype) -> Tn {
    if count(shape) == Some(values.len() as int) {
        Ok(integers_term(values, shape, dtype))
    } else {
        Err(Exception::Operands)
    }
}

/// The integers from `start` up to `stop`, in the given element type.
pub open spec fn t_arange(start: i32, stop: i32, dtype: Dtype) -> Tn {
    if stop - start > i32::MAX {
        Err(Exception::Operands)
    } else {
        let n = if stop > start {
            (stop - start) as i32
        } else {
            0
        };
        Ok(plain(Kind::Arange { start }, seq![], seq![n], dtype))
    }
}

impl Array {
    /// Single-precision elements under a shape that holds as many.
    pub fn constants(values: Vec<Scalar>, shape: Vec<i32>) -> (r: Result<Array, Exception>)
        ensures
            tn(r) == t_constants(values@, shape@),
    {
        match element_count(&shape) {
            Some(c) => if c as u64 == values.len() as u64 {
                let r = Array::with_attributes(
                    Kind::Constant,
                    Vec::new(),
                    values,
                    Vec::new(),
                    shape,
                    Dtype::Float32,
                );
                proof {
                    assert(r@.args =~= seq![]);
                }
                Ok(r)
            } else {
                Err(Exception::Operands)
            },
            None => Err(Exception::Operands),
        }
    }

    /// Integer elements under a shape that holds as many.
    pub fn integers(values: Vec<i32>, shape: Vec<i32>, dtype: Dtype) -> (r: Result<
        Array,
        Exception,
    >)
        ensures
            tn(r) == t_integers(values@, shape@, dtype),
    {
        match element_count(&shape) {
            Some(c) => if c as u64 == values.len() as u64 {
                let r = Array::with_attributes(
                    Kind::Integers,
                    values,
                    Vec::new(),
                    Vec::new(),
                    shape,
                    dtype,
                );
                proof {
                    assert(r@.args =~= seq![]);
                }
                Ok(r)
            } else {
                Err(Exception::Operands)
            },
            None => Err(Exception::Operands),
        }
    }

    /// A single-precision number.
    pub fn from_scalar(s: Scalar) -> (r: Array)
        ensures
            t_scalar(s) == Ok::<Term, Exception>(r@),
    {
        let r = Array::with_attributes(
            Kind::Constant,
            Vec::new(),
            vec![s],
            Vec::new(),
            Vec::new(),
            Dtype::Float32,
        );
        proof {
            assert(r@.args =~= seq![]);
            assert(r@.scalars =~= seq![s]);
        }
        r
    }

    /// An integer.
    pub fn from_int(i: i32) -> (r: Array)
        ensures
            t_int(i) == Ok::<Term, Exception>(r@),
    {
        let r = Array::with_attributes(
            Kind::Integers,
            vec![i],
            Vec::new(),
            Vec::new(),
            Vec::new(),
            Dtype::Int32,
        );
        proof {
            assert(r@.args =~= seq![]);
            assert(r@.ints =~= seq![i]);
        }
        r
    }

    /// An array that the caller holds under the number `id`.
    pub fn external(id: u64, shape: Vec<i32>, dtype: Dtype) -> (r: Array)
        ensures
            r@ == plain(Kind::External { id }, seq![], shape@, dtype),
    {
        Array::nullary(Kind::External { id }, shape, dtype)
    }
}

/// Builds the integers from `start` up to `stop`.
pub fn arange(start: i32, stop: i32, dtype: Dtype) -> (r: Result<Array, Exception>)
    ensures
        tn(r) == t_arange(start, stop, dtype),
{
    let n: i64 = stop as i64 - start as i64;
    if n > 0x7fff_ffff {
        return Err(Exception::Operands);
    }
    let n: i32 = if n > 0 {
        n as i32
    } else {
        0
    };
    let shape: Vec<i32> = vec![n];
    proof {
        assert(shape@ =~= seq![n]);
    }
    Ok(Array::nullary(Kind::Arange { start }, shape, dtype))
}

/// Uniform noise between two bounds, drawn under a number.
pub open spec fn t_uniform(low: Scalar, high: Scalar, shape: Seq<i32>, draw: u64) -> Tn {
    if no_negative(shape) {
        Ok(
            Term {
                kind: Kind::Uniform { draw },
                ints: seq![],
                scalars: seq![low, high],
                args: seq![],
                kernel: None,
                shape,
                dtype: Dtype::Float32,
            },
        )
    } else {
        Err(Exception::Operands)
    }
}

/// Normal noise times a scale, drawn under a number.
pub open spec fn t_normal(scale: Scalar, shape: Seq<i32>, draw: u64) -> Tn {
    if no_negative(shape) {
        Ok(
            Term {
                kind: Kind::Normal { draw },
                ints: seq![],
                scalars: seq![scale],
                args: seq![],
                kernel: None,
                shape,
                dtype: Dtype::Float32,
            },
        )
    } else {
        Err(Exception::Operands)
    }
}

/// Draws uniform noise.
pub fn uniform(low: Scalar, high: Scalar, shape: Vec<i32>, draw: u64) -> (r: Result<
    Array,
    Exception,
>)
    ensures
        tn(r) == t_uniform(low, high, shape@, draw),
{
    if !all_non_negative(&shape) {
        return Err(Exception::Operands);
    }
    let r = Array::with_attributes(
        Kind::Uniform { draw },
        Vec::new(),
        vec![low, high],
        Vec::new(),
        shape,
        Dtype::Float32,
    );
    proof {
        assert(r@.args =~= seq![]);
        assert(r@.scalars =~= seq![low, high]);
    }
    Ok(r)
}

/// Draws normal noise.
pub fn normal(scale: Scalar, shape: Vec<i32>, draw: u64) -> (r: Result<Array, Exception>)
    ensures
        tn(r) == t_normal(scale, shape@, draw),
{
    if !all_non_negative(&shape) {
        return Err(Exception::Operands);
    }
    let r = Array::with_attributes(
        Kind::Normal { draw },
        Vec::new(),
        vec![scale],
        Vec::new(),
        shape,
        Dtype::Float32,
    );
    proof {
        assert(r@.args =~= seq![]);
        assert(r@.scalars =~= seq![scale]);
    }
    Ok(r)
}

} // verus!
