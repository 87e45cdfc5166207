//! Operations on single elements and on pairs of elements.

use crate::array::{
    fitted, plain, promote, promoted, tn, Array, BinaryOp, Dtype, Kind, Term, Tn, UnaryOp,
};
use crate::error::Exception;
use crate::shape::{broadcast, broadcast_shapes};
use vstd::prelude::*;

verus! {

/// The element type of an operation on single elements.
pub open spec fn unary_dtype(op: UnaryOp, dtype: Dtype) -> Dtype {
    if dtype.floating() || op == UnaryOp::Negative || op == UnaryOp::Square {
        dtype
    } else {
        Dtype::Float32
    }
}

/// The element type of an operation on pairs.
pub open spec fn binary_dtype(op: BinaryOp, a: Dtype, b: Dtype) -> Dtype {
    if op.predicate() {
        Dtype::Bool
    } else if op == BinaryOp::Divide && !promoted(a, b).floating() {
        Dtype::Float32
    } else {
        promoted(a, b)
    }
}

#[verifier::opaque]
pub open spec fn raw_unary(op: UnaryOp, a: Term) -> Option<Term> {
    Some(plain(Kind::Unary(op), seq![a], a.shape, unary_dtype(op, a.dtype)))
}

#[verifier::opaque]
pub open spec fn raw_binary(op: BinaryOp, a: Term, b: Term) -> Option<Term> {
    match broadcast(a.shape, b.shape) {
        Some(shape) => Some(
            plain(Kind::Binary(op), seq![a, b], shape, binary_dtype(op, a.dtype, b.dtype)),
        ),
        None => None,
    }
}

#[verifier::opaque]
pub open spec fn raw_where(c: Term, a: Term, b: Term) -> Option<Term> {
    match broadcast(a.shape, b.shape) {
        Some(inner) => match broadcast(c.shape, inner) {
            Some(shape) => Some(plain(Kind::Where, seq![c, a, b], shape, promoted(a.dtype, b.dtype))),
            None => None,
        },
        None => None,
    }
}

#[verifier::opaque]
pub open spec fn raw_cast(a: Term, dtype: Dtype) -> Option<Term> {
    Some(plain(Kind::Cast, seq![a], a.shape, dtype))
}

/// An operation on each element.
pub open spec fn t_unary(op: UnaryOp, a: Tn) -> Tn {
    match a {
        Ok(a) => fitted(raw_unary(op, a)),
        Err(e) => Err(e),
    }
}

/// An operation on each pair of elements of two arrays that broadcast.
pub open spec fn t_binary(op: BinaryOp, a: Tn, b: Tn) -> Tn {
    match (a, b) {
        (Ok(a), Ok(b)) => fitted(raw_binary(op, a, b)),
        (Err(e), _) => Err(e),
        (Ok(_), Err(e)) => Err(e),
    }
}

/// Elements of `a` where `c` holds and of `b` elsewhere.
pub open spec fn t_where(c: Tn, a: Tn, b: Tn) -> Tn {
    match (c, a, b) {
        (Ok(c), Ok(a), Ok(b)) => fitted(raw_where(c, a, b)),
        (Err(e), _, _) => Err(e),
        (Ok(_), Err(e), _) => Err(e),
        (Ok(_), Ok(_), Err(e)) => Err(e),
    }
}

/// Conversion to another element type.
pub open spec fn t_cast(a: Tn, dtype: Dtype) -> Tn {
    match a {
        Ok(a) => fitted(raw_cast(a, dtype)),
        Err(e) => Err(e),
    }
}

/// Element by element, the exponential.
pub open spec fn t_exp(a: Tn) -> Tn {
    t_unary(UnaryOp::Exp, a)
}

/// Element by element, the natural logarithm.
pub open spec fn t_log(a: Tn) -> Tn {
    t_unary(UnaryOp::Log, a)
}

/// Element by element, the negation.
pub open spec fn t_negative(a: Tn) -> Tn {
    t_unary(UnaryOp::Negative, a)
}

/// Element by element, the square.
pub open spec fn t_square(a: Tn) -> Tn {
    t_unary(UnaryOp::Square, a)
}

/// Element by element, the reciprocal square root.
pub open spec fn t_rsqrt(a: Tn) -> Tn {
    t_unary(UnaryOp::Rsqrt, a)
}

/// Element by element, the reciprocal.
pub open spec fn t_reciprocal(a: Tn) -> Tn {
    t_unary(UnaryOp::Reciprocal, a)
}

/// Element by element, the cosine.
pub open spec fn t_cos(a: Tn) -> Tn {
    t_unary(UnaryOp::Cos, a)
}

/// Element by element, the sine.
pub open spec fn t_sin(a: Tn) -> Tn {
    t_unary(UnaryOp::Sin, a)
}

/// Element by element, the logistic function.
pub open spec fn t_sigmoid(a: Tn) -> Tn {
    t_unary(UnaryOp::Sigmoid, a)
}

/// Element by element, `x * sigmoid(x)`.
pub open spec fn t_silu(a: Tn) -> Tn {
    t_unary(UnaryOp::Silu, a)
}

/// Element by element, `log(1 + exp(x))`.
pub open spec fn t_softplus(a: Tn) -> Tn {
    t_unary(UnaryOp::Softplus, a)
}

/// Element by element, the Gaussian error linear unit.
pub open spec fn t_gelu(a: Tn) -> Tn {
    t_unary(UnaryOp::Gelu, a)
}

/// Element by element, the tanh form of the Gaussian error linear unit.
pub open spec fn t_gelu_approximate(a: Tn) -> Tn {
    t_unary(UnaryOp::GeluApproximate, a)
}

/// Pair by pair, the sum.
pub open spec fn t_add(a: Tn, b: Tn) -> Tn {
    t_binary(BinaryOp::Add, a, b)
}

/// Pair by pair, the difference.
pub open spec fn t_subtract(a: Tn, b: Tn) -> Tn {
    t_binary(BinaryOp::Subtract, a, b)
}

/// Pair by pair, the product.
pub open spec fn t_multiply(a: Tn, b: Tn) -> Tn {
    t_binary(BinaryOp::Multiply, a, b)
}

/// Pair by pair, the quotient.
pub open spec fn t_divide(a: Tn, b: Tn) -> Tn {
    t_binary(BinaryOp::Divide, a, b)
}

/// Pair by pair, the power.
pub open spec fn t_power(a: Tn, b: Tn) -> Tn {
    t_binary(BinaryOp::Power, a, b)
}

/// Pair by pair, the larger.
pub open spec fn t_maximum(a: Tn, b: Tn) -> Tn {
    t_binary(BinaryOp::Maximum, a, b)
}

/// Pair by pair, the smaller.
pub open spec fn t_minimum(a: Tn, b: Tn) -> Tn {
    t_binary(BinaryOp::Minimum, a, b)
}

/// Pair by pair, whether the first is above the second.
pub open spec fn t_gt(a: Tn, b: Tn) -> Tn {
    t_binary(BinaryOp::Greater, a, b)
}

/// Pair by pair, whether the first is at least the second.
pub open spec fn t_ge(a: Tn, b: Tn) -> Tn {
    t_binary(BinaryOp::GreaterEqual, a, b)
}

/// Pair by pair, whether the first is below the second.
pub open spec fn t_lt(a: Tn, b: Tn) -> Tn {
    t_binary(BinaryOp::Less, a, b)
}

/// Pair by pair, whether the first is at most the second.
pub open spec fn t_le(a: Tn, b: Tn) -> Tn {
    t_binary(BinaryOp::LessEqual, a, b)
}

/// Pair by pair, whether the two are equal.
pub open spec fn t_eq(a: Tn, b: Tn) -> Tn {
    t_binary(BinaryOp::Equal, a, b)
}

/// Pair by pair, whether both hold.
pub open spec fn t_logical_and(a: Tn, b: Tn) -> Tn {
    t_binary(BinaryOp::LogicalAnd, a, b)
}

impl Array {
    /// Applies an operation to each element.
    pub fn unary(&self, op: UnaryOp) -> (r: Result<Array, Exception>)
        ensures
            tn(r) == t_unary(op, Ok(self@)),
    {
        proof {
            reveal(raw_unary);
        }
        let dtype = if self.dtype().is_floating() || op == UnaryOp::Negative || op
            == UnaryOp::Square {
            self.dtype()
        } else {
            Dtype::Float32
        };
        Ok(Array::apply1(Kind::Unary(op), self, self.dims(), dtype))
    }

    /// Applies an operation to each pair of elements.
    pub fn binary(&self, op: BinaryOp, other: &Array) -> (r: Result<Array, Exception>)
        ensures
            tn(r) == t_binary(op, Ok(self@), Ok(other@)),
    {
        proof {
            reveal(raw_binary);
        }
        let meet = promote(self.dtype(), other.dtype());
        let dtype = if op.is_predicate() {
            Dtype::Bool
        } else if op == BinaryOp::Divide && !meet.is_floating() {
            Dtype::Float32
        } else {
            meet
        };
        match broadcast_shapes(self.shape(), other.shape()) {
            Some(shape) => Ok(Array::apply2(Kind::Binary(op), self, other, shape, dtype)),
            None => Err(Exception::Operands),
        }
    }

    /// Converts the elements.
    pub fn as_dtype(&self, dtype: Dtype) -> (r: Result<Array, Exception>)
        ensures
            tn(r) == t_cast(Ok(self@), dtype),
    {
        proof {
            reveal(raw_cast);
        }
        Ok(Array::apply1(Kind::Cast, self, self.dims(), dtype))
    }

    /// Computes, element by element, the exponential.
    pub fn exp(&self) -> (r: Result<Array, Exception>)
        ensures
            tn(r) == t_exp(Ok(self@)),
    {
        self.unary(UnaryOp::Exp)
    }

    /// Computes, element by element, the natural logarithm.
    pub fn log(&self) -> (r: Result<Array, Exception>)
        ensures
            tn(r) == t_log(Ok(self@)),
    {
        self.unary(UnaryOp::Log)
    }

    /// Computes, element by element, the negation.
    pub fn negative(&self) -> (r: Result<Array, Exception>)
        ensures
            tn(r) == t_negative(Ok(self@)),
    {
        self.unary(UnaryOp::Negative)
    }

    /// Computes, element by element, the square.
    pub fn square(&self) -> (r: Result<Array, Exception>)
        ensures
            tn(r) == t_square(Ok(self@)),
    {
        self.unary(UnaryOp::Square)
    }

    /// Computes, element by element, the reciprocal square root.
    pub fn rsqrt(&self) -> (r: Result<Array, Exception>)
        ensures
            tn(r) == t_rsqrt(Ok(self@)),
    {
        self.unary(UnaryOp::Rsqrt)
    }

    /// Computes, element by element, the reciprocal.
    pub fn reciprocal(&self) -> (r: Result<Array, Exception>)
        ensures
            tn(r) == t_reciprocal(Ok(self@)),
    {
        self.unary(UnaryOp::Reciprocal)
    }

    /// Computes, element by element, the cosine.
    pub fn cos(&self) -> (r: Result<Array, Exception>)
        ensures
            tn(r) == t_cos(Ok(self@)),
    {
        self.unary(UnaryOp::Cos)
    }

    /// Computes, element by element, the sine.
    pub fn sin(&self) -> (r: Result<Array, Exception>)
        ensures
            tn(r) == t_sin(Ok(self@)),
    {
        self.unary(UnaryOp::Sin)
    }

    /// Computes, element by element, the logistic function.
    pub fn sigmoid(&self) -> (r: Result<Array, Exception>)
        ensures
            tn(r) == t_sigmoid(Ok(self@)),
    {
        self.unary(UnaryOp::Sigmoid)
    }

    /// Computes, element by element, `x * sigmoid(x)`.
    pub fn silu(&self) -> (r: Result<Array, Exception>)
        ensures
            tn(r) == t_silu(Ok(self@)),
    {
        self.unary(UnaryOp::Silu)
    }

    /// Computes, element by element, `log(1 + exp(x))`.
    pub fn softplus(&self) -> (r: Result<Array, Exception>)
        ensures
            tn(r) == t_softplus(Ok(self@)),
    {
        self.unary(UnaryOp::Softplus)
    }

    /// Computes, element by element, the Gaussian error linear unit.
    pub fn gelu(&self) -> (r: Result<Array, Exception>)
        ensures
            tn(r) == t_gelu(Ok(self@)),
    {
        self.unary(UnaryOp::Gelu)
    }

    /// Computes, element by element, the tanh form of the Gaussian error linear unit.
    pub fn gelu_approximate(&self) -> (r: Result<Array, Exception>)
        ensures
            tn(r) == t_gelu_approximate(Ok(self@)),
    {
        self.unary(UnaryOp::GeluApproximate)
    }

    /// Computes, pair by pair, the sum.
    pub fn add(&self, other: &Array) -> (r: Result<Array, Exception>)
        ensures
            tn(r) == t_add(Ok(self@), Ok(other@)),
    {
        self.binary(BinaryOp::Add, other)
    }

    /// Computes, pair by pair, the difference.
    pub fn subtract(&self, other: &Array) -> (r: Result<Array, Exception>)
        ensures
            tn(r) == t_subtract(Ok(self@), Ok(other@)),
    {
        self.binary(BinaryOp::Subtract, other)
    }

    /// Computes, pair by pair, the product.
    pub fn multiply(&self, other: &Array) -> (r: Result<Array, Exception>)
        ensures
            tn(r) == t_multiply(Ok(self@), Ok(other@)),
    {
        self.binary(BinaryOp::Multiply, other)
    }

    /// Computes, pair by pair, the quotient.
    pub fn divide(&self, other: &Array) -> (r: Result<Array, Exception>)
        ensures
            tn(r) == t_divide(Ok(self@), Ok(other@)),
    {
        self.binary(BinaryOp::Divide, other)
    }

    /// Computes, pair by pair, the power.
    pub fn power(&self, other: &Array) -> (r: Result<Array, Exception>)
        ensures
            tn(r) == t_power(Ok(self@), Ok(other@)),
    {
        self.binary(BinaryOp::Power, other)
    }

    /// Computes, pair by pair, the larger.
    pub fn maximum(&self, other: &Array) -> (r: Result<Array, Exception>)
        ensures
            tn(r) == t_maximum(Ok(self@), Ok(other@)),
    {
        self.binary(BinaryOp::Maximum, other)
    }

    /// Computes, pair by pair, the smaller.
    pub fn minimum(&self, other: &Array) -> (r: Result<Array, Exception>)
        ensures
            tn(r) == t_minimum(Ok(self@), Ok(other@)),
    {
        self.binary(BinaryOp::Minimum, other)
    }

    /// Computes, pair by pair, whether the first is above the second.
    pub fn gt(&self, other: &Array) -> (r: Result<Array, Exception>)
        ensures
            tn(r) == t_gt(Ok(self@), Ok(other@)),
    {
        self.binary(BinaryOp::Greater, other)
    }

    /// Computes, pair by pair, whether the first is at least the second.
    pub fn ge(&self, other: &Array) -> (r: Result<Array, Exception>)
        ensures
            tn(r) == t_ge(Ok(self@), Ok(other@)),
    {
        self.binary(BinaryOp::GreaterEqual, other)
    }

    /// Computes, pair by pair, whether the first is below the second.
    pub fn lt(&self, other: &Array) -> (r: Result<Array, Exception>)
        ensures
            tn(r) == t_lt(Ok(self@), Ok(other@)),
    {
        self.binary(BinaryOp::Less, other)
    }

    /// Computes, pair by pair, whether the first is at most the second.
    pub fn le(&self, other: &Array) -> (r: Result<Array, Exception>)
        ensures
            tn(r) == t_le(Ok(self@), Ok(other@)),
    {
        self.binary(BinaryOp::LessEqual, other)
    }

    /// Computes, pair by pair, whether the two are equal.
    pub fn eq(&self, other: &Array) -> (r: Result<Array, Exception>)
        ensures
            tn(r) == t_eq(Ok(self@), Ok(other@)),
    {
        self.binary(BinaryOp::Equal, other)
    }

    /// Computes, pair by pair, whether both hold.
    pub fn logical_and(&self, other: &Array) -> (r: Result<Array, Exception>)
        ensures
            tn(r) == t_logical_and(Ok(self@), Ok(other@)),
    {
        self.binary(BinaryOp::LogicalAnd, other)
    }

}

/// Picks elements of `a` where `c` holds and of `b` elsewhere.
pub fn which(c: &Array, a: &Array, b: &Array) -> (r: Result<Array, Exception>)
    ensures
        tn(r) == t_where(Ok(c@), Ok(a@), Ok(b@)),
{
    proof {
        reveal(raw_where);
    }
    let dtype = promote(a.dtype(), b.dtype());
    match broadcast_shapes(a.shape(), b.shape()) {
        Some(inner) => match broadcast_shapes(c.shape(), &inner) {
            Some(shape) => Ok(Array::apply3(Kind::Where, c, a, b, shape, dtype)),
            None => Err(Exception::Operands),
        },
        None => Err(Exception::Operands),
    }
}

} // verus!
