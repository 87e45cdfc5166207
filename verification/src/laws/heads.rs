//! What normalizing does to each element, and the shapes of heads.

use crate::array::{promoted, BinaryOp, Dtype, Kind, Term};
use crate::cache::KeyValueCache;
use crate::fast::{raw_rms_norm, t_rms_norm};
use crate::laws::elements::{
    conversions_go_by_element, converted, fixed, lemma_num_type, num, pair, row_of,
    stretched_pairs_go_together, Num,
};
use crate::laws::parts::lemma_stretch_self;
use crate::meaning::{computed, elem, in_shape, list_of, stretched_index, Elem};
use crate::ops::create::t_scalar;
use crate::ops::elementwise::{t_cast, t_multiply};
use crate::scalar::Scalar;
use crate::shape::broadcast_shape;
use vstd::prelude::*;

verus! {

/// Four sizes that heads can have.
pub open spec fn sizes(b: i32, l: i32, n: i32, d: i32) -> bool {
    b > 0 && l > 0 && n > 0 && d > 0 && b * l <= i32::MAX && n * d <= i32::MAX
}

/// The shape of hidden states.
pub open spec fn states(b: i32, l: i32, c: i32) -> Seq<i32> {
    seq![b, l, c]
}

/// The shape of heads before positions.
pub open spec fn heads_of(b: i32, n: i32, l: i32, d: i32) -> Seq<i32> {
    seq![b, n, l, d]
}

/// Feature `c` of a normalized row.
#[verifier::opaque]
pub open spec fn rms(row: Seq<Elem>, weight: Option<Term>, eps: Scalar, t: Dtype, c: int) -> Num {
    let out = match weight {
        Some(w) => promoted(t, w.dtype),
        None => t,
    };
    Num {
        e: Elem::Applied(
            Kind::RmsNorm,
            seq![t, out],
            seq![
                Elem::Row(row),
                Elem::Row(
                    match weight {
                        Some(w) => list_of(w),
                        None => seq![],
                    },
                ),
                Elem::Real(eps),
                Elem::Int(c),
            ],
        ),
        t: out,
    }
}

/// A normalization reads the row of an element and its weight.
pub proof fn norms_go_by_row(x: Term, weight: Option<Term>, eps: Scalar, ix: Seq<int>)
    requires
        t_rms_norm(Ok(x), weight, eps) is Ok,
        ix.len() >= 1,
    ensures
        t_rms_norm(Ok(x), weight, eps) matches Ok(r) && r.shape == x.shape && num(r, ix) == rms(
            row_of(x, ix),
            weight,
            eps,
            x.dtype,
            ix.last(),
        ),
{
    reveal(raw_rms_norm);
    reveal(num);
    reveal(row_of);
    reveal(rms);
    reveal(computed);
    let r = t_rms_norm(Ok(x), weight, eps)->Ok_0;
    match weight {
        Some(w) => {
            assert(r.args.len() == 2 && r.args[0] == x && r.args[1] == w);
        },
        None => {
            assert(r.args.len() == 1 && r.args[0] == x);
        },
    }
    assert(elem(r, ix) == computed(r, ix));
    let want = rms(row_of(x, ix), weight, eps, x.dtype, ix.last()).e;
    assert(elem(r, ix)->Applied_1 =~= want->Applied_1);
    assert(elem(r, ix)->Applied_2 =~= want->Applied_2);
    assert(elem(r, ix) == want);
}

/// The type of a number with itself.
proof fn lemma_same_type(t: Dtype)
    ensures
        promoted(t, t) == t,
{
}

pub(crate) proof fn lemma_times_constant(x: Term, s: Scalar, ix: Seq<int>)
    requires
        in_shape(ix, x.shape),
    ensures
        t_multiply(Ok(x), t_cast(t_scalar(s), x.dtype)) matches Ok(r) && r.shape == x.shape
            && r.dtype == x.dtype && num(r, ix) == pair(
            BinaryOp::Multiply,
            num(x, ix),
            converted(fixed(s), x.dtype),
        ),
{
    let e = Seq::<i32>::empty();
    let none = Seq::<int>::empty();
    let one = t_scalar(s)->Ok_0;
    conversions_go_by_element(one, x.dtype, none);
    let y = t_cast(Ok(one), x.dtype)->Ok_0;
    assert(y.shape =~= e);
    assert(broadcast_shape(x.shape, e) =~= x.shape);
    stretched_pairs_go_together(BinaryOp::Multiply, x, y, x.shape, ix);
    lemma_stretch_self(ix, x.shape);
    assert(stretched_index(ix, e) =~= none);
    assert(num(one, none) == fixed(s)) by {
        reveal(num);
        assert(crate::meaning::flat_index(none, e) == 0);
    }
    lemma_same_type(x.dtype);
    lemma_num_type(x, ix);
    lemma_num_type(t_multiply(Ok(x), Ok(y))->Ok_0, ix);
}

} // verus!
