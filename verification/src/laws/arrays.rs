//! Which expressions give the same array, element by element.

use crate::array::{BinaryOp, Dtype, Term};
use crate::meaning::{elem, in_shape, length_of, reduced_index, stretched_index};
use crate::ops::elementwise::{raw_binary, raw_cast, t_binary, t_cast};
use crate::ops::layout::{raw_expand_dims, raw_repeat, t_expand_dims, t_repeat};
use crate::ops::reduce::{raw_sum, t_sum};
use crate::ops::select::{raw_select, raw_slice, t_select, t_slice};
use crate::shape::{max_rank, padded_dim};
use vstd::prelude::*;

verus! {

/// Whether two expressions give the same array.
pub open spec fn same_array(a: Term, b: Term) -> bool {
    &&& a.shape == b.shape
    &&& a.dtype == b.dtype
    &&& forall|ix: Seq<int>| #[trigger] in_shape(ix, a.shape) ==> elem(a, ix) == elem(b, ix)
}

/// Whether an array is the part of another whose positions on axis `k` begin at `lo`.
pub open spec fn part_on(x: Term, whole: Term, k: int, lo: int) -> bool {
    &&& 0 <= k < x.shape.len()
    &&& whole.shape.len() == x.shape.len()
    &&& x.dtype == whole.dtype
    &&& x.shape == whole.shape.update(k, x.shape[k])
    &&& 0 <= lo
    &&& lo + x.shape[k] <= whole.shape[k]
    &&& forall|ix: Seq<int>| #[trigger]
        in_shape(ix, x.shape) ==> elem(x, ix) == elem(whole, ix.update(k, ix[k] + lo))
}

/// Whether an array is the part of another whose positions on axis one begin at `lo`.
pub open spec fn is_part(x: Term, whole: Term, lo: int) -> bool {
    part_on(x, whole, 1, lo)
}

/// An index of a stretched operand lies in the operand.
proof fn lemma_stretched(ix: Seq<int>, a: Seq<i32>, b: Seq<i32>, shape: Seq<i32>)
    requires
        crate::shape::broadcast(a, b) == Some(shape),
        in_shape(ix, shape),
    ensures
        in_shape(stretched_index(ix, a), a),
        in_shape(stretched_index(ix, b), b),
{
    let rank = max_rank(a, b);
    assert forall|i: int| 0 <= i < a.len() implies 0 <= #[trigger] stretched_index(ix, a)[i]
        < a[i] by {
        let j = i + ix.len() - a.len();
        assert(0 <= ix[j] < shape[j]);
        assert(padded_dim(a, rank, j) == a[i]);
        assert(crate::shape::dims_fit(padded_dim(a, rank, j), padded_dim(b, rank, j)));
    }
    assert forall|i: int| 0 <= i < b.len() implies 0 <= #[trigger] stretched_index(ix, b)[i]
        < b[i] by {
        let j = i + ix.len() - b.len();
        assert(0 <= ix[j] < shape[j]);
        assert(padded_dim(b, rank, j) == b[i]);
        assert(crate::shape::dims_fit(padded_dim(a, rank, j), padded_dim(b, rank, j)));
    }
}

/// The same operands give the same outcome of an operation on pairs of elements.
pub proof fn same_pairs(op: BinaryOp, a: Term, a2: Term, b: Term, b2: Term)
    requires
        same_array(a, a2),
        same_array(b, b2),
        t_binary(op, Ok(a), Ok(b)) is Ok,
    ensures
        t_binary(op, Ok(a2), Ok(b2)) matches Ok(r) && same_array(
            t_binary(op, Ok(a), Ok(b))->Ok_0,
            r,
        ),
{
    reveal(raw_binary);
    let r = t_binary(op, Ok(a), Ok(b))->Ok_0;
    let r2 = t_binary(op, Ok(a2), Ok(b2))->Ok_0;
    assert forall|ix: Seq<int>| #[trigger] in_shape(ix, r.shape) implies elem(r, ix) == elem(
        r2,
        ix,
    ) by {
        lemma_stretched(ix, a.shape, b.shape, r.shape);
        assert(r.args[0] == a && r.args[1] == b);
        assert(r2.args[0] == a2 && r2.args[1] == b2);
        assert(elem(a, stretched_index(ix, a.shape)) == elem(a2, stretched_index(ix, a.shape)));
        assert(elem(b, stretched_index(ix, b.shape)) == elem(b2, stretched_index(ix, b.shape)));
    }
}

/// The same array with one more axis is the same array.
pub proof fn same_expanded(a: Term, a2: Term, axis: i32)
    requires
        same_array(a, a2),
        0 <= axis <= a.shape.len(),
        a.shape.len() < 10,
    ensures
        t_expand_dims(Ok(a), axis) matches Ok(r) && t_expand_dims(Ok(a2), axis) matches Ok(r2)
            && same_array(r, r2),
{
    reveal(raw_expand_dims);
    let r = t_expand_dims(Ok(a), axis)->Ok_0;
    let r2 = t_expand_dims(Ok(a2), axis)->Ok_0;
    let k = axis as int;
    assert forall|ix: Seq<int>| #[trigger] in_shape(ix, r.shape) implies elem(r, ix) == elem(
        r2,
        ix,
    ) by {
        let jx = ix.remove(k);
        assert forall|i: int| 0 <= i < jx.len() implies 0 <= #[trigger] jx[i] < a.shape[i] by {
            let j = if i < k {
                i
            } else {
                i + 1
            };
            assert(0 <= ix[j] < r.shape[j]);
        }
        assert(in_shape(jx, a.shape));
        assert(r.args[0] == a && r2.args[0] == a2);
    }
}

/// The same array summed along its last axis is the same array.
pub proof fn same_sums(a: Term, a2: Term)
    requires
        same_array(a, a2),
        0 < a.shape.len() < 10,
    ensures
        t_sum(Ok(a), -1i32, false) matches Ok(r) && t_sum(Ok(a2), -1i32, false) matches Ok(r2)
            && same_array(r, r2),
{
    reveal(raw_sum);
    let r = t_sum(Ok(a), -1i32, false)->Ok_0;
    let r2 = t_sum(Ok(a2), -1i32, false)->Ok_0;
    let k = a.shape.len() - 1;
    assert forall|ix: Seq<int>| #[trigger] in_shape(ix, r.shape) implies elem(r, ix) == elem(
        r2,
        ix,
    ) by {
        assert(r.args[0] == a && r2.args[0] == a2);
        let n = length_of(a.shape[k]);
        let xs = Seq::new(n, |i: int| elem(a, reduced_index(ix, k, false, i)));
        let ys = Seq::new(n, |i: int| elem(a2, reduced_index(ix, k, false, i)));
        assert forall|i: int| 0 <= i < n implies #[trigger] xs[i] == ys[i] by {
            let jx = reduced_index(ix, k, false, i);
            assert forall|j: int| 0 <= j < jx.len() implies 0 <= #[trigger] jx[j]
                < a.shape[j] by {
                if j < k {
                    assert(0 <= ix[j] < r.shape[j]);
                }
            }
            assert(in_shape(jx, a.shape));
        }
        assert(elem(r, ix)->Applied_2 =~= xs);
        assert(elem(r2, ix)->Applied_2 =~= ys);
        assert(xs =~= ys);
    }
}

/// A slice of axis one is a part.
pub proof fn a_slice_is_a_part(x: Term, lo: i32, hi: i32)
    requires
        x.shape.len() >= 2,
        0 <= lo <= hi <= x.shape[1],
    ensures
        t_slice(Ok(x), 1, lo, hi) matches Ok(p) && p.shape[1] == hi - lo && is_part(
            p,
            x,
            lo as int,
        ),
{
    reveal(raw_slice);
    let p = t_slice(Ok(x), 1, lo, hi)->Ok_0;
    assert(p.args[0] == x);
}

/// Converting a part gives the part of what was converted.
pub proof fn a_part_converts(x: Term, whole: Term, lo: int, dtype: Dtype)
    requires
        is_part(x, whole, lo),
    ensures
        t_cast(Ok(x), dtype) matches Ok(p) && t_cast(Ok(whole), dtype) matches Ok(w) && is_part(
            p,
            w,
            lo,
        ),
{
    reveal(raw_cast);
    let p = t_cast(Ok(x), dtype)->Ok_0;
    let w = t_cast(Ok(whole), dtype)->Ok_0;
    assert(p.args[0] == x && w.args[0] == whole);
}

/// Repeating the heads of a part gives the part of what was repeated.
pub proof fn a_part_repeats(x: Term, whole: Term, lo: int, times: i32)
    requires
        is_part(x, whole, lo),
        whole.shape.len() == 4,
        times > 0,
        t_repeat(Ok(whole), times, -2i32) is Ok,
    ensures
        t_repeat(Ok(x), times, -2i32) matches Ok(p) && is_part(
            p,
            t_repeat(Ok(whole), times, -2i32)->Ok_0,
            lo,
        ),
{
    reveal(raw_repeat);
    let p = t_repeat(Ok(x), times, -2i32)->Ok_0;
    let w = t_repeat(Ok(whole), times, -2i32)->Ok_0;
    assert(p.args[0] == x && w.args[0] == whole);
    assert(p.shape =~= w.shape.update(1, p.shape[1]));
    assert forall|ix: Seq<int>| #[trigger] in_shape(ix, p.shape) implies elem(p, ix) == elem(
        w,
        ix.update(1, ix[1] + lo),
    ) by {
        let jx = ix.update(2, ix[2] / (times as int));
        assert(0 <= ix[2] < p.shape[2]);
        assert(0 <= ix[2] / (times as int) < x.shape[2]) by (nonlinear_arith)
            requires
                0 <= ix[2] < x.shape[2] * times,
                times > 0,
        ;
        assert forall|i: int| 0 <= i < jx.len() implies 0 <= #[trigger] jx[i] < x.shape[i] by {
            assert(0 <= ix[i] < p.shape[i]);
        }
        assert(in_shape(jx, x.shape));
        let kx = ix.update(1, ix[1] + lo);
        assert(kx.update(2, kx[2] / (times as int)) =~= jx.update(1, jx[1] + lo));
    }
}

/// A position of a part is a position of the whole.
pub proof fn a_position_of_a_part(x: Term, whole: Term, lo: int, i: int)
    requires
        is_part(x, whole, lo),
        0 <= i < x.shape[1],
    ensures
        t_select(Ok(x), 1, i as i32) matches Ok(a) && t_select(
            Ok(whole),
            1,
            (lo + i) as i32,
        ) matches Ok(b) && same_array(a, b),
{
    reveal(raw_select);
    let a = t_select(Ok(x), 1, i as i32)->Ok_0;
    let b = t_select(Ok(whole), 1, (lo + i) as i32)->Ok_0;
    assert(a.args[0] == x && b.args[0] == whole);
    assert(a.shape =~= b.shape);
    assert forall|ix: Seq<int>| #[trigger] in_shape(ix, a.shape) implies elem(a, ix) == elem(
        b,
        ix,
    ) by {
        let jx = ix.insert(1, i);
        assert forall|j: int| 0 <= j < jx.len() implies 0 <= #[trigger] jx[j] < x.shape[j] by {
            if j < 1 {
                assert(0 <= ix[j] < a.shape[j]);
            } else if j > 1 {
                assert(0 <= ix[j - 1] < a.shape[j - 1]);
            }
        }
        assert(in_shape(jx, x.shape));
        assert(jx.update(1, jx[1] + lo) =~= ix.insert(1, lo + i));
    }
}

} // verus!
