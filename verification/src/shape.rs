//! Shapes: axis numbers, element counts, broadcasting, reshaping.

use vstd::prelude::*;

verus! {

/// The axis that `axis` names in an array of rank `rank`; negative numbers count from the end.
pub open spec fn axis_of(axis: i32, rank: nat) -> Option<int> {
    if 0 <= axis < rank {
        Some(axis as int)
    } else if axis < 0 && axis + rank >= 0 {
        Some(axis + rank)
    } else {
        None
    }
}

/// Finds the axis that `axis` names.
pub fn find_axis(axis: i32, rank: usize) -> (r: Option<usize>)
    ensures
        match r {
            Some(k) => axis_of(axis, rank as nat) == Some(k as int) && k < rank,
            None => axis_of(axis, rank as nat) is None,
        },
{
    if axis >= 0 {
        if (axis as usize) < rank {
            Some(axis as usize)
        } else {
            None
        }
    } else {
        let back: usize = (-(axis as i64)) as usize;
        if back <= rank {
            Some(rank - back)
        } else {
            None
        }
    }
}

/// The number of elements of an array of this shape, if no dimension is negative and every
/// leading part of the product fits in 63 bits.
pub open spec fn count(shape: Seq<i32>) -> Option<int>
    decreases shape.len(),
{
    if shape.len() == 0 {
        Some(1)
    } else {
        match count(shape.drop_last()) {
            Some(c) => if shape.last() >= 0 && c * shape.last() <= i64::MAX {
                Some(c * shape.last())
            } else {
                None
            },
            None => None,
        }
    }
}

pub proof fn lemma_count_bounds(shape: Seq<i32>)
    ensures
        count(shape) matches Some(c) ==> 0 <= c <= i64::MAX,
    decreases shape.len(),
{
    if shape.len() > 0 {
        lemma_count_bounds(shape.drop_last());
        match count(shape.drop_last()) {
            Some(c) => {
                assert(shape.last() >= 0 ==> c * shape.last() >= 0) by (nonlinear_arith)
                    requires
                        c >= 0,
                ;
            },
            None => {},
        }
    }
}

/// A leading part of a shape that has no count leaves the whole without one.
pub proof fn lemma_count_prefix(shape: Seq<i32>, n: int)
    requires
        0 <= n <= shape.len(),
        count(shape.take(n)) is None,
    ensures
        count(shape) is None,
    decreases shape.len() - n,
{
    if n < shape.len() {
        assert(shape.take(n + 1).drop_last() =~= shape.take(n));
        lemma_count_prefix(shape, n + 1);
    } else {
        assert(shape.take(n) =~= shape);
    }
}

/// Counts the elements of an array of this shape.
pub fn element_count(shape: &Vec<i32>) -> (r: Option<i64>)
    ensures
        match r {
            Some(c) => count(shape@) == Some(c as int) && c >= 0,
            None => count(shape@) is None,
        },
{
    let mut c: i64 = 1;
    let mut i: usize = 0;
    proof {
        assert(shape@.take(0) =~= Seq::<i32>::empty());
    }
    while i < shape.len()
        invariant
            i <= shape.len(),
            0 <= c,
            count(shape@.take(i as int)) == Some(c as int),
        decreases shape.len() - i,
    {
        let d: i32 = shape[i];
        proof {
            assert(shape@.take(i + 1).drop_last() =~= shape@.take(i as int));
            assert(shape@.take(i + 1).last() == d);
        }
        if d < 0 {
            proof {
                lemma_count_prefix(shape@, i + 1);
            }
            return None;
        }
        proof {
            assert(0 <= c * d <= 0x7fff_ffff_ffff_ffff * 0x7fff_ffff) by (nonlinear_arith)
                requires
                    0 <= c <= 0x7fff_ffff_ffff_ffff,
                    0 <= d <= 0x7fff_ffff,
            ;
        }
        let p: i128 = (c as i128) * (d as i128);
        if p > 0x7fff_ffff_ffff_ffff {
            proof {
                lemma_count_prefix(shape@, i + 1);
            }
            return None;
        }
        c = p as i64;
        i += 1;
    }
    proof {
        assert(shape@.take(i as int) =~= shape@);
    }
    Some(c)
}

/// Compares two lists of numbers.
pub fn same_list(a: &Vec<i32>, b: &Vec<i32>) -> (r: bool)
    ensures
        r == (a@ == b@),
{
    if a.len() != b.len() {
        return false;
    }
    let mut i: usize = 0;
    while i < a.len()
        invariant
            i <= a.len(),
            a.len() == b.len(),
            forall|j: int| 0 <= j < i ==> a@[j] == b@[j],
        decreases a.len() - i,
    {
        if a[i] != b[i] {
            return false;
        }
        i += 1;
    }
    proof {
        assert(a@ =~= b@);
    }
    true
}

/// Copies a list of numbers.
pub fn copy_list(a: &Vec<i32>) -> (r: Vec<i32>)
    ensures
        r@ == a@,
{
    let r = a.clone();
    proof {
        assert(r@ =~= a@);
    }
    r
}

/// The larger of two ranks.
pub open spec fn max_rank(a: Seq<i32>, b: Seq<i32>) -> nat {
    if a.len() >= b.len() {
        a.len()
    } else {
        b.len()
    }
}

/// Dimension `i` of a shape that is padded with ones on the left up to rank `rank`.
pub open spec fn padded_dim(shape: Seq<i32>, rank: nat, i: int) -> i32 {
    if i < rank - shape.len() {
        1
    } else {
        shape[i - (rank - shape.len())]
    }
}

/// Whether two dimensions broadcast.
pub open spec fn dims_fit(a: i32, b: i32) -> bool {
    a == b || a == 1 || b == 1
}

/// The dimension that two fitting dimensions broadcast to.
pub open spec fn wider_dim(a: i32, b: i32) -> i32 {
    if a == 1 {
        b
    } else {
        a
    }
}

/// Whether two shapes broadcast: aligned at their last axes, every pair of dimensions is equal or
/// holds a one.
pub open spec fn broadcastable(a: Seq<i32>, b: Seq<i32>) -> bool {
    let rank = max_rank(a, b);
    forall|i: int|
        0 <= i < rank ==> dims_fit(#[trigger] padded_dim(a, rank, i), padded_dim(b, rank, i))
}

/// The shape that two shapes broadcast to.
pub open spec fn broadcast_shape(a: Seq<i32>, b: Seq<i32>) -> Seq<i32> {
    let rank = max_rank(a, b);
    Seq::new(rank, |i: int| wider_dim(padded_dim(a, rank, i), padded_dim(b, rank, i)))
}

/// The shape that two shapes broadcast to, if they do.
pub open spec fn broadcast(a: Seq<i32>, b: Seq<i32>) -> Option<Seq<i32>> {
    if broadcastable(a, b) {
        Some(broadcast_shape(a, b))
    } else {
        None
    }
}

/// The sequence behind an optional list.
pub open spec fn list_view(r: Option<Vec<i32>>) -> Option<Seq<i32>> {
    match r {
        Some(v) => Some(v@),
        None => None,
    }
}

/// Broadcasts two shapes.
pub fn broadcast_shapes(a: &Vec<i32>, b: &Vec<i32>) -> (r: Option<Vec<i32>>)
    ensures
        list_view(r) == broadcast(a@, b@),
{
    let rank: usize = if a.len() >= b.len() {
        a.len()
    } else {
        b.len()
    };
    let mut out: Vec<i32> = Vec::new();
    let mut i: usize = 0;
    while i < rank
        invariant
            i <= rank,
            rank == max_rank(a@, b@),
            rank == a.len() || rank == b.len(),
            a.len() <= rank,
            b.len() <= rank,
            out@.len() == i,
            forall|j: int|
                0 <= j < i ==> dims_fit(
                    #[trigger] padded_dim(a@, rank as nat, j),
                    padded_dim(b@, rank as nat, j),
                ),
            forall|j: int|
                0 <= j < i ==> out@[j] == wider_dim(
                    padded_dim(a@, rank as nat, j),
                    padded_dim(b@, rank as nat, j),
                ),
        decreases rank - i,
    {
        let da: i32 = if i < rank - a.len() {
            1
        } else {
            a[i - (rank - a.len())]
        };
        let db: i32 = if i < rank - b.len() {
            1
        } else {
            b[i - (rank - b.len())]
        };
        assert(da == padded_dim(a@, rank as nat, i as int));
        assert(db == padded_dim(b@, rank as nat, i as int));
        if da != db && da != 1 && db != 1 {
            return None;
        }
        out.push(
            if da == 1 {
                db
            } else {
                da
            },
        );
        i += 1;
    }
    proof {
        assert(out@ =~= broadcast_shape(a@, b@));
    }
    Some(out)
}

/// The place of the one unknown dimension in a target shape.
pub open spec fn is_unknown_at(target: Seq<i32>, k: int) -> bool {
    0 <= k < target.len() && target[k] == -1 && forall|j: int|
        0 <= j < target.len() && j != k ==> #[trigger] target[j] != -1
}

/// The shape that a target means for an array of `total` elements, if `r` is that shape: no
/// unknown dimension and `total` elements, or one unknown dimension that `total` fills.
pub open spec fn resolve(target: Seq<i32>, total: int) -> Option<Seq<i32>> {
    if exists|k: int| is_unknown_at(target, k) {
        let k = choose|k: int| is_unknown_at(target, k);
        match count(target.update(k, 1)) {
            Some(c) => if c > 0 && total % c == 0 && total / c <= i32::MAX {
                Some(target.update(k, (total / c) as i32))
            } else {
                None
            },
            None => None,
        }
    } else if count(target) == Some(total) {
        Some(target)
    } else {
        None
    }
}

/// Resolves a target shape for an array of `total` elements.
pub fn resolve_shape(target: &Vec<i32>, total: i64) -> (r: Option<Vec<i32>>)
    requires
        total >= 0,
    ensures
        list_view(r) == resolve(target@, total as int),
{
    let mut unknown: Option<usize> = None;
    let mut i: usize = 0;
    while i < target.len()
        invariant
            i <= target.len(),
            match unknown {
                Some(k) => k < i && target@[k as int] == -1 && forall|j: int|
                    0 <= j < i && j != k ==> #[trigger] target@[j] != -1,
                None => forall|j: int| 0 <= j < i ==> #[trigger] target@[j] != -1,
            },
        decreases target.len() - i,
    {
        if target[i] == -1 {
            if unknown.is_some() {
                proof {
                    let k0 = unknown->Some_0 as int;
                    assert forall|k: int| !is_unknown_at(target@, k) by {
                        if is_unknown_at(target@, k) {
                            assert(target@[k0] == -1);
                            assert(target@[i as int] == -1);
                        }
                    }
                    lemma_count_negative(target@, i as int);
                }
                return None;
            }
            unknown = Some(i);
        }
        i += 1;
    }
    match unknown {
        Some(k) => {
            let mut rest = copy_list(target);
            rest.set(k, 1);
            proof {
                assert(is_unknown_at(target@, k as int));
                assert(target@.update(k as int, 1) =~= rest@);
                let c = choose|c: int| is_unknown_at(target@, c);
                assert(c == k) by {
                    assert(target@[c] == -1);
                }
            }
            match element_count(&rest) {
                Some(c) => {
                    if c > 0 && total % c == 0 && total / c <= 0x7fff_ffff {
                        rest.set(k, (total / c) as i32);
                        proof {
                            assert(rest@ =~= target@.update(k as int, (total as int / c as int) as i32));
                        }
                        Some(rest)
                    } else {
                        None
                    }
                },
                None => None,
            }
        },
        None => {
            match element_count(target) {
                Some(c) => if c == total {
                    Some(copy_list(target))
                } else {
                    None
                },
                None => None,
            }
        },
    }
}

/// A shape with a negative dimension has no count.
pub proof fn lemma_count_negative(shape: Seq<i32>, k: int)
    requires
        0 <= k < shape.len(),
        shape[k] < 0,
    ensures
        count(shape) is None,
    decreases shape.len(),
{
    if k < shape.len() - 1 {
        assert(shape.drop_last()[k] == shape[k]);
        lemma_count_negative(shape.drop_last(), k);
    }
}

/// Whether every dimension is at least zero.
pub open spec fn no_negative(shape: Seq<i32>) -> bool {
    forall|i: int| 0 <= i < shape.len() ==> #[trigger] shape[i] >= 0
}

/// Checks that every dimension is at least zero.
pub fn all_non_negative(shape: &Vec<i32>) -> (r: bool)
    ensures
        r == no_negative(shape@),
{
    let mut i: usize = 0;
    while i < shape.len()
        invariant
            i <= shape.len(),
            forall|j: int| 0 <= j < i ==> #[trigger] shape@[j] >= 0,
        decreases shape.len() - i,
    {
        if shape[i] < 0 {
            return false;
        }
        i += 1;
    }
    true
}

/// Whether `axes` names every axis of an array of rank `rank` once.
pub open spec fn is_permutation(axes: Seq<i32>, rank: nat) -> bool {
    &&& axes.len() == rank
    &&& forall|i: int| 0 <= i < rank ==> 0 <= #[trigger] axes[i] < rank
    &&& forall|i: int, j: int| 0 <= i < j < rank ==> axes[i] != axes[j]
}

/// The shape whose dimension `i` is dimension `axes[i]` of `shape`.
pub open spec fn permuted(shape: Seq<i32>, axes: Seq<i32>) -> Seq<i32> {
    Seq::new(axes.len(), |i: int| shape[axes[i] as int])
}

/// Permutes a shape.
pub fn permute_shape(shape: &Vec<i32>, axes: &Vec<i32>) -> (r: Option<Vec<i32>>)
    ensures
        list_view(r) == (if is_permutation(axes@, shape@.len()) {
            Some(permuted(shape@, axes@))
        } else {
            None
        }),
{
    if axes.len() != shape.len() {
        return None;
    }
    let mut out: Vec<i32> = Vec::new();
    let mut i: usize = 0;
    while i < axes.len()
        invariant
            i <= axes.len(),
            axes.len() == shape.len(),
            out@.len() == i,
            forall|j: int| 0 <= j < i ==> 0 <= #[trigger] axes@[j] < shape.len(),
            forall|j: int| 0 <= j < i ==> out@[j] == shape@[axes@[j] as int],
            forall|j: int, k: int| 0 <= j < k < i ==> axes@[j] != axes@[k],
        decreases axes.len() - i,
    {
        let a: i32 = axes[i];
        if a < 0 || (a as usize) >= shape.len() {
            assert(!(0 <= axes@[i as int] < shape.len()));
            return None;
        }
        let mut j: usize = 0;
        while j < i
            invariant
                j <= i,
                i < axes.len(),
                a == axes@[i as int],
                forall|k: int| 0 <= k < j ==> axes@[k] != a,
            decreases i - j,
        {
            if axes[j] == a {
                return None;
            }
            j += 1;
        }
        out.push(shape[a as usize]);
        i += 1;
    }
    proof {
        assert(out@ =~= permuted(shape@, axes@));
    }
    Some(out)
}

/// Python's reading of a slice bound: negative bounds count from the end, and every bound is
/// moved into the axis.
pub open spec fn bound_of(bound: i32, dim: i32) -> int {
    if bound < 0 {
        if bound + dim < 0 {
            0
        } else {
            bound + dim
        }
    } else if bound > dim {
        dim as int
    } else {
        bound as int
    }
}

/// Moves a slice bound into an axis.
pub fn slice_bound(bound: i32, dim: i32) -> (r: i32)
    requires
        dim >= 0,
    ensures
        r == bound_of(bound, dim),
        0 <= r <= dim,
{
    if bound < 0 {
        if bound + dim < 0 {
            0
        } else {
            bound + dim
        }
    } else if bound > dim {
        dim
    } else {
        bound
    }
}

/// The number of positions between two bounds.
pub open spec fn span(start: int, stop: int) -> i32 {
    if stop > start {
        (stop - start) as i32
    } else {
        0
    }
}

} // verus!
