//! What the elements of an expression are.
//!
//! Operations that move elements, and those on integers and truth values, have their meaning
//! spelled out here; so have those that look up or replace positions listed by an operand, where
//! the list is of integers in range. An element of an operation on single elements, of a sum, a
//! mean, a product of matrices, a normalization, a convolution, a rotary embedding or of attention
//! is the operation applied to the elements that it depends on: of attention these are its query
//! and the keys and values of the positions that it may see, and of a rotary embedding its row and
//! its position. The probabilities of a row and the order of a partition come from that row, and a
//! product with a picked matrix from its row, the matrices and the pick. The kernel of the gated
//! delta rule goes from position to position. An element of any other operation stands for itself:
//! it is named by the operation and its index.

use crate::array::{BinaryOp, Dtype, Kind, MaskMode, Term};
use crate::models::gated_delta::GATED_DELTA_SOURCE;
use crate::scalar::{lit, Scalar, NEG_INFINITY_BITS, ZERO_BITS};
use vstd::prelude::*;

verus! {

/// An element of an array.
pub enum Elem {
    Int(int),
    Truth(bool),
    Real(Scalar),
    /// The outcome of an operation on elements of the given types: the operand's, or the
    /// operands', and for a conversion the type that it goes to.
    Applied(Kind, Seq<Dtype>, Seq<Elem>),
    /// Several elements that an operation reads together.
    Row(Seq<Elem>),
    /// The element of an expression at an index.
    Of(Term, Seq<int>),
}

/// The index into an operand of the given shape that is stretched to the rank of `ix`.
pub open spec fn stretched_index(ix: Seq<int>, shape: Seq<i32>) -> Seq<int> {
    Seq::new(
        shape.len(),
        |i: int|
            if shape[i] == 1 {
                0
            } else {
                ix[i + ix.len() - shape.len()]
            },
    )
}

/// The place of an index in row-major order.
pub open spec fn flat_index(ix: Seq<int>, shape: Seq<i32>) -> int
    decreases ix.len(),
{
    if ix.len() == 0 || shape.len() == 0 {
        0
    } else {
        flat_index(ix.drop_last(), shape.drop_last()) * shape.last() + ix.last()
    }
}

/// The index at a place in row-major order.
pub open spec fn index_at(place: int, shape: Seq<i32>) -> Seq<int>
    decreases shape.len(),
{
    if shape.len() == 0 {
        seq![]
    } else if shape.last() <= 0 {
        Seq::new(shape.len(), |i: int| 0int)
    } else {
        index_at(place / (shape.last() as int), shape.drop_last()).push(
            place % (shape.last() as int),
        )
    }
}

/// Whether a number is one of the two that masks are made of, zero and negative infinity. Their
/// sums are exact, and so is their conversion between floating types.
pub open spec fn is_mark(s: Scalar) -> bool {
    s == lit(ZERO_BITS) || s == lit(NEG_INFINITY_BITS)
}

/// The outcome of an operation on two elements, where it is on integers or truth values, adds marks
/// or compares constants.
pub open spec fn combine(op: BinaryOp, a: Elem, b: Elem, otherwise: Elem) -> Elem {
    match (a, b) {
        (Elem::Int(x), Elem::Int(y)) => match op {
            BinaryOp::Add => Elem::Int(x + y),
            BinaryOp::Subtract => Elem::Int(x - y),
            BinaryOp::Greater => Elem::Truth(x > y),
            BinaryOp::GreaterEqual => Elem::Truth(x >= y),
            BinaryOp::Less => Elem::Truth(x < y),
            BinaryOp::LessEqual => Elem::Truth(x <= y),
            BinaryOp::Equal => Elem::Truth(x == y),
            _ => otherwise,
        },
        (Elem::Real(x), Elem::Real(y)) => if op == BinaryOp::Add && is_mark(x) && is_mark(y) {
            if x == lit(ZERO_BITS) {
                b
            } else {
                a
            }
        } else {
            match (op, x, y) {
                (BinaryOp::Equal, Scalar::Lit(f), Scalar::Lit(g)) => Elem::Truth(f.same(g)),
                _ => otherwise,
            }
        },
        (Elem::Truth(x), Elem::Truth(y)) => match op {
            BinaryOp::LogicalAnd => Elem::Truth(x && y),
            _ => otherwise,
        },
        _ => otherwise,
    }
}

/// An integer as an element of the given type.
pub open spec fn whole_number(dtype: Dtype, n: int) -> Elem {
    if dtype.floating() {
        Elem::Real(Scalar::Int(n as i32))
    } else {
        Elem::Int(n)
    }
}

/// The number of positions of an axis.
pub open spec fn length_of(dim: i32) -> nat {
    if dim > 0 {
        dim as nat
    } else {
        0
    }
}

/// The index into the operand of a reduction: the reduced axis at `i`.
pub open spec fn reduced_index(ix: Seq<int>, axis: int, keep: bool, i: int) -> Seq<int> {
    if keep {
        ix.update(axis, i)
    } else {
        ix.insert(axis, i)
    }
}

/// Whether a list holds positions of an axis of `n`.
pub open spec fn positions(list: Seq<Elem>, n: int) -> bool {
    forall|j: int|
        0 <= j < list.len() ==> (#[trigger] list[j] matches Elem::Int(p) && 0 <= p < n)
}

/// The element at `p` of a row of `n` in which the listed positions are replaced by the values:
/// `below` where the list leaves it alone, and otherwise the value that the list gives for it. Of
/// several different values any could be the one.
pub open spec fn put(
    list: Seq<Elem>,
    values: Seq<Elem>,
    p: int,
    n: int,
    below: Elem,
    otherwise: Elem,
) -> Elem {
    if !positions(list, n) {
        otherwise
    } else if list.contains(Elem::Int(p)) {
        let j = list.index_of(Elem::Int(p));
        if forall|i: int|
            0 <= i < list.len() && #[trigger] list[i] == Elem::Int(p) ==> values[i] == values[j] {
            values[j]
        } else {
            otherwise
        }
    } else {
        below
    }
}

/// The index of row `r` in a list of offsets, or of the one offset for all rows.
pub open spec fn row_index(shape: Seq<i32>, r: int) -> Seq<int> {
    if shape.len() == 0 {
        seq![]
    } else {
        seq![r]
    }
}

/// An element of a rotary embedding: of feature `feature` of a row that stands at `place`, with the
/// wavelengths where they are given.
pub open spec fn turned(
    row: Seq<Elem>,
    freqs: Seq<Elem>,
    scalars: Seq<Scalar>,
    dtype: Dtype,
    dims: i32,
    traditional: bool,
    place: int,
    feature: int,
) -> Elem {
    Elem::Applied(
        Kind::Rope { dims, traditional, offset: 0 },
        seq![dtype],
        seq![
            Elem::Row(row),
            Elem::Row(freqs),
            Elem::Row(Seq::new(scalars.len(), |i: int| Elem::Real(scalars[i]))),
            Elem::Int(place),
            Elem::Int(feature),
        ],
    )
}

/// The number of positions that query `i` of `l` may see out of `n`: with the causal mask those up
/// to its own, the last query standing at the last position.
pub open spec fn seen_by(mask: MaskMode, i: int, l: int, n: int) -> nat {
    let count = if mask == MaskMode::Causal {
        i + (n - l) + 1
    } else {
        n
    };
    if count > 0 {
        count as nat
    } else {
        0
    }
}

/// The element of an expression at an index.
pub open spec fn elem(t: Term, ix: Seq<int>) -> Elem
    decreases t, 3int, 0int,
{
    match t.kind {
        Kind::Zeros => whole_number(t.dtype, 0),
        Kind::Ones => whole_number(t.dtype, 1),
        Kind::Constant => Elem::Real(t.scalars[flat_index(ix, t.shape)]),
        Kind::Integers => Elem::Int(t.ints[flat_index(ix, t.shape)] as int),
        Kind::Arange { start } => whole_number(t.dtype, start + ix[0]),
        Kind::Binary(op) if t.args.len() == 2 => combine(
            op,
            elem(t.args[0], stretched_index(ix, t.args[0].shape)),
            elem(t.args[1], stretched_index(ix, t.args[1].shape)),
            Elem::Applied(
                t.kind,
                seq![t.args[0].dtype, t.args[1].dtype],
                seq![
                    elem(t.args[0], stretched_index(ix, t.args[0].shape)),
                    elem(t.args[1], stretched_index(ix, t.args[1].shape)),
                ],
            ),
        ),
        Kind::Unary(_) if t.args.len() == 1 => Elem::Applied(
            t.kind,
            seq![t.args[0].dtype],
            seq![elem(t.args[0], ix)],
        ),
        Kind::Sum { axis, keep } if t.args.len() == 1 => Elem::Applied(
            t.kind,
            seq![t.args[0].dtype],
            Seq::new(
                length_of(t.args[0].shape[axis as int]),
                |i: int| elem(t.args[0], reduced_index(ix, axis as int, keep, i)),
            ),
        ),
        Kind::Mean { axis, keep } if t.args.len() == 1 => Elem::Applied(
            t.kind,
            seq![t.args[0].dtype],
            Seq::new(
                length_of(t.args[0].shape[axis as int]),
                |i: int| elem(t.args[0], reduced_index(ix, axis as int, keep, i)),
            ),
        ),
        Kind::Take { axis } if t.args.len() == 2 => {
            let rank = t.args[1].shape.len() as int;
            let k = axis as int;
            match elem(t.args[1], ix.subrange(k, k + rank)) {
                Elem::Int(p) if 0 <= p < t.args[0].shape[k] => elem(
                    t.args[0],
                    ix.take(k).push(p) + ix.skip(k + rank),
                ),
                e => Elem::Applied(
                    t.kind,
                    seq![t.args[0].dtype, t.args[1].dtype],
                    seq![e, Elem::Row(choices(t.args[0], ix.take(k), ix.skip(k + rank)))],
                ),
            }
        },
        Kind::TakeAlong { axis } if t.args.len() == 2 => match elem(
            t.args[1],
            stretched_index(ix, t.args[1].shape),
        ) {
            Elem::Int(p) if 0 <= p < t.args[0].shape[axis as int] => elem(
                t.args[0],
                stretched_index(ix.update(axis as int, p), t.args[0].shape),
            ),
            _ => computed(t, ix),
        },
        Kind::PutAlong { axis } if t.args.len() == 3 => {
            let k = axis as int;
            let n = length_of(t.args[1].shape[k]);
            put(
                row_through(t.args[1], ix, k, n),
                row_through(t.args[2], ix, k, n),
                ix[k],
                t.shape[k] as int,
                elem(t.args[0], ix),
                Elem::Of(t, ix),
            )
        },
        Kind::Where if t.args.len() == 3 => match elem(
            t.args[0],
            stretched_index(ix, t.args[0].shape),
        ) {
            Elem::Truth(c) => if c {
                elem(t.args[1], stretched_index(ix, t.args[1].shape))
            } else {
                elem(t.args[2], stretched_index(ix, t.args[2].shape))
            },
            c => Elem::Applied(
                t.kind,
                seq![t.args[1].dtype, t.args[2].dtype],
                seq![
                    c,
                    elem(t.args[1], stretched_index(ix, t.args[1].shape)),
                    elem(t.args[2], stretched_index(ix, t.args[2].shape)),
                ],
            ),
        },
        Kind::Cast if t.args.len() == 1 => match elem(t.args[0], ix) {
            Elem::Real(s) if is_mark(s) && t.dtype.floating() => Elem::Real(s),
            e => Elem::Applied(t.kind, seq![t.args[0].dtype, t.dtype], seq![e]),
        },
        Kind::Reshape if t.args.len() == 1 => elem(
            t.args[0],
            index_at(flat_index(ix, t.shape), t.args[0].shape),
        ),
        Kind::Transpose if t.args.len() == 1 => elem(
            t.args[0],
            Seq::new(
                ix.len(),
                |j: int| ix[choose|i: int| 0 <= i < t.ints.len() && #[trigger] t.ints[i] == j],
            ),
        ),
        Kind::BroadcastTo if t.args.len() == 1 => elem(
            t.args[0],
            stretched_index(ix, t.args[0].shape),
        ),
        Kind::ExpandDims { axis } if t.args.len() == 1 => elem(t.args[0], ix.remove(axis as int)),
        Kind::Squeeze { axis } if t.args.len() == 1 => elem(t.args[0], ix.insert(axis as int, 0)),
        Kind::Repeat { axis, times } if t.args.len() == 1 => elem(
            t.args[0],
            ix.update(axis as int, ix[axis as int] / (times as int)),
        ),
        Kind::Slice { axis, start } if t.args.len() == 1 => elem(
            t.args[0],
            ix.update(axis as int, ix[axis as int] + start),
        ),
        Kind::Select { axis, index } if t.args.len() == 1 => elem(
            t.args[0],
            ix.insert(axis as int, index as int),
        ),
        Kind::SliceUpdate { axis, start } if t.args.len() == 2 => {
            let p = ix[axis as int];
            let n = if t.args[1].shape.len() == t.shape.len() {
                t.args[1].shape[axis as int] as int
            } else {
                0
            };
            if start <= p < start + n {
                elem(
                    t.args[1],
                    stretched_index(ix.update(axis as int, p - start), t.args[1].shape),
                )
            } else {
                elem(t.args[0], ix)
            }
        },
        Kind::Concatenate { axis } if t.args.len() == 2 => {
            let n = t.args[0].shape[axis as int];
            if ix[axis as int] < n {
                elem(t.args[0], ix)
            } else {
                elem(t.args[1], ix.update(axis as int, ix[axis as int] - n))
            }
        },
        Kind::Stack { axis } if 0 <= ix[axis as int] < t.args.len() => elem(
            t.args[ix[axis as int]],
            ix.remove(axis as int),
        ),
        _ => computed(t, ix),
    }
}

/// The element of an expression that is computed from several others, at an index.
#[verifier::opaque]
pub open spec fn computed(t: Term, ix: Seq<int>) -> Elem
    decreases t, 2int, 0int,
{
    match t.kind {
        Kind::Rope { dims, traditional, offset } if t.args.len() >= 1 && ix.len() >= 2 => turned(
            last_row(t.args[0], ix),
            if t.args.len() >= 2 {
                list_of(t.args[1])
            } else {
                seq![]
            },
            t.scalars,
            t.args[0].dtype,
            dims,
            traditional,
            offset + ix[ix.len() - 2],
            ix.last(),
        ),
        Kind::RopeDynamic { dims, traditional } if t.args.len() >= 2 && ix.len() >= 2 => match elem(
            t.args[1],
            row_index(t.args[1].shape, ix[0]),
        ) {
            Elem::Int(o) => turned(
                last_row(t.args[0], ix),
                if t.args.len() >= 3 {
                    list_of(t.args[2])
                } else {
                    seq![]
                },
                t.scalars,
                t.args[0].dtype,
                dims,
                traditional,
                o + ix[ix.len() - 2],
                ix.last(),
            ),
            _ => Elem::Of(t, ix),
        },
        Kind::Matmul if t.args.len() == 2 && ix.len() >= 2 => Elem::Applied(
            t.kind,
            seq![t.args[0].dtype, t.args[1].dtype],
            seq![
                Elem::Row(left_row(t.args[0], ix)),
                Elem::Row(right_column(t.args[1], ix)),
            ],
        ),
        Kind::QuantizedMatmul { .. } if t.args.len() == 4 && ix.len() >= 1 => Elem::Applied(
            t.kind,
            seq![t.args[0].dtype, t.args[2].dtype],
            seq![
                Elem::Row(last_row(t.args[0], ix)),
                Elem::Row(table_row(t.args[1], ix.last())),
                Elem::Row(table_row(t.args[2], ix.last())),
                Elem::Row(table_row(t.args[3], ix.last())),
            ],
        ),
        Kind::Dequantize { .. } if t.args.len() == 3 && ix.len() >= 1 => Elem::Applied(
            t.kind,
            seq![t.args[1].dtype],
            seq![
                Elem::Row(last_row(t.args[0], ix)),
                Elem::Row(last_row(t.args[1], ix)),
                Elem::Row(last_row(t.args[2], ix)),
                Elem::Int(ix.last()),
            ],
        ),
        Kind::RmsNorm if t.args.len() >= 1 && ix.len() >= 1 => Elem::Applied(
            t.kind,
            seq![t.args[0].dtype, t.dtype],
            seq![
                Elem::Row(last_row(t.args[0], ix)),
                Elem::Row(
                    if t.args.len() >= 2 {
                        list_of(t.args[1])
                    } else {
                        seq![]
                    },
                ),
                Elem::Real(t.scalars[0]),
                Elem::Int(ix.last()),
            ],
        ),
        Kind::Attention { mask, sinks } if mask != MaskMode::Given && !sinks && t.args.len() == 3
            && ix.len() == 4 => {
            let n = seen_by(
                mask,
                ix[2],
                t.args[0].shape[2] as int,
                t.args[1].shape[2] as int,
            );
            let g = ix[1] / (t.args[0].shape[1] as int / t.args[1].shape[1] as int);
            Elem::Applied(
                Kind::Attention { mask: MaskMode::Unmasked, sinks: false },
                seq![t.args[0].dtype, t.args[1].dtype, t.args[2].dtype],
                seq![
                    Elem::Real(t.scalars[0]),
                    Elem::Row(last_row(t.args[0], ix)),
                    Elem::Row(seen_keys(t.args[1], ix[0], g, n)),
                    Elem::Row(seen_values(t.args[2], ix[0], g, ix[3], n)),
                ],
            )
        },
        Kind::Conv1d { .. } if t.args.len() == 2 && ix.len() == 3 => {
            let k = length_of(t.args[1].shape[1]);
            Elem::Applied(
                t.kind,
                seq![t.args[0].dtype, t.args[1].dtype],
                seq![
                    Elem::Row(window(t.args[0], ix[0], ix[1], k)),
                    Elem::Row(window(t.args[1], ix[2], 0, k)),
                    Elem::Int(ix[2]),
                ],
            )
        },
        Kind::KernelOutput { output } if is_delta_launch(t) && output == 0 && ix.len() == 4
            => Elem::Applied(
            Kind::KernelOutput { output: 0 },
            seq![t.args[0].dtype],
            seq![
                Elem::Row(delta_row(t, ix[0], ix[2], ix[3], (ix[1] + 1) as nat)),
                Elem::Row(
                    last_row(
                        t.args[0],
                        seq![
                            ix[0],
                            ix[1],
                            key_head(ix[2], t.args[0].shape[2], t.args[2].shape[2]),
                            0,
                        ],
                    ),
                ),
            ],
        ),
        Kind::KernelOutput { output } if is_delta_launch(t) && output == 1 && ix.len() == 4
            => delta_row(t, ix[0], ix[1], ix[2], length_of(t.args[0].shape[1]))[ix[3]],
        _ => routed(t, ix),
    }
}

/// The element of an expression that picks, ranks or masks, at an index.
#[verifier::opaque]
pub open spec fn routed(t: Term, ix: Seq<int>) -> Elem
    decreases t, 1int, 0int,
{
    match t.kind {
        Kind::GatherQmm { .. } if t.args.len() == 5 && ix.len() >= 2 => Elem::Applied(
            t.kind,
            seq![t.args[0].dtype, t.args[2].dtype],
            seq![
                Elem::Row(left_row(t.args[0], ix)),
                Elem::Row(planes(t.args[1], ix.last())),
                Elem::Row(planes(t.args[2], ix.last())),
                Elem::Row(planes(t.args[3], ix.last())),
                elem(t.args[4], stretched_index(ix.take(ix.len() - 2), t.args[4].shape)),
            ],
        ),
        Kind::GatherQmm { .. } if t.args.len() == 4 && ix.len() >= 2 => Elem::Applied(
            t.kind,
            seq![t.args[0].dtype, t.args[2].dtype],
            seq![
                Elem::Row(left_row(t.args[0], ix)),
                Elem::Row(planes(t.args[1], ix.last())),
                Elem::Row(planes(t.args[2], ix.last())),
                elem(t.args[3], stretched_index(ix.take(ix.len() - 2), t.args[3].shape)),
            ],
        ),
        Kind::Softmax { axis, .. } if t.args.len() == 1 && axis + 1 == ix.len() => Elem::Applied(
            t.kind,
            seq![t.args[0].dtype],
            seq![Elem::Row(last_row(t.args[0], ix)), Elem::Int(ix.last())],
        ),
        Kind::ArgPartition { axis, .. } if t.args.len() == 1 && axis + 1 == ix.len() => {
            Elem::Applied(
                t.kind,
                seq![t.args[0].dtype],
                seq![Elem::Row(last_row(t.args[0], ix)), Elem::Int(ix.last())],
            )
        },
        Kind::TakeAlong { axis } if t.args.len() == 2 && axis + 1 == ix.len() => Elem::Applied(
            t.kind,
            seq![t.args[0].dtype, t.args[1].dtype],
            seq![
                Elem::Row(stretched_row(t.args[0], ix)),
                elem(t.args[1], stretched_index(ix, t.args[1].shape)),
            ],
        ),
        Kind::Attention { mask, sinks } if (mask == MaskMode::Given || sinks) && t.args.len() == 3 + (
        if mask == MaskMode::Given {
            1int
        } else {
            0int
        }) + (if sinks {
            1int
        } else {
            0int
        }) && ix.len() == 4 => {
            let n = seen_by(
                mask,
                ix[2],
                t.args[0].shape[2] as int,
                t.args[1].shape[2] as int,
            );
            let g = ix[1] / (t.args[0].shape[1] as int / t.args[1].shape[1] as int);
            Elem::Applied(
                Kind::Attention { mask: MaskMode::Unmasked, sinks },
                seq![t.args[0].dtype, t.args[1].dtype, t.args[2].dtype],
                seq![
                    Elem::Real(t.scalars[0]),
                    Elem::Row(last_row(t.args[0], ix)),
                    Elem::Row(seen_keys(t.args[1], ix[0], g, n)),
                    Elem::Row(seen_values(t.args[2], ix[0], g, ix[3], n)),
                    if mask == MaskMode::Given {
                        Elem::Row(stretched_marks(t.args[3], ix, n))
                    } else {
                        Elem::Row(seq![])
                    },
                    if sinks {
                        elem(t.args.last(), seq![ix[1]])
                    } else {
                        Elem::Row(seq![])
                    },
                ],
            )
        },
        Kind::LayerNorm { weighted, biased } if weighted && biased && t.args.len() == 3 && ix.len()
            >= 1 => Elem::Applied(
            t.kind,
            seq![t.args[0].dtype, t.dtype],
            seq![
                Elem::Row(last_row(t.args[0], ix)),
                elem(t.args[1], seq![ix.last()]),
                elem(t.args[2], seq![ix.last()]),
                Elem::Real(t.scalars[0]),
                Elem::Int(ix.last()),
            ],
        ),
        _ => Elem::Of(t, ix),
    }
}

/// The `n` elements of an operand that is stretched along an index, with axis `k` running.
pub open spec fn row_through(t: Term, ix: Seq<int>, k: int, n: nat) -> Seq<Elem>
    decreases t, 4int, 0int,
{
    Seq::new(n, |j: int| elem(t, stretched_index(ix.update(k, j), t.shape)))
}

/// The elements on the last axis, at an index of the other axes.
pub open spec fn last_row(t: Term, ix: Seq<int>) -> Seq<Elem>
    decreases t, 4int, 0int,
{
    Seq::new(length_of(t.shape.last()), |i: int| elem(t, ix.update(ix.len() - 1, i)))
}

/// The elements on the last axis of an array that is stretched to a larger shape, beside an index.
pub open spec fn stretched_row(t: Term, ix: Seq<int>) -> Seq<Elem>
    decreases t, 4int, 0int,
{
    Seq::new(
        length_of(t.shape.last()),
        |i: int| elem(t, stretched_index(ix.update(ix.len() - 1, i), t.shape)),
    )
}

/// What a mask gives to the first `n` positions for the query at an index.
pub open spec fn stretched_marks(t: Term, ix: Seq<int>, n: nat) -> Seq<Elem>
    decreases t, 4int, 0int,
{
    Seq::new(n, |j: int| elem(t, stretched_index(ix.update(3, j), t.shape)))
}

/// Row `c` of every one of several tables.
pub open spec fn planes(t: Term, c: int) -> Seq<Elem>
    decreases t, 5int, 0int,
{
    Seq::new(length_of(t.shape[0]), |j: int| Elem::Row(plane_row(t, j, c)))
}

/// The elements of row `c` of table `j`.
pub open spec fn plane_row(t: Term, j: int, c: int) -> Seq<Elem>
    decreases t, 4int, 0int,
{
    Seq::new(length_of(t.shape[2]), |i: int| elem(t, seq![j, c, i]))
}

/// The elements of a list.
pub open spec fn list_of(t: Term) -> Seq<Elem>
    decreases t, 4int, 0int,
{
    Seq::new(length_of(t.shape[0]), |i: int| elem(t, seq![i]))
}

/// The elements of row `j` of a table.
pub open spec fn table_row(t: Term, j: int) -> Seq<Elem>
    decreases t, 4int, 0int,
{
    Seq::new(length_of(t.shape[1]), |i: int| elem(t, seq![j, i]))
}

/// The elements that one index picks among, between indices of the other axes.
pub open spec fn choices(t: Term, before: Seq<int>, behind: Seq<int>) -> Seq<Elem>
    decreases t, 4int, 0int,
{
    Seq::new(
        length_of(t.shape[before.len() as int]),
        |i: int| elem(t, before.push(i) + behind),
    )
}

/// The row of a left matrix that an element of a product reads.
pub open spec fn left_row(t: Term, ix: Seq<int>) -> Seq<Elem>
    decreases t, 4int, 0int,
{
    let at = stretched_index(ix.take(ix.len() - 2), t.shape.take(t.shape.len() - 2)).push(
        ix[ix.len() - 2],
    );
    Seq::new(length_of(t.shape.last()), |i: int| elem(t, at.push(i)))
}

/// The column of a right matrix that an element of a product reads.
pub open spec fn right_column(t: Term, ix: Seq<int>) -> Seq<Elem>
    decreases t, 4int, 0int,
{
    let at = stretched_index(ix.take(ix.len() - 2), t.shape.take(t.shape.len() - 2));
    Seq::new(
        length_of(t.shape[t.shape.len() - 2]),
        |i: int| elem(t, at.push(i).push(ix.last())),
    )
}

/// The keys of the first `n` positions of head `g`.
pub open spec fn seen_keys(t: Term, b: int, g: int, n: nat) -> Seq<Elem>
    decreases t, 5int, 0int,
{
    Seq::new(n, |j: int| Elem::Row(last_row(t, seq![b, g, j, 0])))
}

/// One feature of the values of the first `n` positions of head `g`.
pub open spec fn seen_values(t: Term, b: int, g: int, d: int, n: nat) -> Seq<Elem>
    decreases t, 4int, 0int,
{
    Seq::new(n, |j: int| elem(t, seq![b, g, j, d]))
}

/// The features at `k` positions from `p` on.
pub open spec fn window(t: Term, b: int, p: int, k: nat) -> Seq<Elem>
    decreases t, 5int, 0int,
{
    Seq::new(k, |j: int| Elem::Row(last_row(t, seq![b, p + j, 0])))
}

/// The key head that value head `h` reads.
pub open spec fn key_head(h: int, hk: i32, hv: i32) -> int {
    h / (hv as int / hk as int)
}

/// Whether an expression is an output of the kernel of the gated delta rule, with a state in single
/// precision.
pub open spec fn is_delta_launch(t: Term) -> bool {
    &&& t.kernel matches Some(k) && k.source == GATED_DELTA_SOURCE@
    &&& t.args.len() == 7
    &&& t.args[5].dtype == Dtype::Float32
}

/// A row of the state of the gated delta rule after `n` positions. Every position changes it by its
/// key, one feature of its value, its decay and its correction part.
pub open spec fn delta_row(t: Term, b: int, h: int, d: int, n: nat) -> Seq<Elem>
    decreases t, 1int, n,
{
    if t.args.len() != 7 {
        seq![]
    } else if n == 0 {
        last_row(t.args[5], seq![b, h, d, 0])
    } else {
        let p = n - 1;
        let before = delta_row(t, b, h, d, (n - 1) as nat);
        let key = last_row(
            t.args[1],
            seq![b, p, key_head(h, t.args[0].shape[2], t.args[2].shape[2]), 0],
        );
        let value = elem(t.args[2], seq![b, p, h, d]);
        let fade = elem(t.args[3], seq![b, p, h]);
        let part = elem(t.args[4], seq![b, p, h]);
        Seq::new(
            before.len(),
            |i: int|
                Elem::Applied(
                    Kind::KernelOutput { output: 1 },
                    seq![
                        t.args[1].dtype,
                        t.args[2].dtype,
                        t.args[3].dtype,
                        t.args[4].dtype,
                    ],
                    seq![Elem::Row(before), Elem::Row(key), value, fade, part, Elem::Int(i)],
                ),
        )
    }
}

/// Whether an index lies in a shape.
pub open spec fn in_shape(ix: Seq<int>, shape: Seq<i32>) -> bool {
    ix.len() == shape.len() && forall|i: int|
        0 <= i < ix.len() ==> 0 <= #[trigger] ix[i] < shape[i]
}

} // verus!
