//! Matrix products, dense and quantized, and convolution.

use crate::array::{fitted, plain, promote, promoted, tn, Array, Dtype, Kind, Term, Tn};
use crate::error::Exception;
use crate::shape::{broadcast, broadcast_shapes, same_list};
use vstd::prelude::*;

verus! {

/// The first `n` dimensions.
fn front(shape: &Vec<i32>, n: usize) -> (r: Vec<i32>)
    requires
        n <= shape@.len(),
    ensures
        r@ == shape@.take(n as int),
{
    let mut out: Vec<i32> = Vec::new();
    let mut i: usize = 0;
    while i < n
        invariant
            i <= n <= shape@.len(),
            out@ =~= shape@.take(i as int),
        decreases n - i,
    {
        out.push(shape[i]);
        i += 1;
    }
    out
}

#[verifier::opaque]
pub open spec fn raw_matmul(a: Term, b: Term) -> Option<Term> {
    let ra = a.shape.len() as int;
    let rb = b.shape.len() as int;
    if ra >= 2 && rb >= 2 && a.shape[ra - 1] == b.shape[rb - 2] {
        match broadcast(a.shape.take(ra - 2), b.shape.take(rb - 2)) {
            Some(batch) => Some(
                plain(
                    Kind::Matmul,
                    seq![a, b],
                    batch.push(a.shape[ra - 2]).push(b.shape[rb - 1]),
                    promoted(a.dtype, b.dtype),
                ),
            ),
            None => None,
        }
    } else {
        None
    }
}

/// Whether a packed weight with `packed` words a row, and `groups` scales a row, holds `width`
/// numbers a row.
pub open spec fn packs(width: i32, packed: i32, groups: i32, group_size: i32, bits: i32) -> bool {
    width * bits == packed * 32 && groups * group_size == width
}

#[verifier::opaque]
pub open spec fn raw_quantized_matmul(
    x: Term,
    w: Term,
    scales: Term,
    biases: Term,
    group_size: i32,
    bits: i32,
) -> Option<Term> {
    let r = x.shape.len() as int;
    if r >= 1 && w.shape.len() == 2 && scales.shape.len() == 2 && biases.shape == scales.shape
        && w.shape[0] == scales.shape[0] && packs(
        x.shape[r - 1],
        w.shape[1],
        scales.shape[1],
        group_size,
        bits,
    ) {
        Some(
            plain(
                Kind::QuantizedMatmul { group_size, bits },
                seq![x, w, scales, biases],
                x.shape.update(r - 1, w.shape[0]),
                promoted(x.dtype, scales.dtype),
            ),
        )
    } else {
        None
    }
}

#[verifier::opaque]
pub open spec fn raw_gather_qmm(
    x: Term,
    w: Term,
    scales: Term,
    biases: Option<Term>,
    indices: Term,
    group_size: i32,
    bits: i32,
) -> Option<Term> {
    let r = x.shape.len() as int;
    if r >= 2 && w.shape.len() == 3 && scales.shape.len() == 3 && (biases matches Some(b)
        ==> b.shape == scales.shape) && w.shape[0] == scales.shape[0] && w.shape[1]
        == scales.shape[1] && packs(x.shape[r - 1], w.shape[2], scales.shape[2], group_size, bits) {
        match broadcast(x.shape.take(r - 2), indices.shape) {
            Some(batch) => Some(
                plain(
                    Kind::GatherQmm { group_size, bits, microscaling: biases is None },
                    match biases {
                        Some(b) => seq![x, w, scales, b, indices],
                        None => seq![x, w, scales, indices],
                    },
                    batch.push(x.shape[r - 2]).push(w.shape[1]),
                    if biases is Some {
                        promoted(x.dtype, scales.dtype)
                    } else {
                        x.dtype
                    },
                ),
            ),
            None => None,
        }
    } else {
        None
    }
}

#[verifier::opaque]
pub open spec fn raw_quantize(w: Term, part: usize, group_size: i32, bits: i32) -> Option<Term> {
    let r = w.shape.len() as int;
    if r >= 2 && group_size > 0 && 0 < bits <= 8 && w.shape[r - 1] >= 0 && w.shape[r - 1]
        % group_size == 0 && w.shape[r - 1] * bits % 32 == 0 {
        let words = (w.shape[r - 1] * bits / 32) as i32;
        let groups = (w.shape[r - 1] / group_size) as i32;
        Some(
            plain(
                Kind::Quantize { part, group_size, bits },
                seq![w],
                w.shape.update(
                    r - 1,
                    if part == 0 {
                        words
                    } else {
                        groups
                    },
                ),
                if part == 0 {
                    Dtype::Uint32
                } else {
                    w.dtype
                },
            ),
        )
    } else {
        None
    }
}

#[verifier::opaque]
pub open spec fn raw_dequantize(
    w: Term,
    scales: Term,
    biases: Term,
    group_size: i32,
    bits: i32,
) -> Option<Term> {
    let r = w.shape.len() as int;
    if r >= 1 && scales.shape.len() == r && biases.shape == scales.shape && w.shape.drop_last()
        == scales.shape.drop_last() && 0 <= scales.shape[r - 1] * group_size <= i32::MAX
        && scales.shape[r - 1] * group_size * bits == w.shape[r - 1] * 32 {
        Some(
            plain(
                Kind::Dequantize { group_size, bits },
                seq![w, scales, biases],
                w.shape.update(r - 1, (scales.shape[r - 1] * group_size) as i32),
                scales.dtype,
            ),
        )
    } else {
        None
    }
}

#[verifier::opaque]
pub open spec fn raw_conv1d(x: Term, w: Term, groups: i32) -> Option<Term> {
    if x.shape.len() == 3 && w.shape.len() == 3 && groups > 0 && x.shape[2] == w.shape[2] * groups
        && w.shape[1] >= 1 && x.shape[1] >= w.shape[1] {
        let length = (x.shape[1] - w.shape[1] + 1) as i32;
        Some(
            plain(
                Kind::Conv1d { groups },
                seq![x, w],
                seq![x.shape[0], length, w.shape[0]],
                promoted(x.dtype, w.dtype),
            ),
        )
    } else {
        None
    }
}

/// The product of the matrices on the last two axes.
pub open spec fn t_matmul(a: Tn, b: Tn) -> Tn {
    match (a, b) {
        (Ok(a), Ok(b)) => fitted(raw_matmul(a, b)),
        (Err(e), _) => Err(e),
        (Ok(_), Err(e)) => Err(e),
    }
}

/// The product of `x` with the transpose of a packed weight.
pub open spec fn t_quantized_matmul(
    x: Tn,
    w: Term,
    scales: Term,
    biases: Term,
    group_size: i32,
    bits: i32,
) -> Tn {
    match x {
        Ok(x) => fitted(raw_quantized_matmul(x, w, scales, biases, group_size, bits)),
        Err(e) => Err(e),
    }
}

/// The product of `x` with the transposes of the packed weights that `indices` picks.
pub open spec fn t_gather_qmm(
    x: Tn,
    w: Term,
    scales: Term,
    biases: Option<Term>,
    indices: Tn,
    group_size: i32,
    bits: i32,
) -> Tn {
    match (x, indices) {
        (Ok(x), Ok(i)) => fitted(raw_gather_qmm(x, w, scales, biases, i, group_size, bits)),
        (Err(e), _) => Err(e),
        (Ok(_), Err(e)) => Err(e),
    }
}

/// One part of the packed form of a weight.
pub open spec fn t_quantize(w: Term, part: usize, group_size: i32, bits: i32) -> Tn {
    fitted(raw_quantize(w, part, group_size, bits))
}

/// The numbers of a packed weight.
pub open spec fn t_dequantize(w: Tn, scales: Tn, biases: Tn, group_size: i32, bits: i32) -> Tn {
    match (w, scales, biases) {
        (Ok(w), Ok(s), Ok(b)) => fitted(raw_dequantize(w, s, b, group_size, bits)),
        (Err(e), _, _) => Err(e),
        (Ok(_), Err(e), _) => Err(e),
        (Ok(_), Ok(_), Err(e)) => Err(e),
    }
}

/// The convolution of `x` with a kernel along its second axis.
pub open spec fn t_conv1d(x: Tn, w: Term, groups: i32) -> Tn {
    match x {
        Ok(x) => fitted(raw_conv1d(x, w, groups)),
        Err(e) => Err(e),
    }
}

fn fits_packing(width: i32, packed: i32, groups: i32, group_size: i32, bits: i32) -> (r: bool)
    ensures
        r == packs(width, packed, groups, group_size, bits),
{
    proof {
        assert(-0x4000_0000_0000_0000 <= width * bits <= 0x4000_0000_0000_0000)
            by (nonlinear_arith)
            requires
                -0x8000_0000 <= width <= 0x7fff_ffff,
                -0x8000_0000 <= bits <= 0x7fff_ffff,
        ;
        assert(-0x4000_0000_0000_0000 <= groups * group_size <= 0x4000_0000_0000_0000)
            by (nonlinear_arith)
            requires
                -0x8000_0000 <= groups <= 0x7fff_ffff,
                -0x8000_0000 <= group_size <= 0x7fff_ffff,
        ;
    }
    width as i64 * bits as i64 == packed as i64 * 32 && groups as i64 * group_size as i64
        == width as i64
}

/// Multiplies the matrices on the last two axes.
pub fn matmul(a: &Array, b: &Array) -> (r: Result<Array, Exception>)
    ensures
        tn(r) == t_matmul(Ok(a@), Ok(b@)),
{
    proof {
        reveal(raw_matmul);
    }
    let ra: usize = a.ndim();
    let rb: usize = b.ndim();
    if ra < 2 || rb < 2 || a.shape()[ra - 1] != b.shape()[rb - 2] {
        return Err(Exception::Operands);
    }
    let fa = front(a.shape(), ra - 2);
    let fb = front(b.shape(), rb - 2);
    match broadcast_shapes(&fa, &fb) {
        Some(mut shape) => {
            shape.push(a.shape()[ra - 2]);
            shape.push(b.shape()[rb - 1]);
            Ok(Array::apply2(Kind::Matmul, a, b, shape, promote(a.dtype(), b.dtype())))
        },
        None => Err(Exception::Operands),
    }
}

/// Multiplies by the transpose of a packed weight.
pub fn quantized_matmul(
    x: &Array,
    w: &Array,
    scales: &Array,
    biases: &Array,
    group_size: i32,
    bits: i32,
) -> (r: Result<Array, Exception>)
    ensures
        tn(r) == t_quantized_matmul(Ok(x@), w@, scales@, biases@, group_size, bits),
{
    proof {
        reveal(raw_quantized_matmul);
    }
    let r: usize = x.ndim();
    if r < 1 || w.ndim() != 2 || scales.ndim() != 2 || !same_list(biases.shape(), scales.shape())
        || w.shape()[0] != scales.shape()[0] || !fits_packing(
        x.shape()[r - 1],
        w.shape()[1],
        scales.shape()[1],
        group_size,
        bits,
    ) {
        return Err(Exception::Operands);
    }
    let mut shape = x.dims();
    shape.set(r - 1, w.shape()[0]);
    let args = vec![x.share(), w.share(), scales.share(), biases.share()];
    let out = Array::with_attributes(
        Kind::QuantizedMatmul { group_size, bits },
        Vec::new(),
        Vec::new(),
        args,
        shape,
        promote(x.dtype(), scales.dtype()),
    );
    proof {
        assert(out@.args =~= seq![x@, w@, scales@, biases@]);
    }
    Ok(out)
}

/// Multiplies by the transposes of the packed weights that `indices` picks.
pub fn gather_qmm(
    x: &Array,
    w: &Array,
    scales: &Array,
    biases: Option<&Array>,
    indices: &Array,
    group_size: i32,
    bits: i32,
) -> (r: Result<Array, Exception>)
    ensures
        tn(r) == t_gather_qmm(
            Ok(x@),
            w@,
            scales@,
            crate::array::opt_ref_term(biases),
            Ok(indices@),
            group_size,
            bits,
        ),
{
    proof {
        reveal(raw_gather_qmm);
    }
    let r: usize = x.ndim();
    let biases_fit = match biases {
        Some(b) => same_list(b.shape(), scales.shape()),
        None => true,
    };
    if r < 2 || w.ndim() != 3 || scales.ndim() != 3 || !biases_fit || w.shape()[0]
        != scales.shape()[0] || w.shape()[1] != scales.shape()[1] || !fits_packing(
        x.shape()[r - 1],
        w.shape()[2],
        scales.shape()[2],
        group_size,
        bits,
    ) {
        return Err(Exception::Operands);
    }
    let fx = front(x.shape(), r - 2);
    match broadcast_shapes(&fx, indices.shape()) {
        Some(mut shape) => {
            shape.push(x.shape()[r - 2]);
            shape.push(w.shape()[1]);
            let (args, dtype) = match biases {
                Some(b) => (
                    vec![x.share(), w.share(), scales.share(), b.share(), indices.share()],
                    promote(x.dtype(), scales.dtype()),
                ),
                None => (vec![x.share(), w.share(), scales.share(), indices.share()], x.dtype()),
            };
            let out = Array::with_attributes(
                Kind::GatherQmm { group_size, bits, microscaling: biases.is_none() },
                Vec::new(),
                Vec::new(),
                args,
                shape,
                dtype,
            );
            proof {
                match biases {
                    Some(b) => {
                        assert(out@.args =~= seq![x@, w@, scales@, b@, indices@]);
                    },
                    None => {
                        assert(out@.args =~= seq![x@, w@, scales@, indices@]);
                    },
                }
            }
            Ok(out)
        },
        None => Err(Exception::Operands),
    }
}

/// Packs a weight: part 0 is the packed form, part 1 the scales, part 2 the biases.
pub fn quantize_part(w: &Array, part: usize, group_size: i32, bits: i32) -> (r: Result<
    Array,
    Exception,
>)
    ensures
        tn(r) == t_quantize(w@, part, group_size, bits),
{
    proof {
        reveal(raw_quantize);
    }
    let r: usize = w.ndim();
    if r < 2 || group_size <= 0 || bits <= 0 || bits > 8 {
        return Err(Exception::Operands);
    }
    let width: i32 = w.shape()[r - 1];
    if width < 0 {
        return Err(Exception::Operands);
    }
    proof {
        assert(0 <= width * bits <= 0x7fff_ffff * 8) by (nonlinear_arith)
            requires
                0 <= width <= 0x7fff_ffff,
                0 < bits <= 8,
        ;
    }
    let packed_bits: i64 = width as i64 * bits as i64;
    if width % group_size != 0 || packed_bits % 32 != 0 {
        return Err(Exception::Operands);
    }
    let mut shape = w.dims();
    let dtype;
    if part == 0 {
        shape.set(r - 1, (packed_bits / 32) as i32);
        dtype = Dtype::Uint32;
    } else {
        shape.set(r - 1, width / group_size);
        dtype = w.dtype();
    }
    Ok(Array::apply1(Kind::Quantize { part, group_size, bits }, w, shape, dtype))
}

/// Unpacks a weight.
pub fn dequantize(w: &Array, scales: &Array, biases: &Array, group_size: i32, bits: i32) -> (r:
    Result<Array, Exception>)
    ensures
        tn(r) == t_dequantize(Ok(w@), Ok(scales@), Ok(biases@), group_size, bits),
{
    proof {
        reveal(raw_dequantize);
    }
    let r: usize = w.ndim();
    if r < 1 || scales.ndim() != r || !same_list(biases.shape(), scales.shape()) {
        return Err(Exception::Operands);
    }
    let fw = front(w.shape(), r - 1);
    let fs = front(scales.shape(), r - 1);
    proof {
        assert(fw@ =~= w@.shape.drop_last());
        assert(fs@ =~= scales@.shape.drop_last());
    }
    let groups: i32 = scales.shape()[r - 1];
    let words: i32 = w.shape()[r - 1];
    proof {
        assert(-0x4000_0000_0000_0000 <= groups * group_size <= 0x4000_0000_0000_0000)
            by (nonlinear_arith)
            requires
                -0x8000_0000 <= groups <= 0x7fff_ffff,
                -0x8000_0000 <= group_size <= 0x7fff_ffff,
        ;
    }
    let width: i64 = groups as i64 * group_size as i64;
    if !same_list(&fw, &fs) || width < 0 || width > 0x7fff_ffff {
        return Err(Exception::Operands);
    }
    proof {
        assert(-0x4000_0000_0000_0000 <= width * bits <= 0x4000_0000_0000_0000)
            by (nonlinear_arith)
            requires
                0 <= width <= 0x7fff_ffff,
                -0x8000_0000 <= bits <= 0x7fff_ffff,
        ;
    }
    if width * bits as i64 != words as i64 * 32 {
        return Err(Exception::Operands);
    }
    let mut shape = w.dims();
    shape.set(r - 1, width as i32);
    Ok(
        Array::apply3(
            Kind::Dequantize { group_size, bits },
            w,
            scales,
            biases,
            shape,
            scales.dtype(),
        ),
    )
}

/// Convolves along the second axis.
pub fn conv1d(x: &Array, w: &Array, groups: i32) -> (r: Result<Array, Exception>)
    ensures
        tn(r) == t_conv1d(Ok(x@), w@, groups),
{
    proof {
        reveal(raw_conv1d);
    }
    if x.ndim() != 3 || w.ndim() != 3 || groups <= 0 {
        return Err(Exception::Operands);
    }
    let per_group: i32 = w.shape()[2];
    proof {
        assert(-0x4000_0000_0000_0000 <= per_group * groups <= 0x4000_0000_0000_0000)
            by (nonlinear_arith)
            requires
                -0x8000_0000 <= per_group <= 0x7fff_ffff,
                0 < groups <= 0x7fff_ffff,
        ;
    }
    if x.shape()[2] as i64 != per_group as i64 * groups as i64 || w.shape()[1] < 1 || x.shape()[1]
        < w.shape()[1] {
        return Err(Exception::Operands);
    }
    let length: i32 = x.shape()[1] - w.shape()[1] + 1;
    let shape: Vec<i32> = vec![x.shape()[0], length, w.shape()[0]];
    proof {
        assert(shape@ =~= seq![x@.shape[0], length, w@.shape[0]]);
    }
    Ok(Array::apply2(Kind::Conv1d { groups }, x, w, shape, promote(x.dtype(), w.dtype())))
}

} // verus!
