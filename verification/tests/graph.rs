//! Graphs computed on concrete numbers, by a small interpreter in single precision.

use std::collections::HashMap;
use std::rc::Rc;
use std::sync::Arc;

use mlx_lm::array::{Array, BinaryOp, Dtype, KernelCall, KernelParam, Kind, MaskMode, UnaryOp};
use mlx_lm::cache::{ConcatKeyValueCache, KeyValueCache};
use mlx_lm::fast::{
    layer_norm_device, rms_norm_device, rms_norm_no_weight_device, rope_device,
    rope_dynamic_device, scaled_dot_product_attention_device, MetalKernel,
    ScaledDotProductAttentionMask, TemplateArg,
};
use mlx_lm::error::Exception;
use mlx_lm::models::decoder::ModelInput;
use mlx_lm::models::gated_delta::{
    compute_g, gated_delta_kernel, gated_delta_ops, GATED_DELTA_SOURCE,
};
use mlx_lm::models::gemma3::{self, build_gemma_masks};
use mlx_lm::models::generate::LanguageModel;
use mlx_lm::models::hybrid::{Advance, ReadStep};
use mlx_lm::models::llama::{self, Mlp};
use mlx_lm::models::qwen3::{self, sample_rows, sample_with, SamplerOpts};
use mlx_lm::models::qwen3_5::{self, LayerCache};
use mlx_lm::models::qwen3_5_vision::{bilinear_indices_and_weights, vision_rope_cos_sin};
use mlx_lm::models::qwen3_moe::{blend, pick_experts, score_experts};
use mlx_lm::models::sampling::{apply_repeat_penalty, next_draw, sample};
use mlx_lm::models::{deepseek_v2, glm4, gpt_oss, qwen2};
use mlx_lm::nn::{AnyLinear, Linear, MaybeQuantized};
use mlx_lm::ops::create::{normal, ones_dtype, uniform, zeros_dtype};
use mlx_lm::scalar::{divide_single, Float, Scalar};
use mlx_lm::utils::mask::create_causal_mask;
use mlx_lm::utils::rope::{
    initialize_rope, FloatOrString, Llama3Rope, RopeVariant, ScalingConfig, YarnRope,
};

// ---------------------------------------------------------------------------------------------
// The interpreter

struct Val {
    shape: Vec<usize>,
    data: Vec<f32>,
}

fn float(x: f32) -> Float {
    Float { bits: x.to_bits() }
}

fn lit(x: f32) -> Scalar {
    Scalar::Lit(float(x))
}

fn number(s: &Scalar) -> f32 {
    match s {
        Scalar::Lit(f) => f32::from_bits(f.bits),
        Scalar::Int(i) => *i as f32,
        Scalar::Pi => std::f32::consts::PI,
        Scalar::Sum(a, b) => number(a) + number(b),
        Scalar::Difference(a, b) => number(a) - number(b),
        Scalar::Product(a, b) => number(a) * number(b),
        Scalar::Quotient(a, b) => number(a) / number(b),
        Scalar::Power(a, b) => number(a).powf(number(b)),
        Scalar::Negative(a) => -number(a),
        Scalar::SquareRoot(a) => number(a).sqrt(),
        Scalar::Cosine(a) => number(a).cos(),
        Scalar::Sine(a) => number(a).sin(),
        Scalar::Logarithm(a) => number(a).ln(),
        Scalar::Floor(a) => number(a).floor(),
        Scalar::Ceiling(a) => number(a).ceil(),
        Scalar::Larger(a, b) => number(a).max(number(b)),
        Scalar::Smaller(a, b) => number(a).min(number(b)),
    }
}

fn size(shape: &[usize]) -> usize {
    shape.iter().product()
}

fn dims(a: &Array) -> Vec<usize> {
    a.shape().iter().map(|d| *d as usize).collect()
}

/// The elements of `v` stretched to `shape`.
fn stretch(v: &Val, shape: &[usize]) -> Vec<f32> {
    if v.shape == shape {
        return v.data.clone();
    }
    let rank = shape.len();
    let pad = rank - v.shape.len();
    let mut strides = vec![0usize; rank];
    let mut step = 1;
    for i in (0..v.shape.len()).rev() {
        strides[i + pad] = if v.shape[i] == 1 { 0 } else { step };
        step *= v.shape[i];
    }
    if rank == 0 {
        return v.data.clone();
    }
    let last = shape[rank - 1];
    let outer = if last == 0 { 0 } else { size(shape) / last };
    let mut out = Vec::with_capacity(size(shape));
    for o in 0..outer {
        let mut rest = o;
        let mut base = 0;
        for i in (0..rank - 1).rev() {
            base += (rest % shape[i]) * strides[i];
            rest /= shape[i];
        }
        if strides[rank - 1] == 0 {
            let x = v.data[base];
            out.resize(out.len() + last, x);
        } else {
            out.extend_from_slice(&v.data[base..base + last]);
        }
    }
    out
}

/// The sizes before, on and behind an axis.
fn around(shape: &[usize], axis: usize) -> (usize, usize, usize) {
    (size(&shape[..axis]), shape[axis], size(&shape[axis + 1..]))
}

fn to_half(x: f32) -> f32 {
    if x.is_nan() || x.is_infinite() {
        return x;
    }
    let bits = x.to_bits();
    let low = bits & 0xffff;
    let mut high = bits >> 16;
    if low > 0x8000 || (low == 0x8000 && high & 1 == 1) {
        high += 1;
    }
    f32::from_bits(high << 16)
}

fn rounded(x: f32, dtype: Dtype) -> f32 {
    match dtype {
        Dtype::Bfloat16 => to_half(x),
        Dtype::Float32 | Dtype::Float16 => x,
        Dtype::Bool => if x != 0.0 { 1.0 } else { 0.0 },
        _ => x.trunc(),
    }
}

fn on_each(op: UnaryOp, x: f32) -> f32 {
    match op {
        UnaryOp::Exp => x.exp(),
        UnaryOp::Log => x.ln(),
        UnaryOp::Negative => -x,
        UnaryOp::Square => x * x,
        UnaryOp::Rsqrt => 1.0 / x.sqrt(),
        UnaryOp::Reciprocal => 1.0 / x,
        UnaryOp::Cos => x.cos(),
        UnaryOp::Sin => x.sin(),
        UnaryOp::Sigmoid => 1.0 / (1.0 + (-x).exp()),
        UnaryOp::Silu => x / (1.0 + (-x).exp()),
        UnaryOp::Softplus => if x > 20.0 { x } else { (1.0 + x.exp()).ln() },
        UnaryOp::Gelu | UnaryOp::GeluApproximate => {
            0.5 * x * (1.0 + (0.797_884_6 * (x + 0.044_715 * x * x * x)).tanh())
        }
    }
}

fn on_pair(op: BinaryOp, a: f32, b: f32) -> f32 {
    let truth = |t: bool| if t { 1.0 } else { 0.0 };
    match op {
        BinaryOp::Add => a + b,
        BinaryOp::Subtract => a - b,
        BinaryOp::Multiply => a * b,
        BinaryOp::Divide => a / b,
        BinaryOp::Power => a.powf(b),
        BinaryOp::Maximum => a.max(b),
        BinaryOp::Minimum => a.min(b),
        BinaryOp::Greater => truth(a > b),
        BinaryOp::GreaterEqual => truth(a >= b),
        BinaryOp::Less => truth(a < b),
        BinaryOp::LessEqual => truth(a <= b),
        BinaryOp::Equal => truth(a == b),
        BinaryOp::LogicalAnd => truth(a != 0.0 && b != 0.0),
    }
}

fn hash_pair(key: (u32, u32), count: (u32, u32)) -> (u32, u32) {
    let turns = [[13u32, 15, 26, 6], [17, 29, 16, 24]];
    let ks = [key.0, key.1, key.0 ^ key.1 ^ 0x1BD1_1BDA];
    let mut a = count.0.wrapping_add(ks[0]);
    let mut b = count.1.wrapping_add(ks[1]);
    for i in 0..5usize {
        for r in turns[i % 2] {
            a = a.wrapping_add(b);
            b = b.rotate_left(r);
            b ^= a;
        }
        a = a.wrapping_add(ks[(i + 1) % 3]);
        b = b.wrapping_add(ks[(i + 2) % 3]).wrapping_add(i as u32 + 1);
    }
    (a, b)
}

/// Random words from a key; the number of words is even.
fn random_words(key: (u32, u32), n: usize) -> Vec<u32> {
    let half = n / 2;
    let mut out = vec![0u32; n];
    for i in 0..half {
        let (a, b) = hash_pair(key, (i as u32, (half + i) as u32));
        out[i] = a;
        out[half + i] = b;
    }
    out
}

/// The first uniform noise behind a seed.
fn seeded_uniform(seed: u32, n: usize) -> Vec<f32> {
    let split = random_words((0, seed), 4);
    random_words((split[2], split[3]), n)
        .iter()
        .map(|w| (*w as f32 / u32::MAX as f32).min(0.999_999_94))
        .collect()
}

struct Run {
    // The arrays are kept, so that no node is taken for another at the same address.
    seen: HashMap<usize, (Array, Rc<Val>)>,
    draws: u32,
}

impl Run {
    fn new() -> Run {
        Run { seen: HashMap::new(), draws: 0 }
    }

    fn of(&mut self, a: &Array) -> Rc<Val> {
        let key = Arc::as_ptr(&a.node) as usize;
        if let Some((_, v)) = self.seen.get(&key) {
            return v.clone();
        }
        let args: Vec<Rc<Val>> = a.node.args.iter().map(|x| self.of(x)).collect();
        let shape = dims(a);
        let data = self.compute(a, &args, &shape);
        assert_eq!(data.len(), size(&shape));
        let v = Rc::new(Val { shape, data });
        self.seen.insert(key, (a.share(), v.clone()));
        v
    }

    fn compute(&mut self, a: &Array, args: &[Rc<Val>], shape: &[usize]) -> Vec<f32> {
        let node = &a.node;
        let n = size(shape);
        match node.kind {
            Kind::Zeros => vec![0.0; n],
            Kind::Ones => vec![1.0; n],
            Kind::Constant => node.scalars.iter().map(number).collect(),
            Kind::Integers => node.ints.iter().map(|i| *i as f32).collect(),
            // A fresh layer leaves open which draw its noise is.
            Kind::Uniform { .. } | Kind::Normal { .. } => {
                self.draws += 1;
                let top = number(&node.scalars[node.scalars.len() - 1]);
                (0..n)
                    .map(|i| {
                        let w = hash_pair((1, 2), (self.draws, i as u32)).0;
                        (2.0 * (w as f32 / u32::MAX as f32) - 1.0) * top
                    })
                    .collect()
            }
            Kind::Arange { start } => (0..n).map(|i| start as f32 + i as f32).collect(),
            Kind::Unary(op) => args[0].data.iter().map(|x| on_each(op, *x)).collect(),
            Kind::Binary(op) => {
                let x = stretch(&args[0], shape);
                let y = stretch(&args[1], shape);
                x.iter().zip(y.iter()).map(|(x, y)| on_pair(op, *x, *y)).collect()
            }
            Kind::Where => {
                let c = stretch(&args[0], shape);
                let x = stretch(&args[1], shape);
                let y = stretch(&args[2], shape);
                (0..n).map(|i| if c[i] != 0.0 { x[i] } else { y[i] }).collect()
            }
            Kind::Cast => args[0].data.iter().map(|x| rounded(*x, node.dtype)).collect(),
            Kind::Reshape | Kind::ExpandDims { .. } | Kind::Squeeze { .. } => {
                args[0].data.clone()
            }
            Kind::Transpose => {
                let from = &args[0];
                let rank = shape.len();
                let mut strides = vec![1usize; rank];
                for i in (0..rank.saturating_sub(1)).rev() {
                    strides[i] = strides[i + 1] * from.shape[i + 1];
                }
                (0..n)
                    .map(|place| {
                        let mut rest = place;
                        let mut at = 0;
                        for i in (0..rank).rev() {
                            at += (rest % shape[i]) * strides[node.ints[i] as usize];
                            rest /= shape[i];
                        }
                        from.data[at]
                    })
                    .collect()
            }
            Kind::BroadcastTo => stretch(&args[0], shape),
            Kind::Repeat { axis, times } => {
                let (o, m, i) = around(&args[0].shape, axis);
                let mut out = Vec::with_capacity(n);
                for x in 0..o {
                    for y in 0..m {
                        for _ in 0..times {
                            out.extend_from_slice(&args[0].data[(x * m + y) * i..(x * m + y + 1) * i]);
                        }
                    }
                }
                out
            }
            Kind::Slice { axis, start } => {
                let (o, m, i) = around(&args[0].shape, axis);
                let (first, len) = (start as usize, shape[axis]);
                let mut out = Vec::with_capacity(n);
                for x in 0..o {
                    let base = (x * m + first) * i;
                    out.extend_from_slice(&args[0].data[base..base + len * i]);
                }
                out
            }
            Kind::Select { axis, index } => {
                let (o, m, i) = around(&args[0].shape, axis);
                let mut out = Vec::with_capacity(n);
                for x in 0..o {
                    let base = (x * m + index as usize) * i;
                    out.extend_from_slice(&args[0].data[base..base + i]);
                }
                out
            }
            Kind::SliceUpdate { axis, start } => {
                let (o, m, i) = around(shape, axis);
                let mut region = shape.to_vec();
                region[axis] = args[1].shape[axis];
                let update = stretch(&args[1], &region);
                let len = region[axis] * i;
                let mut out = args[0].data.clone();
                for x in 0..o {
                    let base = (x * m + start as usize) * i;
                    out[base..base + len].copy_from_slice(&update[x * len..(x + 1) * len]);
                }
                out
            }
            Kind::Concatenate { axis } => {
                let (o, m, i) = around(&args[0].shape, axis);
                let k = args[1].shape[axis];
                let mut out = Vec::with_capacity(n);
                for x in 0..o {
                    out.extend_from_slice(&args[0].data[x * m * i..(x + 1) * m * i]);
                    out.extend_from_slice(&args[1].data[x * k * i..(x + 1) * k * i]);
                }
                out
            }
            Kind::Stack { axis } => {
                let (o, m, i) = around(shape, axis);
                let mut out = Vec::with_capacity(n);
                for x in 0..o {
                    for y in 0..m {
                        out.extend_from_slice(&args[y].data[x * i..(x + 1) * i]);
                    }
                }
                out
            }
            Kind::Take { axis } => {
                let (o, m, i) = around(&args[0].shape, axis);
                let mut out = Vec::with_capacity(n);
                for x in 0..o {
                    for id in &args[1].data {
                        let base = (x * m + *id as usize) * i;
                        out.extend_from_slice(&args[0].data[base..base + i]);
                    }
                }
                out
            }
            Kind::TakeAlong { axis } => {
                let mut wide = shape.to_vec();
                wide[axis] = args[0].shape[axis];
                let from = stretch(&args[0], &wide);
                let ids = stretch(&args[1], shape);
                let (_, m, i) = around(shape, axis);
                let full = wide[axis];
                (0..n)
                    .map(|p| {
                        let (x, z) = (p / (m * i), p % i);
                        from[(x * full + ids[p] as usize) * i + z]
                    })
                    .collect()
            }
            Kind::PutAlong { axis } => {
                let mut wide = shape.to_vec();
                wide[axis] = args[1].shape[axis];
                let ids = stretch(&args[1], &wide);
                let values = stretch(&args[2], &wide);
                let (_, m, i) = around(&wide, axis);
                let full = shape[axis];
                let mut out = args[0].data.clone();
                for p in 0..ids.len() {
                    let (x, z) = (p / (m * i), p % i);
                    out[(x * full + ids[p] as usize) * i + z] = values[p];
                }
                out
            }
            Kind::Sum { axis, .. } => fold(&args[0], axis, |row| row.iter().sum()),
            Kind::Mean { axis, .. } => {
                fold(&args[0], axis, |row| row.iter().sum::<f32>() / row.len() as f32)
            }
            Kind::ArgMax { axis } => fold(&args[0], axis, |row| {
                let mut best = 0;
                for (i, x) in row.iter().enumerate() {
                    if *x > row[best] {
                        best = i;
                    }
                }
                best as f32
            }),
            Kind::Softmax { axis, .. } => along(&args[0], axis, softmax),
            Kind::CumulativeSum { axis } => along(&args[0], axis, |row| {
                let mut sum = 0.0;
                row.iter()
                    .map(|x| {
                        sum += *x;
                        sum
                    })
                    .collect()
            }),
            Kind::Sort { axis } => along(&args[0], axis, |row| {
                let mut v = row.to_vec();
                v.sort_by(|a, b| a.partial_cmp(b).unwrap());
                v
            }),
            Kind::ArgSort { axis } | Kind::ArgPartition { axis, .. } => {
                along(&args[0], axis, |row| {
                    let mut v: Vec<usize> = (0..row.len()).collect();
                    v.sort_by(|a, b| row[*a].partial_cmp(&row[*b]).unwrap());
                    v.iter().map(|i| *i as f32).collect()
                })
            }
            Kind::Matmul => {
                let rank = shape.len();
                let (rows, cols) = (shape[rank - 2], shape[rank - 1]);
                let inner = args[0].shape[args[0].shape.len() - 1];
                let batch = &shape[..rank - 2];
                let mut sx = batch.to_vec();
                sx.extend_from_slice(&[rows, inner]);
                let mut sy = batch.to_vec();
                sy.extend_from_slice(&[inner, cols]);
                let x = stretch(&args[0], &sx);
                let y = stretch(&args[1], &sy);
                let mut out = vec![0.0f32; n];
                for b in 0..size(batch) {
                    for r in 0..rows {
                        for k in 0..inner {
                            let f = x[(b * rows + r) * inner + k];
                            for c in 0..cols {
                                out[(b * rows + r) * cols + c] += f * y[(b * inner + k) * cols + c];
                            }
                        }
                    }
                }
                out
            }
            Kind::Conv1d { groups } => conv(&args[0], &args[1], groups as usize, shape),
            Kind::Rope { dims, traditional, offset } => {
                let wavelengths = waves(&node.scalars, args.get(1), dims as usize);
                let b = args[0].shape[0];
                let offsets = vec![offset as f32; b];
                turn(&args[0], dims as usize, traditional, number(&node.scalars[0]), &offsets, &wavelengths)
            }
            Kind::RopeDynamic { dims, traditional } => {
                let wavelengths = waves(&node.scalars, args.get(2), dims as usize);
                let b = args[0].shape[0];
                let offsets = if args[1].data.len() == 1 {
                    vec![args[1].data[0]; b]
                } else {
                    args[1].data.clone()
                };
                turn(&args[0], dims as usize, traditional, number(&node.scalars[0]), &offsets, &wavelengths)
            }
            Kind::Attention { mask, sinks } => {
                let truth = mask == MaskMode::Given && node.args[3].dtype() == Dtype::Bool;
                attention(args, number(&node.scalars[0]), mask, truth, sinks, shape)
            }
            Kind::RmsNorm => {
                let eps = number(&node.scalars[0]);
                let w = args.get(1).cloned();
                along(&args[0], shape.len() - 1, |row| {
                    let mean = row.iter().map(|x| x * x).sum::<f32>() / row.len() as f32;
                    let f = 1.0 / (mean + eps).sqrt();
                    (0..row.len())
                        .map(|i| {
                            row[i] * f * match &w {
                                Some(w) => w.data[i],
                                None => 1.0,
                            }
                        })
                        .collect()
                })
            }
            Kind::LayerNorm { weighted, biased } => {
                let eps = number(&node.scalars[0]);
                along(&args[0], shape.len() - 1, |row| {
                    let n = row.len() as f32;
                    let mean = row.iter().sum::<f32>() / n;
                    let var = row.iter().map(|x| (x - mean) * (x - mean)).sum::<f32>() / n;
                    (0..row.len())
                        .map(|i| {
                            let y = (row[i] - mean) / (var + eps).sqrt();
                            let y = if weighted { y * args[1].data[i] } else { y };
                            if biased { y + args[args.len() - 1].data[i] } else { y }
                        })
                        .collect()
                })
            }
            Kind::KernelOutput { output } => {
                let call = node.kernel.as_ref().unwrap();
                launch(call, args, output)
            }
            Kind::Categorical { draw } => {
                let (o, m, _) = around(&args[0].shape, args[0].shape.len() - 1);
                (0..o)
                    .map(|r| {
                        let word = hash_pair((0, 7), (draw as u32, r as u32)).0;
                        let mut left = word as f32 / u32::MAX as f32;
                        let p = softmax(&args[0].data[r * m..(r + 1) * m]);
                        let mut pick = 0;
                        for (i, x) in p.iter().enumerate() {
                            if *x > 0.0 {
                                pick = i;
                                left -= *x;
                                if left <= 0.0 {
                                    break;
                                }
                            }
                        }
                        pick as f32
                    })
                    .collect()
            }
            _ => panic!("not computed here: {:?}", node.kind),
        }
    }
}

fn softmax(row: &[f32]) -> Vec<f32> {
    let top = row.iter().cloned().fold(f32::NEG_INFINITY, f32::max);
    let e: Vec<f32> = row.iter().map(|x| (x - top).exp()).collect();
    let sum: f32 = e.iter().sum();
    e.iter().map(|x| x / sum).collect()
}

fn fold(v: &Val, axis: usize, f: impl Fn(&[f32]) -> f32) -> Vec<f32> {
    let (o, m, i) = around(&v.shape, axis);
    let mut out = Vec::with_capacity(o * i);
    let mut row = vec![0.0; m];
    for x in 0..o {
        for z in 0..i {
            for y in 0..m {
                row[y] = v.data[(x * m + y) * i + z];
            }
            out.push(f(&row));
        }
    }
    out
}

fn along(v: &Val, axis: usize, f: impl Fn(&[f32]) -> Vec<f32>) -> Vec<f32> {
    let (o, m, i) = around(&v.shape, axis);
    let mut out = vec![0.0; v.data.len()];
    let mut row = vec![0.0; m];
    for x in 0..o {
        for z in 0..i {
            for y in 0..m {
                row[y] = v.data[(x * m + y) * i + z];
            }
            let r = f(&row);
            for y in 0..m {
                out[(x * m + y) * i + z] = r[y];
            }
        }
    }
    out
}

fn conv(x: &Val, w: &Val, groups: usize, shape: &[usize]) -> Vec<f32> {
    let (len, channels) = (x.shape[1], x.shape[2]);
    let (kernel, per_group) = (w.shape[1], w.shape[2]);
    let outs = shape[2] / groups;
    let mut out = Vec::with_capacity(size(shape));
    for b in 0..shape[0] {
        for l in 0..shape[1] {
            for o in 0..shape[2] {
                let g = o / outs;
                let mut sum = 0.0;
                for k in 0..kernel {
                    for c in 0..per_group {
                        sum += x.data[(b * len + l + k) * channels + g * per_group + c]
                            * w.data[(o * kernel + k) * per_group + c];
                    }
                }
                out.push(sum);
            }
        }
    }
    out
}

fn waves(scalars: &[Scalar], given: Option<&Rc<Val>>, dims: usize) -> Vec<f32> {
    match given {
        Some(v) => v.data.clone(),
        None => {
            let base = number(&scalars[1]);
            (0..dims / 2).map(|i| base.powf(2.0 * i as f32 / dims as f32)).collect()
        }
    }
}

fn turn(
    x: &Val,
    dims: usize,
    traditional: bool,
    scale: f32,
    offsets: &[f32],
    wavelengths: &[f32],
) -> Vec<f32> {
    let rank = x.shape.len();
    let (len, width) = (x.shape[rank - 2], x.shape[rank - 1]);
    let half = dims / 2;
    let rows = x.data.len() / width;
    let per_batch = rows / x.shape[0];
    let mut out = x.data.clone();
    for r in 0..rows {
        let position = (offsets[r / per_batch] + (r % len) as f32) * scale;
        for i in 0..half {
            let (a, b) = if traditional { (2 * i, 2 * i + 1) } else { (i, i + half) };
            let angle = position / wavelengths[i];
            let (p, q) = (x.data[r * width + a], x.data[r * width + b]);
            out[r * width + a] = p * angle.cos() - q * angle.sin();
            out[r * width + b] = p * angle.sin() + q * angle.cos();
        }
    }
    out
}

fn attention(
    args: &[Rc<Val>],
    scale: f32,
    mask: MaskMode,
    truth: bool,
    sinks: bool,
    shape: &[usize],
) -> Vec<f32> {
    let (q, k, v) = (&args[0], &args[1], &args[2]);
    let (b, h, l) = (shape[0], shape[1], shape[2]);
    let (kv, n, d, dv) = (k.shape[1], k.shape[2], q.shape[3], v.shape[3]);
    let given = if mask == MaskMode::Given {
        stretch(&args[3], &[b, h, l, n])
    } else {
        Vec::new()
    };
    let mut out = Vec::with_capacity(size(shape));
    for x in 0..b {
        for y in 0..h {
            let g = y / (h / kv);
            for i in 0..l {
                let mut scores: Vec<f32> = (0..n)
                    .map(|j| {
                        let mut s = 0.0;
                        for e in 0..d {
                            s += q.data[((x * h + y) * l + i) * d + e]
                                * k.data[((x * kv + g) * n + j) * d + e];
                        }
                        match mask {
                            MaskMode::Unmasked => s * scale,
                            MaskMode::Causal => {
                                if j <= i + n - l { s * scale } else { f32::NEG_INFINITY }
                            }
                            MaskMode::Given => {
                                let m = given[((x * h + y) * l + i) * n + j];
                                if !truth {
                                    s * scale + m
                                } else if m != 0.0 {
                                    s * scale
                                } else {
                                    f32::NEG_INFINITY
                                }
                            }
                        }
                    })
                    .collect();
                if sinks {
                    scores.push(args[args.len() - 1].data[y]);
                }
                let p = softmax(&scores);
                for e in 0..dv {
                    let mut s = 0.0;
                    for j in 0..n {
                        s += p[j] * v.data[((x * kv + g) * n + j) * dv + e];
                    }
                    out.push(s);
                }
            }
        }
    }
    out
}

fn parameter(call: &KernelCall, name: &str) -> i32 {
    for p in &call.template {
        if let KernelParam::Int(n, i) = p {
            if n == name {
                return *i;
            }
        }
    }
    panic!("no parameter {name}");
}

fn operand<'a>(call: &KernelCall, args: &'a [Rc<Val>], name: &str) -> &'a Val {
    let i = call.input_names.iter().position(|n| n == name).unwrap();
    &args[i]
}

/// What the kernels of these tests compute, thread by thread.
fn launch(call: &KernelCall, args: &[Rc<Val>], output: usize) -> Vec<f32> {
    let n: i32 = call.output_shapes[output].iter().product();
    let mut out = vec![0.0f32; n as usize];
    if call.name == "add_const" {
        let inp = operand(call, args, "inp");
        for i in 0..call.grid.0 as usize {
            out[i] = inp.data[i] + parameter(call, "ADD") as f32;
        }
        return out;
    }
    assert_eq!(call.name, "gated_delta_step");
    let dk = parameter(call, "Dk") as usize;
    let dv = parameter(call, "Dv") as usize;
    let hk = parameter(call, "Hk") as usize;
    let hv = parameter(call, "Hv") as usize;
    let (q, k, v) = (operand(call, args, "q"), operand(call, args, "k"), operand(call, args, "v"));
    let (g, beta) = (operand(call, args, "g"), operand(call, args, "beta"));
    let state_in = operand(call, args, "state_in");
    let t = operand(call, args, "T").data[0] as usize;
    let dtype = call.output_dtypes[output];
    for n in 0..call.grid.2 as usize {
        let (b, h) = (n / hv, n % hv);
        let hh = h / (hv / hk);
        for e in 0..call.grid.1 as usize {
            let base = (n * dv + e) * dk;
            let mut state = state_in.data[base..base + dk].to_vec();
            for p in 0..t {
                let row = ((b * t + p) * hk + hh) * dk;
                let (qr, kr) = (&q.data[row..row + dk], &k.data[row..row + dk]);
                let (gv, bv) = (g.data[(b * t + p) * hv + h], beta.data[(b * t + p) * hv + h]);
                let mut memory = 0.0;
                for (s, x) in state.iter_mut().zip(kr) {
                    *s *= gv;
                    memory += *s * x;
                }
                let place = ((b * t + p) * hv + h) * dv + e;
                let delta = (v.data[place] - memory) * bv;
                let mut y = 0.0;
                for (s, (x, z)) in state.iter_mut().zip(kr.iter().zip(qr)) {
                    *s += x * delta;
                    y += *s * z;
                }
                if output == 0 {
                    out[place] = rounded(y, dtype);
                }
            }
            if output == 1 {
                out[base..base + dk].copy_from_slice(&state);
            }
        }
    }
    out
}

fn slice(a: &Array) -> Vec<f32> {
    Run::new().of(a).data.clone()
}

fn array(values: &[f32], shape: &[i32]) -> Array {
    Array::constants(values.iter().map(|x| lit(*x)).collect(), shape.to_vec()).unwrap()
}

fn ints(values: &[i32], shape: &[i32]) -> Array {
    Array::integers(values.to_vec(), shape.to_vec(), Dtype::Int32).unwrap()
}

fn same(a: &Array, shape: &[i32], want: &[f32]) {
    assert_eq!(a.shape(), shape);
    let got = slice(a);
    assert_eq!(got.len(), want.len());
    for (i, (x, y)) in got.iter().zip(want).enumerate() {
        assert!((x - y).abs() < 1e-5, "[{i}]: {x} != {y}");
    }
}

// ---------------------------------------------------------------------------------------------
// The delta rule

#[test]
fn gated_delta_matches_python() {
    let q = array(
        &[
            -0.144135, 0.895078, -0.460381, 0.105034, -0.746088, 0.896811, 0.387942, 0.117507,
            1.065939, 0.226569, -2.548788, 1.970043,
        ],
        &[1, 3, 1, 4],
    );
    let k = array(
        &[
            0.367433, -0.794102, -1.320080, 1.225790, 0.240634, 1.170095, -1.265586, 1.147047,
            -1.338933, 0.090507, -0.597340, -0.054466,
        ],
        &[1, 3, 1, 4],
    );
    let v = array(
        &[
            1.385772, 1.859017, -0.075232, 1.567493, 1.493831, -1.831416, -0.911714, -0.028620,
            -1.014434, -0.113476, 1.469374, -1.892237, 0.160349, -0.207623, -0.691551, 1.089128,
            0.202670, 0.253628, 0.392743, -0.495397, 0.468208, 1.596903, -0.751850, -0.298933,
        ],
        &[1, 3, 2, 4],
    );
    let g = array(&[0.948556, 0.940333, 0.519957, 0.685390, 0.626268, 0.939238], &[1, 3, 2]);
    let beta = array(&[0.561233, 0.449834, 0.808653, 0.165720, 0.884957, 0.066074], &[1, 3, 2]);
    let expected_y = [
        -0.021197, -0.028435, 0.001151, -0.023976, -0.018314, 0.022453, 0.011177, 0.000351,
        -1.344603, -1.285684, 0.660427, -1.830268, -0.697785, 0.854534, 0.375337, 0.106336,
        -4.314802, -1.995941, 4.537259, -7.150444, 1.778998, -2.190130, -1.641091, 0.986917,
    ];

    let (y, _state) = gated_delta_ops(&q, &k, &v, &g, &beta, None).unwrap();
    let y = y.reshape(&vec![-1]).unwrap();
    let got = slice(&y);
    assert_eq!(got.len(), expected_y.len());
    for (i, (a, b)) in got.iter().zip(expected_y.iter()).enumerate() {
        assert!((a - b).abs() < 1e-3, "y[{i}] = {a} != {b} (python ref)");
    }
}

#[test]
fn gated_delta_kernel_matches_ops() {
    let (b, t, hk, hv, dk, dv) = (1, 4, 16, 48, 128, 128);
    let gen = |n: usize, scale: f32, off: f32| -> Vec<f32> {
        (0..n).map(|i| ((i as f32) * 0.137 + off).sin() * scale).collect()
    };
    let q = array(&gen((t * hk * dk) as usize, 0.5, 0.0), &[b, t, hk, dk]);
    let k = array(&gen((t * hk * dk) as usize, 0.5, 1.0), &[b, t, hk, dk]);
    let v = array(&gen((t * hv * dv) as usize, 1.0, 2.0), &[b, t, hv, dv]);
    let gpos = |n: usize, off: f32| -> Vec<f32> {
        (0..n).map(|i| 0.5 + 0.49 * ((i as f32) * 0.7 + off).sin()).collect()
    };
    let g = array(&gpos((t * hv) as usize, 0.0), &[b, t, hv]);
    let beta = array(&gpos((t * hv) as usize, 3.0), &[b, t, hv]);

    let bf = Dtype::Bfloat16;
    let q = q.as_dtype(bf).unwrap();
    let k = k.as_dtype(bf).unwrap();
    let v = v.as_dtype(bf).unwrap();
    let beta = beta.as_dtype(bf).unwrap();

    let (y_ops, st_ops) = gated_delta_ops(&q, &k, &v, &g, &beta, None).unwrap();
    let (y_ker, st_ker) = gated_delta_kernel(&q, &k, &v, &g, &beta, None).unwrap();
    let mut run = Run::new();
    {
        let so = run.of(&st_ops.reshape(&vec![-1]).unwrap());
        let sk = run.of(&st_ker.reshape(&vec![-1]).unwrap());
        let (a, bb) = (&so.data, &sk.data);
        assert_eq!(a.len(), bb.len(), "state length mismatch");
        for (i, (x, y)) in a.iter().zip(bb.iter()).enumerate() {
            assert!(
                (x - y).abs() < 5e-2,
                "kernel/ops STATE mismatch at {i}: ops={x} kernel={y}"
            );
        }
    }
    let f32 = Dtype::Float32;
    let yo = y_ops.reshape(&vec![-1]).unwrap().as_dtype(f32).unwrap();
    let yk = y_ker.reshape(&vec![-1]).unwrap().as_dtype(f32).unwrap();
    let (a, bb) = (run.of(&yo), run.of(&yk));
    assert_eq!(a.data.len(), bb.data.len());
    for (i, (x, y)) in a.data.iter().zip(bb.data.iter()).enumerate() {
        assert!((x - y).abs() < 5e-2, "kernel/ops mismatch at {i}: ops={x} kernel={y}");
    }
}

#[test]
fn the_launch_carries_the_source_of_the_kernel() {
    let q = zeros_dtype(&vec![1, 2, 1, 32], Dtype::Float32).unwrap();
    let g = zeros_dtype(&vec![1, 2, 1], Dtype::Float32).unwrap();
    let state = zeros_dtype(&vec![1, 1, 32, 32], Dtype::Float32).unwrap();
    let (y, s) = gated_delta_kernel(&q, &q, &q, &g, &g, Some(state)).unwrap();
    for (out, at) in [(y, 0), (s, 1)] {
        assert_eq!(out.node.kind, Kind::KernelOutput { output: at });
        let call = out.node.kernel.as_ref().unwrap();
        assert_eq!(call.source, GATED_DELTA_SOURCE);
        for line in [
            "auto hk_idx = hv_idx / (Hv / Hk);",
            "state[i] = state[i] * static_cast<float>(g_[hv_idx]);",
            "auto delta = (static_cast<float>(v_[dv_idx]) - kv_mem) * static_cast<float>(beta_[hv_idx]);",
            "state[i] = state[i] + static_cast<float>(k_[s_idx]) * delta;",
            "y[dv_idx] = static_cast<InT>(out);",
        ] {
            assert!(call.source.contains(line), "{line}");
        }
    }
}

#[test]
fn delta_rule_carries_its_state_over() {
    let q = array(&[0.5, -0.25, 1.0, 0.75, 0.1, 0.2, -0.3, 0.4], &[1, 4, 1, 2]);
    let v = array(&[1.0, -1.0, 0.5, 2.0, 0.25, 0.75, -0.5, 1.5], &[1, 4, 1, 2]);
    let g = array(&[0.9, 0.8, 0.7, 0.6], &[1, 4, 1]);
    let beta = array(&[0.5, 0.25, 0.75, 1.0], &[1, 4, 1]);
    let (whole, end) = gated_delta_ops(&q, &q, &v, &g, &beta, None).unwrap();
    let cut = |a: &Array, from: i32, to: i32| a.slice(1, from, to).unwrap();
    let (first, middle) = gated_delta_ops(
        &cut(&q, 0, 3),
        &cut(&q, 0, 3),
        &cut(&v, 0, 3),
        &cut(&g, 0, 3),
        &cut(&beta, 0, 3),
        None,
    )
    .unwrap();
    let (second, last) = gated_delta_ops(
        &cut(&q, 3, 4),
        &cut(&q, 3, 4),
        &cut(&v, 3, 4),
        &cut(&g, 3, 4),
        &cut(&beta, 3, 4),
        Some(middle),
    )
    .unwrap();
    let mut parts = slice(&first);
    parts.extend(slice(&second));
    assert_eq!(parts, slice(&whole));
    assert_eq!(slice(&last), slice(&end));
    assert_eq!(whole.shape(), &vec![1, 4, 1, 2]);
    assert_eq!(end.shape(), &vec![1, 1, 2, 2]);
}

#[test]
fn decay_has_its_closed_form() {
    let g = compute_g(
        &array(&[0.5, -1.0], &[2]),
        &array(&[0.25, 2.0], &[1, 1, 2]),
        &array(&[0.0, 1.0], &[2]),
    )
    .unwrap();
    let soft = |x: f32| (1.0 + x.exp()).ln();
    let want = [
        (-(0.5f32.exp()) * soft(0.25)).exp(),
        (-((-1.0f32).exp()) * soft(3.0)).exp(),
    ];
    same(&g, &[1, 1, 2], &want);
}

// ---------------------------------------------------------------------------------------------
// Masks

#[test]
fn sliding_window_mask_bands_local_attention() {
    let (g, l) = build_gemma_masks(0, 4, 2, Dtype::Float32).unwrap();
    let (gv, lv) = (slice(&g), slice(&l));
    let neg = f32::NEG_INFINITY;
    for i in 0..4i32 {
        for j in 0..4i32 {
            let idx = (i * 4 + j) as usize;
            let g_keep = j <= i; // causal
            let l_keep = g_keep && j > i - 2; // + within window 2
            assert_eq!(gv[idx], if g_keep { 0.0 } else { neg }, "global[{i}][{j}]");
            assert_eq!(lv[idx], if l_keep { 0.0 } else { neg }, "local[{i}][{j}]");
        }
    }

    // Decode step at offset 5, L=1, window 2: the single query (pos 5) keeps keys 4,5.
    let (_g2, l2) = build_gemma_masks(5, 1, 2, Dtype::Float32).unwrap();
    let lv2 = slice(&l2); // [1, 6]
    assert_eq!(lv2.len(), 6);
    for j in 0..6i32 {
        let keep = j <= 5 && j > 3; // keys 4,5
        assert_eq!(lv2[j as usize], if keep { 0.0 } else { neg }, "decode local[{j}]");
    }
}

#[test]
fn masks_agree_while_the_window_is_not_full() {
    let (g, l) = build_gemma_masks(1, 3, 4, Dtype::Bfloat16).unwrap();
    assert_eq!(slice(&g), slice(&l));
    assert_eq!(g.dtype(), Dtype::Bfloat16);
    assert_eq!(g.shape(), &vec![3, 4]);
}

#[test]
fn causal_mask_with_and_without_a_window() {
    let plain = create_causal_mask(3, Some(1), None).unwrap();
    assert_eq!(plain.shape(), &vec![3, 4]);
    assert_eq!(slice(&plain), [1., 1., 0., 0., 1., 1., 1., 0., 1., 1., 1., 1.]);
    let windowed = create_causal_mask(3, Some(1), Some(2)).unwrap();
    assert_eq!(slice(&windowed), [1., 1., 0., 0., 0., 1., 1., 0., 0., 0., 1., 1.]);
}

// ---------------------------------------------------------------------------------------------
// Sampling

#[test]
fn sample_with_collapses_to_argmax() {
    // A clear argmax at index 3.
    let logits = array(&[0.1f32, 0.5, -1.0, 4.0, 0.2, 1.0], &[1, 6]);
    let want = 3u32;

    // top_k = 1 -> only the max survives -> categorical must return it.
    for temp in [0.7f32, 1.0, 2.0] {
        let t = sample_with(
            &logits,
            &SamplerOpts {
                temp: float(temp),
                top_p: float(1.0),
                top_k: 1,
                repeat_penalty: float(1.0),
            },
            &[],
            5,
        )
        .unwrap();
        assert_eq!(slice(&t)[0] as u32, want, "top_k=1 temp={temp}");
    }

    // Tiny top_p -> nucleus is just the top token -> argmax.
    let t = sample_with(
        &logits,
        &SamplerOpts {
            temp: float(1.0),
            top_p: float(1e-4),
            top_k: 0,
            repeat_penalty: float(1.0),
        },
        &[],
        6,
    )
    .unwrap();
    assert_eq!(slice(&t)[0] as u32, want, "tiny top_p");

    // temp 0 stays argmax (greedy fast path).
    let t = sample_with(&logits, &SamplerOpts::with_temp(float(0.0)), &[], 7).unwrap();
    assert_eq!(slice(&t)[0] as u32, want, "greedy");

    // Repetition penalty: greedy argmax is index 3 (logit 4.0). Penalizing 3
    // hard (divide by 100) drops it below index 5 (logit 1.0) -> argmax moves.
    let t = sample_with(
        &logits,
        &SamplerOpts {
            temp: float(0.0),
            top_p: float(1.0),
            top_k: 0,
            repeat_penalty: float(100.0),
        },
        &[3],
        8,
    )
    .unwrap();
    assert_eq!(slice(&t)[0] as u32, 5, "repeat_penalty pushes argmax off 3");
}

#[test]
fn sample_rows_per_row_collapses_to_argmax() {
    // Three rows with DISTINCT dominant argmax: row0→2, row1→0, row2→5 (logit 9.0).
    let logits = array(
        &[
            0.1f32, 0.2, 9.0, 0.3, 0.4, 0.5, // row0 argmax = 2
            9.0, 0.1, 0.2, 0.3, 0.4, 0.5, // row1 argmax = 0
            0.1, 0.2, 0.3, 0.4, 0.5, 9.0, // row2 argmax = 5
        ],
        &[3, 6],
    );
    let want = [2u32, 0, 5];
    // Mixed per-row config that each collapses to argmax:
    //   row0: temp 0   (greedy override)
    //   row1: top_k 1  at temp 2 (only the max survives)
    //   row2: tiny top_p at temp 1 (nucleus = just the top token)
    let temp = array(&[0.0f32, 2.0, 1.0], &[3]);
    let top_k = ints(&[0i32, 1, 0], &[3]);
    let top_p = array(&[1.0f32, 1.0, 1e-4], &[3]);
    let t = sample_rows(&logits, &temp, &top_k, &top_p, 1).unwrap();
    let got = slice(&t);
    for r in 0..3 {
        assert_eq!(got[r] as u32, want[r], "row {r} must collapse to its own argmax");
    }

    // All-greedy batch (temp 0 everywhere) must equal per-row argmax exactly.
    let temp0 = array(&[0.0f32, 0.0, 0.0], &[3]);
    let tk0 = ints(&[0i32, 0, 0], &[3]);
    let tp1 = array(&[1.0f32, 1.0, 1.0], &[3]);
    let g = sample_rows(&logits, &temp0, &tk0, &tp1, 2).unwrap();
    let got = slice(&g);
    for r in 0..3 {
        assert_eq!(got[r] as u32, want[r], "greedy row {r}");
    }
}

#[test]
fn penalty_divides_positive_and_multiplies_negative_logits_once() {
    let logits = array(&[4.0, -2.0, 0.0, 1.0], &[1, 4]);
    let r = apply_repeat_penalty(&logits, &[0, 1, 2, 0], float(2.0)).unwrap();
    assert_eq!(slice(&r), [2.0, -4.0, 0.0, 1.0]);
}

#[test]
fn top_k_draws_only_from_the_largest() {
    let logits = array(&[1.0, 3.0, 2.0, 0.0, -1.0], &[1, 5]);
    let opts = SamplerOpts {
        temp: float(5.0),
        top_p: float(1.0),
        top_k: 2,
        repeat_penalty: float(1.0),
    };
    let mut run = Run::new();
    let mut seen = [false; 5];
    for draw in 0..40 {
        let t = sample_with(&logits, &opts, &[], draw).unwrap();
        seen[run.of(&t).data[0] as usize] = true;
    }
    assert_eq!(seen, [false, true, true, false, false]);
}

#[test]
fn draws_of_one_number_are_one_draw() {
    let logits = array(&[1.0, 1.5, 2.0, 0.0, 0.5], &[1, 5]);
    let mut run = Run::new();
    let mut token = |draw: u64| {
        let t = sample(&logits, float(3.0), draw).unwrap();
        run.of(&t).data[0]
    };
    let first: Vec<f32> = (0..30).map(&mut token).collect();
    let again: Vec<f32> = (0..30).map(&mut token).collect();
    assert_eq!(first, again);
    assert!(first.iter().any(|t| *t != first[0]));
}

#[test]
fn draw_numbers_go_round() {
    assert_eq!(next_draw(0), 1);
    assert_eq!(next_draw(u64::MAX), 0);
}

#[test]
fn biases_of_picked_experts() {
    let bias = array(&[0.0, 1.0, 10.0, 11.0, 20.0, 21.0], &[3, 2]);
    let picked = ints(&[2, 0, 1, 2], &[1, 2, 2]);
    let r = gpt_oss::take_expert_bias(&bias, &picked).unwrap();
    same(&r, &[1, 2, 2, 2], &[20.0, 21.0, 0.0, 1.0, 10.0, 11.0, 20.0, 21.0]);
}

// ---------------------------------------------------------------------------------------------
// Fused operations

#[test]
fn test_rope() {
    let a = array(&seeded_uniform(71, 256), &[2, 8, 16]);
    assert_eq!(a.shape(), &vec![2, 8, 16]);
    assert_eq!(a.dtype(), Dtype::Float32);

    let result = rope_device(&a, 8, false, Some(lit(10000.)), lit(1.0), 0, None).unwrap();
    assert_eq!(result.shape(), &vec![2, 8, 16]);
    assert_eq!(result.dtype(), Dtype::Float32);
    let sum: f32 = slice(&result).iter().sum();
    assert!((sum / 256.0 - 0.456_253_77).abs() <= 0.009_125_075);
    assert!((sum - 116.800_964).abs() <= 2.336_019_3);
}

#[test]
fn test_rope_dynamic() {
    let a = array(&seeded_uniform(71, 256), &[2, 8, 16]);
    assert_eq!(a.shape(), &vec![2, 8, 16]);
    assert_eq!(a.dtype(), Dtype::Float32);

    // Test with array offset - should produce similar results to int offset of 3
    let offset = Array::from_int(3);
    let result = rope_dynamic_device(&a, 8, false, Some(lit(10000.)), lit(1.0), &offset, None).unwrap();
    assert_eq!(result.shape(), &vec![2, 8, 16]);
    assert_eq!(result.dtype(), Dtype::Float32);

    // Compare with regular rope using int offset=3
    let result_int_offset = rope_device(&a, 8, false, Some(lit(10000.)), lit(1.0), 3, None).unwrap();
    assert_eq!(result_int_offset.shape(), &vec![2, 8, 16]);

    // The results should be close
    let diff = result.subtract(&result_int_offset).unwrap();
    let max_diff = slice(&diff).iter().fold(0.0f32, |m, x| m.max(x.abs()));
    assert!(max_diff < 1e-5, "Max difference was {}", max_diff);
}

#[test]
fn test_rms_norm() {
    let a = array(&seeded_uniform(103, 256), &[2, 8, 16]);
    assert_eq!(a.shape(), &vec![2, 8, 16]);
    assert_eq!(a.dtype(), Dtype::Float32);

    let weight = ones_dtype(&vec![16], Dtype::Float32).unwrap();
    let result = rms_norm_device(&a, &weight, lit(1e-5)).unwrap();
    assert_eq!(result.shape(), &vec![2, 8, 16]);
    assert_eq!(result.dtype(), Dtype::Float32);
    let sum: f32 = slice(&result).iter().sum();
    assert!((sum / 256.0 - 0.872_938_75).abs() <= 0.017_458_774);
    assert!((sum - 223.472_32).abs() <= 4.469_446);
}

#[test]
fn test_layer_norm_affine() {
    let a = array(&seeded_uniform(635, 256), &[2, 8, 16]);
    assert_eq!(a.shape(), &vec![2, 8, 16]);
    assert_eq!(a.dtype(), Dtype::Float32);

    let weight = ones_dtype(&vec![16], Dtype::Float32).unwrap();
    let bias = zeros_dtype(&vec![16], Dtype::Float32).unwrap();
    let result = layer_norm_device(&a, Some(&weight), Some(&bias), lit(1e-5)).unwrap();
    let result = result.select(-1, 0).unwrap();
    assert_eq!(result.shape(), &vec![2, 8]);
    assert_eq!(result.dtype(), Dtype::Float32);
    let sum: f32 = slice(&result).iter().sum();
    assert!((sum / 16.0 - 0.290_990_38).abs() <= 0.005_819_807_8);
    assert!((sum - 4.655_846).abs() <= 0.093_116_924);
}

#[test]
#[allow(non_snake_case)]
fn test_fast_sdpa() {
    // This test just makes sure that attention is callable in the various cases.
    let Dk = 64;
    let scale = 1.0 / (Dk as f32).sqrt();
    for seq_len in [63, 129, 400] {
        for dtype in [Dtype::Float32, Dtype::Float16] {
            let B = 2;
            let H = 24;
            let noise = || {
                normal(lit(1.0), vec![B, H, seq_len, Dk], 0).unwrap().as_dtype(dtype).unwrap()
            };
            let (q, k, v) = (noise(), noise(), noise());
            let result =
                scaled_dot_product_attention_device(&q, &k, &v, lit(scale), None, None).unwrap();
            assert_eq!(result.shape(), &vec![B, H, seq_len, Dk]);
            assert_eq!(result.dtype(), dtype);
        }
    }
}

#[test]
fn test_fast_sdpa_with_sinks() {
    let b = 2;
    let n_q = 8;
    let t_q = 128;
    let t_kv = 128;
    let d = 64;

    let q = normal(lit(1.0), vec![b, n_q, t_q, d], 0).unwrap();
    let k = normal(lit(1.0), vec![b, n_q, t_kv, d], 1).unwrap();
    let v = normal(lit(1.0), vec![b, n_q, t_kv, d], 1).unwrap();
    let scale = (d as f32).powf(-0.5);

    // Test with sinks parameter
    let sinks = normal(lit(10.0), vec![n_q], 2).unwrap();

    let result =
        scaled_dot_product_attention_device(&q, &k, &v, lit(scale), None, Some(&sinks)).unwrap();
    assert_eq!(result.shape(), &vec![b, n_q, t_q, d]);
}

#[test]
fn metal_kernel_elementwise_add() {
    let source = "
            uint i = thread_position_in_grid.x;
            out[i] = inp[i] + static_cast<float>(ADD);
        ";
    let kernel = MetalKernel::new("add_const", &vec!["inp"], &vec!["out"], source).unwrap();
    let inp = array(&[1.0f32, 2.0, 3.0, 4.0], &[4]);
    let outs = kernel
        .apply(
            &vec![inp],
            &vec![TemplateArg::Int("ADD", 10)],
            (4, 1, 1),
            (4, 1, 1),
            &vec![vec![4]],
            &vec![Dtype::Float32],
        )
        .unwrap();
    let out = &outs[0];
    assert_eq!(out.node.kernel.as_ref().unwrap().source, source);
    assert_eq!(slice(out), &[11.0, 12.0, 13.0, 14.0]);
}

#[test]
fn attention_masks_and_sinks_weigh_in() {
    let q = array(&[1.0, 0.0, 0.0, 1.0], &[1, 1, 2, 2]);
    let v = array(&[1.0, 2.0, 3.0, 4.0], &[1, 1, 2, 2]);
    let causal = scaled_dot_product_attention_device(
        &q,
        &q,
        &v,
        lit(1.0),
        Some(ScaledDotProductAttentionMask::Causal),
        None,
    )
    .unwrap();
    let got = slice(&causal);
    assert_eq!(&got[..2], &[1.0, 2.0]);
    let e = 1.0f32.exp();
    same(&causal, &[1, 1, 2, 2], &[
        1.0,
        2.0,
        (1.0 + 3.0 * e) / (1.0 + e),
        (2.0 + 4.0 * e) / (1.0 + e),
    ]);
    let sinks = array(&[0.0], &[1]);
    let sunk = scaled_dot_product_attention_device(
        &q,
        &q,
        &v,
        lit(0.0),
        None,
        Some(&sinks),
    )
    .unwrap();
    same(&sunk, &[1, 1, 2, 2], &[4.0 / 3.0, 2.0, 4.0 / 3.0, 2.0]);
}

#[test]
fn norm_without_weight_has_unit_mean_square() {
    let r = rms_norm_no_weight_device(&array(&[3.0, 4.0], &[1, 2]), lit(0.0)).unwrap();
    let f = 1.0 / 12.5f32.sqrt();
    same(&r, &[1, 2], &[3.0 * f, 4.0 * f]);
}

#[test]
fn rows_of_a_batch_turn_from_their_own_offsets() {
    let x = array(&seeded_uniform(5, 48), &[2, 1, 3, 8]);
    let offsets = ints(&[2, -1], &[2]);
    let both =
        rope_dynamic_device(&x, 8, false, Some(lit(100.)), lit(1.0), &offsets, None).unwrap();
    let row = |i: i32, offset: i32| {
        let part = x.slice(0, i, i + 1).unwrap();
        slice(&rope_device(&part, 8, false, Some(lit(100.)), lit(1.0), offset, None).unwrap())
    };
    let mut want = row(0, 2);
    want.extend(row(1, -1));
    assert_eq!(slice(&both), want);
}

#[test]
fn stretched_wavelengths() {
    let rope = Llama3Rope::new(8, false, 100, lit(10000.0), lit(4.0), lit(1.0), lit(4.0)).unwrap();
    let got = slice(&rope.freqs);
    let pi2 = 2.0 * std::f32::consts::PI;
    let want: Vec<f32> = [1.0f32, 10.0, 100.0, 1000.0]
        .iter()
        .map(|f| {
            let wave = f * pi2;
            if wave > 100.0 {
                f * 4.0
            } else if wave > 25.0 {
                let smooth = (100.0 / wave - 1.0) / 3.0;
                f / ((1.0 - smooth) / 4.0 + smooth)
            } else {
                *f
            }
        })
        .collect();
    assert_eq!(got.len(), 4);
    for (a, b) in got.iter().zip(&want) {
        assert!((a - b).abs() < 1e-2, "{got:?} {want:?}");
    }
}

/// What a configuration with interpolated wavelengths gives, in double precision.
fn interpolated(dims: usize, base: f64, factor: f64, context: f64, fast: f64, slow: f64) -> Vec<f64> {
    let dim = |turns: f64| {
        dims as f64 * (context / (turns * 2.0 * std::f64::consts::PI)).ln() / (2.0 * base.ln())
    };
    let low = dim(fast).floor().max(0.0);
    let high = dim(slow).ceil().min(dims as f64 - 1.0);
    let width = if low == high { 0.001 } else { high - low };
    (0..dims / 2)
        .map(|i| {
            let extra = base.powf(2.0 * i as f64 / dims as f64);
            let inter = factor * extra;
            let mask = 1.0 - ((i as f64 - low) / width).clamp(0.0, 1.0);
            inter * extra / (inter * mask + extra * (1.0 - mask))
        })
        .collect()
}

fn yarn(entries: Vec<(&str, f32)>, dims: i32, base: f32) -> YarnRope {
    let mut config: ScalingConfig = entries
        .into_iter()
        .map(|(k, x)| (String::from(k), FloatOrString::Float(float(x))))
        .collect();
    let sort = FloatOrString::String(String::from("yarn"), None);
    config.push((String::from("rope_type"), sort));
    match initialize_rope(dims, lit(base), false, &Some(config), 0) {
        Ok(RopeVariant::Yarn(r)) => r,
        _ => panic!("an embedding with interpolated wavelengths"),
    }
}

#[test]
fn interpolated_wavelengths() {
    let entries = vec![
        ("factor", 32.0),
        ("original_max_position_embeddings", 4096.0),
        ("beta_fast", 32.0),
        ("beta_slow", 1.0),
    ];
    let rope = yarn(entries, 64, 150000.0);
    let want = interpolated(64, 150000.0, 32.0, 4096.0, 32.0, 1.0);
    assert_eq!((rope.dimensions, rope.traditional), (64, false));
    assert_eq!(rope.freqs.shape(), &vec![32]);
    let got = slice(&rope.freqs);
    for (a, b) in got.iter().zip(&want) {
        assert!((*a as f64 / b - 1.0).abs() < 1e-4, "{got:?} {want:?}");
    }
    // The fast end stays, the slow end is stretched by the factor.
    assert_eq!(got[0], 1.0);
    let last = 150000.0f64.powf(62.0 / 64.0);
    assert!((got[31] as f64 / (32.0 * last) - 1.0).abs() < 1e-4);
    assert!((number(&rope.mscale) - (0.1 * 32.0f32.ln() + 1.0)).abs() < 1e-6);
    // What is not set: 4096 positions, a ramp from 32 turns to one.
    let rope = yarn(vec![("factor", 32.0)], 64, 150000.0);
    assert_eq!(slice(&rope.freqs), got);
    // A ramp of no width, and a factor that stretches nothing.
    let rope = yarn(vec![("factor", 1.0), ("beta_fast", 1e9), ("beta_slow", 1e9)], 8, 100.0);
    assert_eq!(number(&rope.mscale), 1.0);
    for (a, b) in slice(&rope.freqs).iter().zip([1.0, 3.162_277_7, 10.0, 31.622_776]) {
        assert!((a / b - 1.0).abs() < 1e-5);
    }
    let rope = yarn(vec![("factor", 4.0), ("mscale", 0.5), ("mscale_all_dim", 0.5)], 8, 100.0);
    assert_eq!(number(&rope.mscale), 1.0);
}

#[test]
fn features_are_scaled_before_they_turn() {
    let rope = yarn(vec![("factor", 32.0)], 8, 100.0);
    let m = number(&rope.mscale);
    let x = array(&seeded_uniform(7, 72), &[2, 1, 3, 12]);
    let plain =
        rope_device(&x, 8, false, None, lit(1.0), 5, Some(&rope.freqs)).unwrap();
    let (got, plain) = (slice(&rope.forward(&x, 5).unwrap()), slice(&plain));
    for (i, (a, b)) in got.iter().zip(&plain).enumerate() {
        let want = if i % 12 < 8 { m * b } else { *b };
        assert!((a - want).abs() < 1e-5, "[{i}]: {a} != {want}");
    }
    let variant = RopeVariant::Yarn(rope);
    let rows = slice(&variant.forward_dynamic(&x, &ints(&[5, 5], &[2])).unwrap());
    assert_eq!(rows, got);
}

// ---------------------------------------------------------------------------------------------
// Caches

fn positions(from: i32, n: i32) -> Array {
    let values: Vec<f32> = (0..n * 2).map(|i| (from * 2 + i) as f32).collect();
    array(&values, &[1, 1, n, 2])
}

fn run_of(from: i32, n: i32) -> Vec<f32> {
    (0..n * 2).map(|i| (from * 2 + i) as f32).collect()
}

#[test]
fn cache_hands_back_every_position() {
    let mut cache = ConcatKeyValueCache::new();
    let mut held = 0;
    for n in [3, 1, 300, 1] {
        let (k, v) =
            cache.update_and_fetch(positions(held, n), positions(1000 + held, n)).unwrap();
        assert_eq!(k.shape(), &vec![1, 1, held + n, 2]);
        assert_eq!(slice(&k), run_of(0, held + n));
        assert_eq!(slice(&v), run_of(1000, held + n));
        held += n;
        assert_eq!(cache.offset(), held);
    }
}

#[test]
fn truncated_cache_continues_from_its_prefix() {
    let mut cache = ConcatKeyValueCache::new();
    cache.update_and_fetch(positions(0, 5), positions(0, 5)).unwrap();
    cache.truncate(2);
    assert_eq!(cache.offset(), 2);
    let (k, _) = cache.update_and_fetch(positions(70, 2), positions(70, 2)).unwrap();
    let mut want = run_of(0, 2);
    want.extend(run_of(70, 2));
    assert_eq!(slice(&k), want);
    cache.truncate(99);
    assert_eq!(cache.offset(), 4);
}

#[test]
fn truncated_cache_is_a_fresh_one_with_the_prefix() {
    let mut cut = ConcatKeyValueCache::new();
    for n in [3, 260, 2] {
        let from = cut.offset();
        cut.update_and_fetch(positions(from, n), positions(from, n)).unwrap();
    }
    cut.truncate(4);
    let mut fresh = ConcatKeyValueCache::new();
    fresh.update_and_fetch(positions(0, 4), positions(0, 4)).unwrap();
    for n in [1, 300] {
        let (k, v) = cut.update_and_fetch(positions(500, n), positions(600, n)).unwrap();
        let (x, y) = fresh.update_and_fetch(positions(500, n), positions(600, n)).unwrap();
        assert_eq!(slice(&k), slice(&x));
        assert_eq!(slice(&v), slice(&y));
        assert_eq!(cut.offset(), fresh.offset());
    }
}

#[test]
fn two_updates_hand_back_what_one_does() {
    let mut a = ConcatKeyValueCache::new();
    a.update_and_fetch(positions(0, 2), positions(0, 2)).unwrap();
    let (k, v) = a.update_and_fetch(positions(2, 3), positions(2, 3)).unwrap();
    let mut b = ConcatKeyValueCache::new();
    let (x, y) = b.update_and_fetch(positions(0, 5), positions(0, 5)).unwrap();
    assert_eq!(slice(&k), slice(&x));
    assert_eq!(slice(&v), slice(&y));
}

// ---------------------------------------------------------------------------------------------
// Layers

fn dense(weight: &[f32], rows: i32, columns: i32) -> AnyLinear {
    MaybeQuantized::Original(Linear { weight: array(weight, &[rows, columns]), bias: None })
}

#[test]
fn feed_forward_by_hand() {
    let mlp = Mlp {
        gate_proj: dense(&[1.0, 0.0, 0.0, 2.0], 2, 2),
        up_proj: dense(&[0.5, 0.5, 1.0, -1.0], 2, 2),
        down_proj: dense(&[1.0, 1.0, 0.0, 3.0], 2, 2),
    };
    let y = mlp.forward(&array(&[1.0, 2.0], &[1, 1, 2])).unwrap();
    let silu = |x: f32| x / (1.0 + (-x).exp());
    let (a, b) = (silu(1.0) * 1.5, silu(4.0) * -1.0);
    same(&y, &[1, 1, 2], &[a + b, 3.0 * b]);
}

#[test]
fn bias_is_added_to_every_row() {
    let l = MaybeQuantized::Original(Linear {
        weight: array(&[1.0, 2.0], &[1, 2]),
        bias: Some(array(&[10.0], &[1])),
    });
    let y = l.forward(&array(&[1.0, 1.0, 0.0, 3.0], &[1, 2, 2])).unwrap();
    same(&y, &[1, 2, 1], &[13.0, 16.0]);
}

#[test]
fn noise_starts_between_its_bounds() {
    let u = uniform(lit(-0.5), lit(0.5), vec![4], 9).unwrap();
    assert_eq!(u.node.kind, Kind::Uniform { draw: 9 });
    assert_eq!(number(&u.node.scalars[0]), -0.5);
    let l = AnyLinear::linear(4, 3, true).unwrap();
    match l {
        MaybeQuantized::Original(l) => {
            assert_eq!(l.weight.shape(), &vec![3, 4]);
            assert_eq!(number(&l.weight.node.scalars[1]), 0.5);
            assert_eq!(number(&l.weight.node.scalars[0]), -0.5);
            assert_eq!(l.bias.unwrap().shape(), &vec![3]);
        }
        MaybeQuantized::Quantized(_) => panic!("fresh layers are in full precision"),
    }
}

// ---------------------------------------------------------------------------------------------
// Models

fn near(a: &[f32], b: &[f32]) {
    assert_eq!(a.len(), b.len());
    for (i, (x, y)) in a.iter().zip(b).enumerate() {
        assert!((x - y).abs() < 1e-4, "[{i}]: {x} != {y}");
    }
}

fn small_llama() -> llama::Model {
    llama::Model::new(llama::ModelArgs {
        model_type: String::from("llama"),
        hidden_size: 8,
        num_hidden_layers: 2,
        intermediate_size: 16,
        num_attention_heads: 2,
        rms_norm_eps: float(1e-5),
        vocab_size: 11,
        num_key_value_heads: 1,
        max_position_embeddings: 64,
        rope_theta: float(10000.0),
        head_dim: None,
        tie_word_embeddings: false,
        attention_bias: false,
        mlp_bias: true,
        rope_scaling: None,
        quantization: None,
    })
    .unwrap()
}

/// The logits of a prompt read at once are those of the prompt read in parts.
fn parts_match<M: LanguageModel<ConcatKeyValueCache>>(model: &M, vocab: i32, layers: usize) {
    let mut run = Run::new();
    let ids = ints(&[3, 1, 4, 1, 5], &[1, 5]);
    let mut cache: Vec<Option<ConcatKeyValueCache>> = Vec::new();
    let whole = model
        .forward(ModelInput { inputs: &ids, mask: None, cache: &mut cache, pad_offsets: None })
        .unwrap();
    assert_eq!(whole.shape(), &vec![1, 5, vocab]);
    let whole = run.of(&whole).data.clone();
    assert_eq!(cache.len(), layers);
    for c in &cache {
        assert_eq!(c.as_ref().unwrap().offset(), 5);
    }
    let mut cache: Vec<Option<ConcatKeyValueCache>> = Vec::new();
    let mut at = 0;
    for n in [2, 1, 2] {
        let part = ids.slice(1, at, at + n).unwrap();
        let step = model
            .forward(ModelInput { inputs: &part, mask: None, cache: &mut cache, pad_offsets: None })
            .unwrap();
        let want = &whole[(at * vocab) as usize..((at + n) * vocab) as usize];
        near(&run.of(&step).data, want);
        at += n;
    }
}

#[test]
fn decoding_step_by_step_gives_the_logits_of_one_pass() {
    parts_match(&small_llama(), 11, 2);
}

#[test]
fn qwen3_reads_in_parts() {
    let model = small_qwen3();
    assert!(model.lm_head.is_none());
    parts_match(&model, 9, 2);
}

#[test]
fn qwen2_reads_in_parts() {
    let args = qwen2::with_head_dim(qwen2::ModelArgs {
        model_type: String::from("qwen2"),
        hidden_size: 8,
        num_hidden_layers: 2,
        intermediate_size: 16,
        num_attention_heads: 2,
        rms_norm_eps: float(1e-6),
        vocab_size: 9,
        num_key_value_heads: 2,
        max_position_embeddings: 64,
        rope_theta: float(1000000.0),
        head_dim: 0,
        tie_word_embeddings: false,
        attention_bias: true,
        mlp_bias: false,
        rope_scaling: None,
        quantization: None,
    });
    assert_eq!(args.head_dim, 4);
    parts_match(&qwen2::Model::new(args).unwrap(), 9, 2);
}

#[test]
fn glm4_reads_in_parts() {
    let args = glm4::with_head_dim(glm4::ModelArgs {
        model_type: String::from("glm4"),
        hidden_size: 16,
        num_hidden_layers: 2,
        intermediate_size: 12,
        num_attention_heads: 2,
        rms_norm_eps: float(1e-6),
        vocab_size: 9,
        num_key_value_heads: 1,
        max_position_embeddings: 64,
        rope_theta: float(10000.0),
        head_dim: 0,
        partial_rotary_factor: float(0.5),
        tie_word_embeddings: false,
        attention_bias: true,
        rope_scaling: None,
        quantization: None,
    });
    let model = glm4::Model::new(args).unwrap();
    match &model.model.layers[0].self_attn.rope {
        RopeVariant::Default(r) => assert_eq!((r.dimensions, r.traditional), (4, true)),
        _ => panic!("a plain embedding"),
    }
    parts_match(&model, 9, 2);
}

#[test]
fn gemma3_reads_in_parts_past_its_window() {
    let model = gemma3::Model::new(
        gemma3::ModelArgs {
            model_type: String::from("gemma3_text"),
            hidden_size: 8,
            num_hidden_layers: 3,
            intermediate_size: 12,
            num_attention_heads: 2,
            num_key_value_heads: 1,
            head_dim: 4,
            rms_norm_eps: float(1e-6),
            vocab_size: 9,
            max_position_embeddings: 64,
            rope_theta: float(1000000.0),
            rope_local_base_freq: float(10000.0),
            sliding_window: 2,
            sliding_window_pattern: 3,
            query_pre_attn_scalar: float(4.0),
            tie_word_embeddings: true,
            quantization: None,
        },
        false,
    )
    .unwrap();
    let local: Vec<bool> = model.model.layers.iter().map(|l| l.is_local).collect();
    assert_eq!(local, [true, true, false]);
    parts_match(&model, 9, 3);
}

#[test]
fn deepseek_v2_reads_in_parts() {
    for rank in [None, Some(6)] {
        let model = deepseek_v2::Model::new(deepseek_v2::ModelArgs {
            model_type: String::from("deepseek_v2"),
            hidden_size: 8,
            num_hidden_layers: 2,
            intermediate_size: 12,
            num_attention_heads: 2,
            num_key_value_heads: 2,
            rms_norm_eps: float(1e-6),
            vocab_size: 9,
            rope_theta: float(10000.0),
            max_position_embeddings: 64,
            tie_word_embeddings: false,
            q_lora_rank: rank,
            kv_lora_rank: 5,
            qk_nope_head_dim: 3,
            qk_rope_head_dim: 4,
            v_head_dim: 6,
            attention_bias: false,
            n_routed_experts: 4,
            num_experts_per_tok: 2,
            moe_intermediate_size: 8,
            n_shared_experts: 1,
            first_k_dense_layers: 2,
            moe_layer_freq: 1,
            routed_scaling_factor: float(1.0),
            rope_scaling: None,
            quantization: None,
        })
        .unwrap();
        parts_match(&model, 9, 2);
    }
}

#[test]
fn gated_norm_and_gemma_norm() {
    let x = array(&[3.0, 4.0], &[1, 2]);
    let f = 1.0 / 12.5f32.sqrt();
    let mut norm = gemma3::GemmaRmsNorm::new(2, lit(0.0));
    norm.weight = array(&[0.5, -0.5], &[2]);
    same(&norm.forward(&x).unwrap(), &[1, 2], &[4.5 * f, 2.0 * f]);
    let gated = qwen3_5::RmsNormGated::new(2, lit(0.0));
    let gate = array(&[1.0, 2.0], &[1, 2]);
    let silu = |x: f32| x / (1.0 + (-x).exp());
    same(&gated.forward(&x, Some(&gate)).unwrap(), &[1, 2], &[
        3.0 * f * silu(1.0),
        4.0 * f * silu(2.0),
    ]);
    same(&gated.forward(&x, None).unwrap(), &[1, 2], &[3.0 * f, 4.0 * f]);
}

#[test]
fn clamped_activation() {
    let y = gpt_oss::swiglu(
        &array(&[10.0, -10.0, 0.5], &[3]),
        &array(&[9.0, 1.0, -2.0], &[3]),
        float(7.0),
    )
    .unwrap();
    let act = |u: f32, g: f32| g / (1.0 + (-1.702 * g).exp()) * (u + 1.0);
    same(&y, &[3], &[act(7.0, 7.0), act(-7.0, 1.0), act(0.5, -2.0)]);
}

#[test]
fn experts_are_picked_and_scored() {
    let gates = array(&[0.1, 0.4, 0.2, 0.3], &[1, 1, 4]);
    let picked = pick_experts(&gates, 2, 4).unwrap();
    let mut ids = slice(&picked);
    ids.sort_by(|a, b| a.partial_cmp(b).unwrap());
    assert_eq!(ids, [1.0, 3.0]);
    let plain: f32 = slice(&score_experts(&gates, &picked, false).unwrap()).iter().sum();
    let normal: f32 = slice(&score_experts(&gates, &picked, true).unwrap()).iter().sum();
    assert!((plain - 0.7).abs() < 1e-6 && (normal - 1.0).abs() < 1e-6);
    let y = blend(
        &array(&[1.0, 2.0, 3.0, 4.0], &[1, 1, 2, 2]),
        &array(&[0.25, 0.75], &[1, 1, 2]),
    )
    .unwrap();
    same(&y, &[1, 1, 2], &[2.5, 3.5]);
}

#[test]
fn left_padded_rows_turn_from_their_own_start() {
    let model = small_llama();
    let mut run = Run::new();
    let ids = ints(&[3, 1, 4, 1], &[1, 4]);
    let forward = |cache: &mut Vec<Option<ConcatKeyValueCache>>, part: &Array, pads: Option<&Array>| {
        model.forward(ModelInput { inputs: part, mask: None, cache, pad_offsets: pads }).unwrap()
    };
    // One row without padding: offsets of zero change nothing.
    let mut slot: Option<Array> = None;
    llama::set_batch_pad_offsets(&mut slot, Some(ints(&[0], &[1])));
    let mut a: Vec<Option<ConcatKeyValueCache>> = Vec::new();
    let mut b: Vec<Option<ConcatKeyValueCache>> = Vec::new();
    for at in [0, 2] {
        let part = ids.slice(1, at, at + 2).unwrap();
        let x = forward(&mut a, &part, None);
        let y = forward(&mut b, &part, slot.as_ref());
        near(&run.of(&x).data, &run.of(&y).data);
    }
    llama::set_batch_pad_offsets(&mut slot, None);
    assert!(slot.is_none());
}

#[test]
fn the_last_pad_offsets_count() {
    let model = small_llama();
    let mut run = Run::new();
    // The second row is a shorter prompt behind one position of padding.
    let ids = ints(&[3, 1, 4, 0, 1, 4], &[2, 3]);
    let mut read = |calls: Vec<Option<Array>>| {
        let mut slot: Option<Array> = None;
        for c in calls {
            llama::set_batch_pad_offsets(&mut slot, c);
        }
        let mut cache: Vec<Option<ConcatKeyValueCache>> = Vec::new();
        for at in 0..3 {
            let part = ids.slice(1, at, at + 1).unwrap();
            let x = model
                .forward(ModelInput {
                    inputs: &part,
                    mask: None,
                    cache: &mut cache,
                    pad_offsets: slot.as_ref(),
                })
                .unwrap();
            if at == 2 {
                return run.of(&x).data.clone();
            }
        }
        unreachable!()
    };
    let pads = |a: i32, b: i32| Some(ints(&[a, b], &[2]));
    let plain = read(vec![]);
    let padded = read(vec![pads(0, 1)]);
    assert_eq!(plain[..11], padded[..11]);
    near(&read(vec![pads(0, 1), None]), &plain);
    near(&read(vec![None, pads(2, 2), pads(0, 1)]), &padded);
}

fn small_qwen3() -> qwen3::Model {
    qwen3::Model::new(qwen3::ModelArgs {
        model_type: String::from("qwen3"),
        hidden_size: 8,
        num_hidden_layers: 2,
        intermediate_size: 16,
        num_attention_heads: 4,
        rms_norm_eps: float(1e-6),
        vocab_size: 9,
        num_key_value_heads: 2,
        max_position_embeddings: 64,
        rope_theta: float(1000000.0),
        head_dim: 6,
        tie_word_embeddings: true,
        rope_scaling: None,
        quantization: None,
    })
    .unwrap()
}

#[test]
fn every_step_gives_one_token_a_row() {
    let model = small_qwen3();
    let ids = ints(&[3, 1, 4, 2, 7, 1], &[2, 3]);
    for temp in [0.0, 0.8] {
        let mut cache: Vec<Option<ConcatKeyValueCache>> = Vec::new();
        let mut g = qwen3::Generate::new(&model, &mut cache, float(temp), &ids);
        g.set_sampler(float(0.9), 4, float(1.0));
        for _ in 0..3 {
            let t = g.next().unwrap().unwrap();
            assert_eq!(t.shape(), &vec![2]);
        }
        assert_eq!(g.draws, 3);
    }
}

#[test]
fn a_penalty_goes_with_decoding() {
    let model = small_qwen3();
    let mut run = Run::new();
    let ids = ints(&[3, 1, 4], &[1, 3]);
    let mut cache: Vec<Option<ConcatKeyValueCache>> = Vec::new();
    let mut g = qwen3::Generate::new(&model, &mut cache, float(0.0), &ids);
    g.set_sampler(float(1.0), 0, float(1e30));
    for _ in 0..3 {
        let t = g.next().unwrap().unwrap();
        assert_eq!(t.shape(), &vec![1]);
        let id = run.of(&t).data[0] as u32;
        assert!(!g.history.contains(&id));
        g.record(id);
    }
}

#[test]
fn the_penalty_looks_at_the_latest_tokens() {
    let model = small_qwen3();
    let mut run = Run::new();
    let ids = ints(&[3, 1, 4], &[1, 3]);
    let mut first = |history: Vec<u32>| {
        let mut cache: Vec<Option<ConcatKeyValueCache>> = Vec::new();
        let mut g = qwen3::Generate::new(&model, &mut cache, float(0.0), &ids);
        g.set_sampler(float(1.0), 0, float(1e30));
        g.history = history;
        let t = g.next().unwrap().unwrap();
        run.of(&t).data[0] as u32
    };
    let best = first(vec![]);
    let other = (best + 1) % 9;
    assert_ne!(first(vec![best]), best);
    let mut history = vec![best];
    history.extend(vec![other; 255]);
    assert_ne!(first(history.clone()), best);
    // One more token, and the first one is out of sight.
    history.push(other);
    assert_eq!(first(history), best);
}

#[test]
fn draws_can_be_repeated() {
    let model = small_llama();
    let ids = ints(&[3, 1, 4], &[1, 3]);
    let mut run = Run::new();
    let mut tokens = |from: u64| {
        let mut cache: Vec<Option<ConcatKeyValueCache>> = Vec::new();
        let mut g = llama::Generate::new(&model, &mut cache, float(5.0), &ids);
        g.set_draws(from);
        let mut out = Vec::new();
        for _ in 0..4 {
            let t = g.next().unwrap().unwrap();
            out.push(run.of(&t).data[0]);
        }
        assert_eq!(g.draws, from + 4);
        out
    };
    let first = tokens(100);
    assert_eq!(first, tokens(100));
    assert!((0..8).any(|s| tokens(1000 * s) != first));
}

#[test]
fn greedy_generation_repeats_itself_from_the_same_caches() {
    let model = small_llama();
    let mut run = Run::new();
    let ids = ints(&[3, 1, 4], &[1, 3]);
    let mut cache: Vec<Option<ConcatKeyValueCache>> = Vec::new();
    let mut tokens = Vec::new();
    {
        let mut g = llama::Generate::new(&model, &mut cache, float(0.0), &ids);
        for _ in 0..4 {
            let t = g.next().unwrap().unwrap();
            tokens.push(run.of(&t).data[0]);
        }
    }
    // Reading the prompt and all but the last token at once gives the last token.
    let mut all = vec![3, 1, 4];
    all.extend(tokens[..3].iter().map(|t| *t as i32));
    let ids = ints(&all, &[1, 6]);
    let mut cache: Vec<Option<ConcatKeyValueCache>> = Vec::new();
    let mut g = llama::Generate::new(&model, &mut cache, float(0.0), &ids);
    let t = g.next().unwrap().unwrap();
    assert_eq!(run.of(&t).data[0], tokens[3]);
}

#[test]
fn penalized_generation_remembers_what_is_recorded() {
    let model = small_llama();
    let mut run = Run::new();
    let ids = ints(&[3, 1, 4], &[1, 3]);
    let mut cache: Vec<Option<ConcatKeyValueCache>> = Vec::new();
    let mut g = llama::Generate::new(&model, &mut cache, float(0.0), &ids);
    g.record(9);
    assert!(g.history.is_empty());
    g.set_sampler(float(1.0), 0, float(1e30));
    let mut seen = Vec::new();
    for _ in 0..3 {
        let t = g.next().unwrap().unwrap();
        let id = run.of(&t).data[0] as u32;
        g.record(id);
        seen.push(id);
    }
    assert_eq!(g.history, seen);
    // A penalty this large never lets a token come back while others have positive logits.
    assert!(seen[0] != seen[1] && seen[1] != seen[2]);
}

fn small_hybrid() -> qwen3_5::Model {
    qwen3_5::Model::new(qwen3_5::ModelArgs {
        model_type: String::from("qwen3_5_text"),
        hidden_size: 8,
        num_hidden_layers: 4,
        intermediate_size: 12,
        num_attention_heads: 2,
        num_key_value_heads: 1,
        head_dim: 8,
        rms_norm_eps: float(1e-6),
        vocab_size: 13,
        max_position_embeddings: 64,
        rope_theta: Some(float(10000.0)),
        partial_rotary_factor: Some(float(0.5)),
        rope_parameters: None,
        full_attention_interval: 4,
        linear_num_value_heads: 4,
        linear_num_key_heads: 2,
        linear_key_head_dim: 4,
        linear_value_head_dim: 4,
        linear_conv_kernel_dim: 4,
        tie_word_embeddings: false,
        rope_scaling: None,
        quantization: None,
    })
    .unwrap()
}

#[test]
fn prompt_in_chunks_gives_the_logits_of_one_pass() {
    let model = small_hybrid();
    let mut run = Run::new();
    let ids = ints(&[1, 2, 3, 4, 5, 6, 7], &[1, 7]);
    let mut one = model.init_cache();
    let whole = model.prefill_chunked(&ids, &mut one, 100).unwrap();
    assert_eq!(whole.shape(), &vec![1, 1, 13]);
    let mut many = model.init_cache();
    let parts = model.prefill_chunked(&ids, &mut many, 3).unwrap();
    near(&run.of(&whole).data, &run.of(&parts).data);
    let (mut a, mut b) = (Vec::new(), Vec::new());
    for (x, y) in one.iter().zip(&many) {
        x.collect_eval(&mut a);
        y.collect_eval(&mut b);
    }
    assert_eq!(a.len(), 2 * 4);
    for (x, y) in a.iter().zip(&b) {
        near(&run.of(x).data, &run.of(y).data);
    }
}

fn held(cache: &[LayerCache]) -> i32 {
    match &cache[3] {
        LayerCache::Full(kv) => kv.offset(),
        LayerCache::Linear { .. } => panic!("every fourth layer is a full one"),
    }
}

#[test]
fn every_chunk_size_gives_the_last_logits_of_a_forward_pass() {
    let model = small_hybrid();
    let mut run = Run::new();
    let ids = ints(&[1, 2, 3, 4, 5, 6, 7], &[1, 7]);
    let mut one = model.init_cache();
    let all = model.forward(&ids, &mut one).unwrap();
    assert_eq!(all.shape(), &vec![1, 7, 13]);
    let last = run.of(&all).data[6 * 13..].to_vec();
    let mut a = Vec::new();
    for x in &one {
        x.collect_eval(&mut a);
    }
    for chunk in [1, 2, 5, 7] {
        let mut many = model.init_cache();
        let parts = model.prefill_chunked(&ids, &mut many, chunk).unwrap();
        assert_eq!(parts.shape(), &vec![1, 1, 13]);
        near(&last, &run.of(&parts).data);
        assert_eq!(held(&many), held(&one));
        let mut b = Vec::new();
        for y in &many {
            y.collect_eval(&mut b);
        }
        for (x, y) in a.iter().zip(&b) {
            near(&run.of(x).data, &run.of(y).data);
        }
    }
}

#[test]
fn a_reading_asks_once_before_each_chunk() {
    let model = small_hybrid();
    let ids = ints(&[1, 2, 3, 4, 5, 6, 7], &[1, 7]);
    for (chunk, polls) in [(3, 3), (7, 1), (100, 1), (1, 7), (2, 4)] {
        // Never told to stop.
        let asked = std::cell::Cell::new(0);
        let mut cache = model.init_cache();
        let r = model.prefill_cancellable(&ids, &mut cache, chunk, || {
            asked.set(asked.get() + 1);
            false
        });
        assert_eq!(r.unwrap().unwrap().shape(), &vec![1, 1, 13]);
        assert_eq!((asked.get(), held(&cache)), (polls, 7));
        // Told to stop by each of the answers.
        for j in 0..polls {
            let asked = std::cell::Cell::new(0);
            let mut cache = model.init_cache();
            let r = model.prefill_cancellable(&ids, &mut cache, chunk, || {
                asked.set(asked.get() + 1);
                asked.get() == j + 1
            });
            assert!(r.unwrap().is_none());
            assert_eq!((asked.get(), held(&cache)), (j + 1, j * chunk));
        }
    }
}

#[test]
fn a_prompt_is_read_step_by_step() {
    let model = small_hybrid();
    let mut run = Run::new();
    let ids = ints(&[1, 2, 3, 4, 5, 6, 7], &[1, 7]);
    let mut whole = model.init_cache();
    let want = model.prefill_chunked(&ids, &mut whole, 3).unwrap();
    let mut cache = model.init_cache();
    let mut start = 0;
    let mut ends = Vec::new();
    let got = loop {
        match model.prefill_step(&ids, &mut cache, 3, start, false).unwrap() {
            ReadStep::More { next } => start = next,
            ReadStep::Done(l) => break l,
            ReadStep::Stopped => panic!("not told to stop"),
        }
        ends.push(start);
        assert_eq!(held(&cache), start);
    };
    assert_eq!(ends, [3, 6]);
    near(&run.of(&want).data, &run.of(&got).data);
    let r = model.prefill_step(&ids, &mut cache, 3, 0, true).unwrap();
    assert!(matches!(r, ReadStep::Stopped));
    assert_eq!(held(&cache), 7);
}

#[test]
fn a_stopped_generator_gives_nothing_and_keeps_no_snapshot() {
    let model = small_hybrid();
    let prompt = ints(&[1, 2, 3, 4, 5, 6, 7], &[1, 7]);
    for (tail, polls) in [(0, 3), (2, 2)] {
        for j in 0..polls {
            let asked = std::cell::Cell::new(0);
            let mut g = qwen3_5::Generate::new(&model, float(0.0), &prompt);
            g.set_gen_prompt_len(tail);
            g.chunk = 3;
            let r = g.next_cancellable(|| {
                asked.set(asked.get() + 1);
                asked.get() == j + 1
            });
            assert!(r.is_none());
            assert_eq!((asked.get(), held(&g.cache)), (j + 1, 3 * j));
            let (_, snapshot) = g.into_cache_and_snapshot();
            assert!(snapshot.is_none());
        }
        let asked = std::cell::Cell::new(0);
        let mut g = qwen3_5::Generate::new(&model, float(0.0), &prompt);
        g.set_gen_prompt_len(tail);
        g.chunk = 3;
        let r = g.next_cancellable(|| {
            asked.set(asked.get() + 1);
            false
        });
        assert_eq!(r.unwrap().unwrap().shape(), &vec![1]);
        assert_eq!((asked.get(), held(&g.cache)), (polls, 7));
        // Decoding does not ask.
        assert!(g.next_cancellable(|| true).is_some());
        assert!(g.into_cache_and_snapshot().1.is_some());
    }
    // A prompt that is all tail is read at once, without asking.
    let mut g = qwen3_5::Generate::new(&model, float(0.0), &prompt);
    g.set_gen_prompt_len(7);
    assert!(!g.polls());
    assert!(g.next_cancellable(|| true).is_some());
}

#[test]
fn a_generator_advances_chunk_by_chunk() {
    let model = small_hybrid();
    let mut run = Run::new();
    let prompt = ints(&[1, 2, 3, 4, 5, 6, 7], &[1, 7]);
    let make = || {
        let mut g = qwen3_5::Generate::new(&model, float(0.0), &prompt);
        g.set_gen_prompt_len(2);
        g.chunk = 2;
        g
    };
    let mut whole = make();
    let mut parts = make();
    let want = whole.next().unwrap().unwrap();
    for at in [2, 4] {
        assert!(parts.polls());
        assert!(matches!(parts.advance(false), Ok(Advance::Reading)));
        assert_eq!((parts.read, held(&parts.cache)), (at, at));
    }
    let got = match parts.advance(false) {
        Ok(Advance::Token(t)) => t,
        _ => panic!("the prompt is read"),
    };
    assert_eq!(run.of(&want).data, run.of(&got).data);
    assert!(parts.prefill_snapshot.is_some() && !parts.polls());
    assert_eq!((parts.read, parts.draws), (0, 1));
    let mut stopped = make();
    assert!(matches!(stopped.advance(false), Ok(Advance::Reading)));
    assert!(matches!(stopped.advance(true), Ok(Advance::Stopped)));
    assert_eq!((stopped.read, held(&stopped.cache)), (0, 2));
    // A part of the prompt that is not there.
    let mut lost = make();
    lost.read = 5;
    assert!(matches!(lost.advance(false), Err(Exception::Operands)));
}

fn small_gpt_oss(layers: i32, types: Vec<String>) -> gpt_oss::Model {
    let mut model = gpt_oss::Model::new(gpt_oss::ModelArgs {
        model_type: String::from("gpt_oss"),
        hidden_size: 64,
        num_hidden_layers: layers,
        intermediate_size: 64,
        num_attention_heads: 2,
        num_key_value_heads: 1,
        head_dim: 32,
        rms_norm_eps: float(1e-5),
        vocab_size: 64,
        rope_theta: float(150000.0),
        max_position_embeddings: 128,
        sliding_window: 16,
        num_local_experts: 4,
        num_experts_per_tok: 2,
        swiglu_limit: float(7.0),
        tie_word_embeddings: false,
        layer_types: types,
        rope_scaling: None,
        quantization: None,
    })
    .unwrap();
    // The matrices of experts are known once they are loaded.
    let zeros = |shape: Vec<i32>, dtype: Dtype| zeros_dtype(&shape, dtype).unwrap();
    for layer in &mut model.model.layers {
        let e = &mut layer.mlp.experts;
        for part in [&mut e.gate_proj, &mut e.up_proj, &mut e.down_proj] {
            part.weight = zeros(vec![4, 64, 8], Dtype::Uint32);
            part.scales = zeros(vec![4, 64, 2], Dtype::Uint8);
            part.bias = zeros(vec![4, 64], Dtype::Bfloat16);
        }
    }
    model
}

#[test]
fn gpt_oss_advances_chunk_by_chunk() {
    let sliding = String::from("sliding_attention");
    let full = String::from("full_attention");
    let model = small_gpt_oss(2, vec![sliding, full]);
    let prompt = ints(&[1, 2, 3, 4, 5, 6, 7], &[1, 7]);
    let mut cache: Vec<Option<ConcatKeyValueCache>> = Vec::new();
    let mut g = gpt_oss::Generate::new(&model, &mut cache, float(0.0), &prompt);
    g.chunk = 3;
    for at in [3, 6] {
        assert!(matches!(g.advance(), Ok(gpt_oss::Advance::Reading)));
        assert_eq!(g.read, at);
        assert_eq!(g.cache[0].as_ref().unwrap().offset(), at);
    }
    match g.advance() {
        Ok(gpt_oss::Advance::Token(t)) => assert_eq!(t.shape(), &vec![1]),
        _ => panic!("the prompt is read"),
    }
    let t = g.next().unwrap().unwrap();
    assert_eq!(t.shape(), &vec![1]);
    assert_eq!((g.read, g.draws), (0, 2));
    assert_eq!(g.cache[1].as_ref().unwrap().offset(), 8);
}

#[test]
fn every_layer_that_runs_needs_a_type() {
    let model = small_gpt_oss(2, vec![String::from("sliding_attention")]);
    assert!(model.model.layers[0].is_sliding && !model.model.layers[1].is_sliding);
    let prompt = ints(&[1, 2], &[1, 2]);
    let mut cache: Vec<Option<ConcatKeyValueCache>> = Vec::new();
    let mut g = gpt_oss::Generate::new(&model, &mut cache, float(0.0), &prompt);
    assert!(matches!(g.next(), Some(Err(Exception::Operands))));
}

#[test]
fn reading_a_prompt_can_be_stopped() {
    let model = small_hybrid();
    let ids = ints(&[1, 2, 3, 4, 5, 6, 7], &[1, 7]);
    let asked = std::cell::Cell::new(0);
    let mut cache = model.init_cache();
    let r = model
        .prefill_cancellable(&ids, &mut cache, 3, || {
            asked.set(asked.get() + 1);
            asked.get() > 2
        })
        .unwrap();
    assert!(r.is_none());
    match &cache[3] {
        LayerCache::Full(kv) => assert_eq!(kv.offset(), 6),
        LayerCache::Linear { .. } => panic!("every fourth layer is a full one"),
    }
}

#[test]
fn snapshots_bring_a_recurrence_back() {
    let model = small_hybrid();
    let mut run = Run::new();
    let prompt = ints(&[1, 2, 3, 4, 5], &[1, 5]);
    let mut g = qwen3_5::Generate::new(&model, float(0.0), &prompt);
    g.set_gen_prompt_len(2);
    for _ in 0..3 {
        g.next().unwrap().unwrap();
    }
    let (mut cache, snapshot) = g.into_cache_and_snapshot();
    let snapshot = snapshot.unwrap();
    // The next run shares the first three tokens.
    for (c, s) in cache.iter_mut().zip(&snapshot) {
        c.truncate(3);
        c.restore(s);
    }
    let rest = ints(&[9, 8], &[1, 2]);
    let mut again = qwen3_5::Generate::with_cache(&model, float(0.0), &rest, cache);
    let t = again.next().unwrap().unwrap();
    let prompt = ints(&[1, 2, 3, 9, 8], &[1, 5]);
    let mut fresh = qwen3_5::Generate::new(&model, float(0.0), &prompt);
    let u = fresh.next().unwrap().unwrap();
    assert_eq!(run.of(&t).data, run.of(&u).data);
    for (x, y) in again.cache.iter().zip(&fresh.cache) {
        let (mut a, mut b) = (Vec::new(), Vec::new());
        x.collect_eval(&mut a);
        y.collect_eval(&mut b);
        for (p, q) in a.iter().zip(&b) {
            let (p, q) = (run.of(p), run.of(q));
            // Behind the positions held a buffer may still hold others.
            let live = match x {
                LayerCache::Full(kv) => kv.offset() as usize * 8,
                LayerCache::Linear { .. } => p.data.len(),
            };
            near(&p.data[..live], &q.data[..live]);
        }
    }
}

#[test]
fn a_layer_refuses_the_cache_of_the_other_sort() {
    let model = small_hybrid();
    let ids = ints(&[1], &[1, 1]);
    let mut cache = model.init_cache();
    cache.swap(0, 3);
    match model.forward(&ids, &mut cache) {
        Err(e) => assert_eq!(e, Exception::CacheKind),
        Ok(_) => panic!("the sorts do not match"),
    }
}

// ---------------------------------------------------------------------------------------------
// Images

#[test]
fn places_are_spread_in_single_precision() {
    for (i, s, m) in [(0, 47, 9), (9, 47, 9), (5, 47, 9), (7, 3, 10), (99, 47, 100)] {
        assert_eq!(divide_single(i, s, m), i * s / m);
    }
    // Past 2^24, and where the next integer is within rounding.
    for (i, s, m) in [
        (33_554_433, 65_535, 2_000_000_011),
        (1_999_999_999, 46_339, 2_000_000_011),
        (16_777_217, 3, 16_777_218),
        (2_147_483_646, 46_339, 2_147_483_646),
        (715_827_882, 3, 2_147_483_647),
        (30_000_001, 7, 210_000_008),
        (59_999_999, 46_000, 60_000_001),
    ] {
        let want = (i as f32 * s as f32 / m as f32) as i32;
        assert_eq!(divide_single(i, s, m), want, "{i} * {s} / {m}");
    }
}

#[test]
fn bilinear_weights_sum_to_one() {
    let (indices, weights) = bilinear_indices_and_weights(1, 4, 6, 3, 2);
    assert_eq!(indices.len(), 4);
    for p in 0..24 {
        let sum: f32 = (0..4).map(|k| number(&weights[k][p])).sum();
        assert!((sum - 1.0).abs() < 1e-5);
        for k in 0..4 {
            assert!((0..9).contains(&indices[k][p]));
        }
    }
    // The first patch lies on the first entry, the last on the last.
    assert_eq!((indices[0][0], number(&weights[0][0])), (0, 1.0));
    assert_eq!((indices[0][23], number(&weights[0][23])), (8, 1.0));
}

#[test]
fn angles_of_patches() {
    let (cos, sin) = vision_rope_cos_sin(1, 2, 2, 2, 8);
    assert_eq!((cos.len(), sin.len()), (32, 32));
    // The last patch is at row 1 and column 1; frequencies are 1 and 1/100.
    let want = [1.0f32, 0.01, 1.0, 0.01, 1.0, 0.01, 1.0, 0.01];
    for j in 0..8 {
        assert!((number(&cos[24 + j]) - want[j].cos()).abs() < 1e-6);
        assert!((number(&sin[24 + j]) - want[j].sin()).abs() < 1e-6);
        assert_eq!(number(&sin[j]), 0.0);
    }
}
