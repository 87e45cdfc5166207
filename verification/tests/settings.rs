//! Settings, numbers and texts.

use mlx_lm::array::{Array, Dtype, Kind};
use mlx_lm::cache::{ConcatKeyValueCache, FreshCache, KeyValueCache};
use mlx_lm::error::{Exception, RopeKey};
use mlx_lm::fast::{MetalKernel, TemplateArg};
use mlx_lm::models::decoder::ModelInput;
use mlx_lm::models::deepseek_v2::{d_max_pos, d_one_f32, d_one_i, d_true};
use mlx_lm::models::generate::LanguageModel;
use mlx_lm::models::glm4::default_partial_rotary_factor;
use mlx_lm::models::glm4_moe::{one, one_f32};
use mlx_lm::models::gpt_oss::{
    self, default_max_position_embeddings, default_sliding_window, default_swiglu_limit,
    ConfigValue,
};
use mlx_lm::models::qwen3::{repeat_window, QuantizationConfig};
use mlx_lm::models::qwen3_5::{self, prefill_chunk_size, wrapped_quantization, RopeParameters};
use mlx_lm::models::qwen3_5_vision::{grid_layout, whole_root};
use mlx_lm::models::qwen3_moe;
use mlx_lm::nn::Quantizable;
use mlx_lm::params::Parameters;
use mlx_lm::scalar::{Float, Scalar};
use mlx_lm::text::{
    contains_char, ends_with, find_text, join, parse_integer, starts_with, strip_prefix,
    strip_suffix,
};
use mlx_lm::utils::mask::{create_attention_mask, AttentionMask};
use mlx_lm::utils::rope::{
    get_numeric_from_config, initialize_rope, FloatOrStr, FloatOrString, RopeVariant,
    ScalingConfig,
};

fn float(x: f32) -> Float {
    Float { bits: x.to_bits() }
}

const SAMPLES: [f32; 22] = [
    0.0,
    -0.0,
    0.25,
    0.5,
    -0.5,
    1.0,
    -1.0,
    1.5,
    2.999_999_8,
    -3.7,
    64.0,
    127.5,
    1e-40,
    16_777_215.0,
    2_147_483_520.0,
    2_147_483_648.0,
    -2_147_483_648.0,
    3e38,
    f32::INFINITY,
    f32::NEG_INFINITY,
    f32::NAN,
    0.1,
];

#[test]
fn cutting_a_float_down_is_the_cast() {
    for x in SAMPLES {
        assert_eq!(float(x).to_i32(), x as i32, "{x}");
    }
}

#[test]
fn product_with_an_integer_is_rounded_and_cut() {
    for x in SAMPLES {
        for n in [0, 1, -1, 3, 64, 96, 128, 1_000_003, -77, i32::MAX, i32::MIN] {
            assert_eq!(float(x).times_int(n), (n as f32 * x) as i32, "{x} * {n}");
        }
    }
}

#[test]
fn floats_compare_like_numbers() {
    for x in SAMPLES {
        for y in SAMPLES {
            assert_eq!(float(x).lt(float(y)), x < y, "{x} < {y}");
            assert_eq!(float(x).equals(float(y)), x == y, "{x} == {y}");
        }
    }
}

#[test]
fn integers_are_read_like_the_standard_ones() {
    for s in [
        "0", "7", "-7", "+7", "007", "2147483647", "2147483648", "-2147483648", "-2147483649", "",
        "-", "+", " 1", "1 ", "1.0", "x", "٣", "99999999999999999999",
    ] {
        assert_eq!(parse_integer(s), s.parse::<i32>().ok(), "{s:?}");
    }
}

#[test]
fn texts_are_searched_and_cut() {
    assert!(starts_with("model-1", "model-"));
    assert!(!starts_with("mod", "model"));
    assert!(ends_with("a.weight", ".weight"));
    assert!(!ends_with("weight", ".weight"));
    assert_eq!(strip_prefix("äb.c", "ä"), Some("b.c"));
    assert_eq!(strip_suffix("b.cä", "ä"), Some("b.c"));
    assert_eq!(strip_suffix("b", "ä"), None);
    assert_eq!(find_text("xäxä", "ä"), Some(1));
    assert_eq!(find_text("abc", "d"), None);
    assert!(contains_char("a\0b", '\0'));
    assert_eq!(join("ä", "b"), "äb");
}

#[test]
fn chunk_sizes() {
    assert_eq!(prefill_chunk_size(None), 2048);
    assert_eq!(prefill_chunk_size(Some("1024")), 1024);
    assert_eq!(prefill_chunk_size(Some("3")), 256);
    assert_eq!(prefill_chunk_size(Some("0")), 2048);
    assert_eq!(prefill_chunk_size(Some("-5")), 2048);
    assert_eq!(prefill_chunk_size(Some("many")), 2048);
}

#[test]
fn defaults() {
    assert_eq!((d_max_pos(), d_true(), d_one_i()), (4096, true, 1));
    assert_eq!((d_one_f32(), one(), one_f32()), (float(1.0), 1, float(1.0)));
    assert_eq!(default_partial_rotary_factor(), float(0.5));
    assert_eq!((default_max_position_embeddings(), default_sliding_window()), (131072, 128));
    assert_eq!(default_swiglu_limit(), float(7.0));
}

fn text(s: &str) -> FloatOrString {
    FloatOrString::String(String::from(s), s.parse::<f32>().ok().map(float))
}

fn config(entries: Vec<(&str, FloatOrString)>) -> Option<ScalingConfig> {
    Some(entries.into_iter().map(|(k, v)| (String::from(k), v)).collect())
}

fn rope(c: &Option<ScalingConfig>) -> Result<RopeVariant, Exception> {
    initialize_rope(8, Scalar::Lit(float(10000.0)), false, c, 128)
}

fn is_unit(s: &Scalar) -> bool {
    matches!(s, Scalar::Lit(f) if *f == float(1.0))
}

#[test]
fn plain_and_linear_embeddings() {
    for c in [None, config(vec![]), config(vec![("type", text("default"))])] {
        match rope(&c) {
            Ok(RopeVariant::Default(r)) => {
                assert_eq!((r.dimensions, r.traditional), (8, false));
                assert!(is_unit(&r.scale));
            }
            _ => panic!("a plain embedding"),
        }
    }
    let linear = config(vec![("rope_type", text("linear")), ("factor", text("4"))]);
    match rope(&linear) {
        Ok(RopeVariant::Default(r)) => match &r.scale {
            Scalar::Quotient(a, b) => {
                assert!(is_unit(a));
                assert!(matches!(&**b, Scalar::Lit(f) if *f == float(4.0)));
            }
            _ => panic!("one over the factor"),
        },
        _ => panic!("a plain embedding"),
    }
}

#[test]
fn embeddings_that_cannot_be_built() {
    let fails = |c: Option<ScalingConfig>| match rope(&c) {
        Err(e) => e,
        Ok(_) => panic!("this cannot be built"),
    };
    assert_eq!(fails(config(vec![("type", text("other"))])), Exception::RopeType);
    assert_eq!(fails(config(vec![("rope_type", text("longrope"))])), Exception::RopeUnavailable);
    assert_eq!(
        fails(config(vec![("rope_type", text("yarn"))])),
        Exception::MissingRopeKey(RopeKey::Factor)
    );
    for (name, key) in [
        ("original_max_position_embeddings", RopeKey::OriginalMaxPositionEmbeddings),
        ("beta_fast", RopeKey::BetaFast),
        ("beta_slow", RopeKey::BetaSlow),
        ("mscale", RopeKey::Mscale),
        ("mscale_all_dim", RopeKey::MscaleAllDim),
    ] {
        let c = vec![("type", text("yarn")), ("factor", text("2")), (name, text("many"))];
        assert_eq!(fails(config(c)), Exception::InvalidRopeNumber(key));
    }
    assert_eq!(
        fails(config(vec![("type", FloatOrString::Float(float(1.0)))])),
        Exception::RopeType
    );
    assert_eq!(
        fails(config(vec![("type", text("linear"))])),
        Exception::MissingRopeKey(RopeKey::Factor)
    );
    assert_eq!(
        fails(config(vec![("type", text("linear")), ("factor", text("four"))])),
        Exception::InvalidRopeNumber(RopeKey::Factor)
    );
    let number = |x: f32| FloatOrString::Float(float(x));
    assert_eq!(
        fails(config(vec![("type", text("llama3")), ("factor", number(8.0))])),
        Exception::MissingRopeKey(RopeKey::LowFreqFactor)
    );
    assert_eq!(
        fails(config(vec![
            ("type", text("llama3")),
            ("factor", number(8.0)),
            ("low_freq_factor", number(1.0)),
        ])),
        Exception::MissingRopeKey(RopeKey::HighFreqFactor)
    );
    assert_eq!(
        fails(config(vec![
            ("type", text("llama3")),
            ("factor", number(8.0)),
            ("low_freq_factor", number(1.0)),
            ("high_freq_factor", number(4.0)),
        ])),
        Exception::MissingRopeKey(RopeKey::OriginalMaxPositionEmbeddings)
    );
}

#[test]
fn numbers_of_a_configuration() {
    let c = config(vec![("factor", text("2.5")), ("low_freq_factor", text("x"))]).unwrap();
    assert_eq!(get_numeric_from_config(&c, RopeKey::Factor), Ok(float(2.5)));
    assert_eq!(
        get_numeric_from_config(&c, RopeKey::LowFreqFactor),
        Err(Exception::InvalidRopeNumber(RopeKey::LowFreqFactor))
    );
    assert_eq!(
        get_numeric_from_config(&c, RopeKey::HighFreqFactor),
        Err(Exception::MissingRopeKey(RopeKey::HighFreqFactor))
    );
    assert_eq!(RopeKey::OriginalMaxPositionEmbeddings.name(), "original_max_position_embeddings");
    match text("abc").borrowed() {
        FloatOrStr::Str(s) => assert_eq!(s, "abc"),
        FloatOrStr::Float(_) => panic!("a text"),
    }
}

#[test]
fn usable_entries_of_a_configuration() {
    let args = gpt_oss::ModelArgs {
        model_type: String::from("gpt_oss"),
        hidden_size: 64,
        num_hidden_layers: 1,
        intermediate_size: 64,
        num_attention_heads: 2,
        num_key_value_heads: 1,
        head_dim: 32,
        rms_norm_eps: float(1e-5),
        vocab_size: 64,
        rope_theta: float(150000.0),
        max_position_embeddings: 128,
        sliding_window: 16,
        num_local_experts: 4,
        num_experts_per_tok: 2,
        swiglu_limit: float(7.0),
        tie_word_embeddings: false,
        layer_types: vec![String::from("sliding_attention")],
        rope_scaling: Some(vec![
            (String::from("factor"), ConfigValue::Number(Some(float(32.0)))),
            (String::from("truncate"), ConfigValue::Other),
            (String::from("rope_type"), ConfigValue::Text(String::from("linear"), None)),
        ]),
        quantization: None,
    };
    let map = args.rope_scaling_map().unwrap();
    let keys: Vec<&str> = map.iter().map(|(k, _)| k.as_str()).collect();
    assert_eq!(keys, ["factor", "rope_type"]);
    let model = gpt_oss::Model::new(args).unwrap();
    assert_eq!(model.model_type(), "gpt_oss");
    assert!(model.model.layers[0].self_attn.sinks.shape() == &vec![2]);
}

#[test]
fn rotary_settings_kept_apart_come_first() {
    let mut args = hybrid();
    assert_eq!((args.rope_theta(), args.rotary_dim()), (float(5.0), 16));
    args.rope_parameters =
        Some(RopeParameters { rope_theta: Some(float(7.0)), partial_rotary_factor: None });
    assert_eq!((args.rope_theta(), args.rotary_dim()), (float(7.0), 16));
    args.partial_rotary_factor = None;
    assert_eq!(args.partial_rotary_factor(), float(0.25));
    let linear: Vec<bool> = (0..8).map(|i| args.is_linear(i)).collect();
    assert_eq!(linear, [true, true, true, false, true, true, true, false]);
}

fn hybrid() -> qwen3_5::ModelArgs {
    qwen3_5::ModelArgs {
        model_type: String::from("qwen3_5_text"),
        hidden_size: 8,
        num_hidden_layers: 4,
        intermediate_size: 12,
        num_attention_heads: 2,
        num_key_value_heads: 1,
        head_dim: 32,
        rms_norm_eps: float(1e-6),
        vocab_size: 13,
        max_position_embeddings: 64,
        rope_theta: Some(float(5.0)),
        partial_rotary_factor: Some(float(0.5)),
        rope_parameters: None,
        full_attention_interval: 4,
        linear_num_value_heads: 4,
        linear_num_key_heads: 2,
        linear_key_head_dim: 4,
        linear_value_head_dim: 4,
        linear_conv_kernel_dim: 4,
        tie_word_embeddings: false,
        rope_scaling: None,
        quantization: None,
    }
}

#[test]
fn the_inner_packing_wins() {
    let a = QuantizationConfig { group_size: 64, bits: 4 };
    let b = QuantizationConfig { group_size: 32, bits: 8 };
    assert_eq!(wrapped_quantization(Some(a), Some(b)), Some(a));
    assert_eq!(wrapped_quantization(None, Some(b)), Some(b));
    assert_eq!(wrapped_quantization(None, None), None);
}

fn sparse(mlp_only_layers: Vec<i32>, step: i32) -> qwen3_moe::ModelArgs {
    qwen3_moe::ModelArgs {
        model_type: String::from("qwen3_moe"),
        hidden_size: 32,
        num_hidden_layers: 2,
        intermediate_size: 64,
        num_attention_heads: 2,
        rms_norm_eps: float(1e-6),
        vocab_size: 16,
        num_key_value_heads: 1,
        max_position_embeddings: 64,
        rope_theta: float(10000.0),
        head_dim: 16,
        tie_word_embeddings: true,
        num_experts: 4,
        num_experts_per_tok: 2,
        moe_intermediate_size: 32,
        decoder_sparse_step: step,
        norm_topk_prob: true,
        mlp_only_layers,
        rope_scaling: None,
        quantization: Some(QuantizationConfig { group_size: 32, bits: 4 }),
    }
}

#[test]
fn dense_layers_among_sparse_ones_are_refused() {
    match qwen3_moe::Model::new(sparse(vec![1], 1)) {
        Err(e) => assert_eq!(e, Exception::DenseLayer),
        Ok(_) => panic!("layer one is dense"),
    }
    let args = sparse(vec![], 2);
    assert_eq!((args.is_sparse(0), args.is_sparse(1)), (false, true));
    assert!(qwen3_moe::Model::new(sparse(vec![], 1)).is_ok());
}

#[test]
fn experts_pick_and_blend() {
    let mut model = qwen3_moe::Model::new(sparse(vec![], 1)).unwrap().quantize(32, 4).unwrap();
    for layer in 0..2 {
        for name in ["gate_proj", "up_proj", "down_proj"] {
            let key = |part: &str| format!("model.layers.{layer}.mlp.switch_mlp.{name}.{part}");
            let set = |m: &mut qwen3_moe::Model, part: &str, columns: i32, dtype: Dtype| {
                let a = Array::external(0, vec![4, 32, columns], dtype);
                assert!(m.set_param(&key(part), a), "{}", key(part));
            };
            set(&mut model, "weight", 4, Dtype::Uint32);
            set(&mut model, "scales", 1, Dtype::Float32);
            set(&mut model, "biases", 1, Dtype::Float32);
        }
    }
    let ids = Array::integers(vec![1, 2, 3], vec![1, 3], Dtype::Int32).unwrap();
    let mut cache: Vec<Option<ConcatKeyValueCache>> = Vec::new();
    let logits = model
        .forward(ModelInput { inputs: &ids, mask: None, cache: &mut cache, pad_offsets: None })
        .unwrap();
    assert_eq!(logits.shape(), &vec![1, 3, 16]);
}

#[test]
fn names_of_kernels_hold_no_nul() {
    let err = |r: Result<MetalKernel, Exception>| match r {
        Err(e) => e,
        Ok(_) => panic!("there is a NUL character"),
    };
    assert_eq!(err(MetalKernel::new("a\0", &vec![], &vec![], "")), Exception::NulInName);
    assert_eq!(err(MetalKernel::new("a", &vec!["x\0"], &vec![], "")), Exception::NulInName);
    assert_eq!(err(MetalKernel::new("a", &vec![], &vec!["\0"], "")), Exception::NulInName);
    assert_eq!(err(MetalKernel::new("a", &vec![], &vec![], "x\0")), Exception::NulInSource);
    let kernel = MetalKernel::new("a", &vec!["x"], &vec!["y"], "").unwrap();
    let x = Array::from_int(1);
    let r = kernel.apply(
        &vec![x],
        &vec![TemplateArg::Bool("F\0", true)],
        (1, 1, 1),
        (1, 1, 1),
        &vec![vec![1]],
        &vec![Dtype::Int32],
    );
    match r {
        Err(e) => assert_eq!(e, Exception::NulInTemplate),
        Ok(_) => panic!("there is a NUL character"),
    }
}

#[test]
fn kernels_give_an_array_for_every_output() {
    let kernel = MetalKernel::new("two", &vec!["x"], &vec!["y", "z"], "").unwrap();
    let outs = kernel
        .apply(
            &vec![Array::from_int(1)],
            &vec![TemplateArg::Dtype("T", Dtype::Bfloat16), TemplateArg::Int("N", 3)],
            (2, 3, 4),
            (1, 1, 1),
            &vec![vec![1, 2], vec![3]],
            &vec![Dtype::Int32, Dtype::Float16],
        )
        .unwrap();
    assert_eq!(outs.len(), 2);
    assert_eq!(outs[0].shape(), &vec![1, 2]);
    assert_eq!((outs[1].dtype(), outs[1].node.kind), (Dtype::Float16, Kind::KernelOutput { output: 1 }));
    assert_eq!(outs[1].node.kernel.as_ref().unwrap().grid, (2, 3, 4));
}

#[test]
fn operands_that_do_not_fit() {
    let a = Array::external(0, vec![2, 3], Dtype::Float32);
    let b = Array::external(1, vec![4, 3], Dtype::Float32);
    let fails = |r: Result<Array, Exception>| match r {
        Err(e) => assert_eq!(e, Exception::Operands),
        Ok(_) => panic!("these do not fit"),
    };
    fails(a.add(&b));
    fails(a.reshape(&vec![4, 2]));
    fails(a.reshape(&vec![-1, 4]));
    fails(a.transpose_axes(vec![0, 0]));
    fails(a.select(0, 2));
    fails(a.select(2, 0));
    fails(a.squeeze(0));
    assert_eq!(a.reshape(&vec![3, -1]).unwrap().shape(), &vec![3, 2]);
    assert_eq!(a.slice(1, -2, 100).unwrap().shape(), &vec![2, 2]);
    assert_eq!(a.select(-1, -1).unwrap().shape(), &vec![2]);
}

#[test]
fn masks_are_chosen_by_the_caches() {
    let h = Array::external(0, vec![1, 4, 8], Dtype::Float32);
    let one = Array::external(0, vec![1, 1, 8], Dtype::Float32);
    let cache = vec![Some(ConcatKeyValueCache::fresh())];
    assert!(create_attention_mask(&one, &cache, Some(true)).unwrap().is_none());
    match create_attention_mask(&h, &cache, None).unwrap() {
        Some(AttentionMask::Causal) => {}
        _ => panic!("no array was asked for"),
    }
    let mut cache = vec![Some(ConcatKeyValueCache::new())];
    let kv = Array::external(1, vec![1, 1, 2, 8], Dtype::Float32);
    cache[0].as_mut().unwrap().update_and_fetch(kv.share(), kv.share()).unwrap();
    match create_attention_mask(&h, &cache, Some(true)).unwrap() {
        Some(AttentionMask::Array(m)) => assert_eq!(m.shape(), &vec![4, 6]),
        _ => panic!("an array was asked for"),
    }
}

#[test]
fn caches_grow_in_blocks() {
    let mut cache = ConcatKeyValueCache::new();
    assert_eq!((cache.offset(), cache.max_size(), cache.is_quantized()), (0, None, false));
    assert_eq!((cache.group_size(), cache.bits()), (None, None));
    assert!(cache.state_arrays().is_empty());
    let kv = |n: i32| Array::external(0, vec![1, 2, n, 4], Dtype::Bfloat16);
    cache.update_and_fetch(kv(5), kv(5)).unwrap();
    assert_eq!(cache.state_arrays()[0].shape(), &vec![1, 2, 256, 4]);
    cache.update_and_fetch(kv(251), kv(251)).unwrap();
    assert_eq!(cache.state_arrays()[1].shape(), &vec![1, 2, 256, 4]);
    cache.update_and_fetch(kv(1), kv(1)).unwrap();
    assert_eq!(cache.state_arrays()[0].shape(), &vec![1, 2, 512, 4]);
    assert_eq!(cache.state_arrays()[0].dtype(), Dtype::Bfloat16);
    // Keys of another width do not fit what is held.
    let other = || Array::external(0, vec![1, 2, 1, 3], Dtype::Bfloat16);
    match cache.update_and_fetch(other(), other()) {
        Err(e) => assert_eq!(e, Exception::Operands),
        Ok(_) => panic!("the widths differ"),
    }
}

#[test]
fn windows_hold_the_latest_tokens() {
    let short: Vec<u32> = (0..10).collect();
    assert_eq!(repeat_window(&short), &short[..]);
    let long: Vec<u32> = (0..300).collect();
    assert_eq!(repeat_window(&long), &long[44..]);
}

#[test]
fn patches_are_laid_out_square_by_square() {
    assert_eq!(
        grid_layout(1, 4, 4, 2),
        vec![
            (0, 0), (0, 1), (1, 0), (1, 1),
            (0, 2), (0, 3), (1, 2), (1, 3),
            (2, 0), (2, 1), (3, 0), (3, 1),
            (2, 2), (2, 3), (3, 2), (3, 3),
        ]
    );
    let two = grid_layout(2, 2, 4, 2);
    assert_eq!(&two[..8], &two[8..]);
    // Rows and columns that fill no square are left out.
    assert_eq!(grid_layout(1, 3, 5, 2).len(), 8);
    assert!(grid_layout(0, 4, 4, 2).is_empty());
}

#[test]
fn roots() {
    for n in [1, 2, 3, 4, 15, 16, 17, 2303, 2304, 46340 * 46340, i32::MAX] {
        let r = whole_root(n) as i64;
        assert!(r * r <= n as i64 && n as i64 <= (r + 1) * (r + 1), "{n}: {r}");
    }
}
