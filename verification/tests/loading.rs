//! Reading indexes, renaming arrays and putting them into models.

use mlx_lm::array::{Array, Dtype, Kind};
use mlx_lm::error::Exception;
use mlx_lm::index::{index_files, listed_files, IndexError};
use mlx_lm::models::deepseek_v2;
use mlx_lm::models::llama::{
    build_llama_model, fused_sizes, load_llama_model, load_phi3_model, split_fused,
    split_fused_key, FusedSizes, Model, ModelArgs,
};
use mlx_lm::models::qwen3::QuantizationConfig;
use mlx_lm::models::qwen3_5_vision::{
    load_vision_tower, tower_weights, VisionConfig, VisionModel,
};
use mlx_lm::nn::{AnyLinear, MaybeQuantized, Quantizable};
use mlx_lm::params::Parameters;
use mlx_lm::scalar::Float;
use mlx_lm::weights::{
    load_text_files, load_weights_remapped, map_key, replace_first, shard_files, text_weights,
    weight_files, Remap,
};

fn float(x: f32) -> Float {
    Float { bits: x.to_bits() }
}

fn args(quantization: Option<QuantizationConfig>) -> ModelArgs {
    ModelArgs {
        model_type: String::from("llama"),
        hidden_size: 64,
        num_hidden_layers: 2,
        intermediate_size: 128,
        num_attention_heads: 4,
        rms_norm_eps: float(1e-5),
        vocab_size: 64,
        num_key_value_heads: 2,
        max_position_embeddings: 128,
        rope_theta: float(10000.0),
        head_dim: None,
        tie_word_embeddings: false,
        attention_bias: true,
        mlp_bias: false,
        rope_scaling: None,
        quantization,
    }
}

fn packed() -> Model {
    build_llama_model(args(Some(QuantizationConfig { group_size: 32, bits: 4 }))).unwrap()
}

fn plain() -> Model {
    build_llama_model(args(None)).unwrap()
}

/// A checkpoint whose arrays are numbered in order.
fn checkpoint(names: &[&str], shape: &[i32]) -> Vec<(String, Array)> {
    names
        .iter()
        .enumerate()
        .map(|(i, n)| {
            (String::from(*n), Array::external(i as u64, shape.to_vec(), Dtype::Float32))
        })
        .collect()
}

fn number(a: &Array) -> u64 {
    match a.node.kind {
        Kind::External { id } => id,
        _ => panic!("not loaded"),
    }
}

fn texts(v: &[&str]) -> Vec<String> {
    v.iter().map(|s| String::from(*s)).collect()
}

#[test]
fn index_names_every_file_once() {
    let json = r#"{
        "metadata": {"total_size": 7},
        "weight_map": {
            "a.weight": "model-00001.safetensors",
            "b.weight": "model-00002.safetensors",
            "c.weight": "model-00001.safetensors"
        }
    }"#;
    let files = index_files(json).unwrap();
    assert_eq!(files.len(), 2);
    assert!(files.contains(&String::from("model-00001.safetensors")));
    assert!(files.contains(&String::from("model-00002.safetensors")));
}

#[test]
fn index_without_a_map_names_nothing() {
    assert_eq!(index_files("{"), Err(IndexError::NotJson));
    assert_eq!(index_files("weight_map"), Err(IndexError::NotJson));
    assert_eq!(index_files("{}"), Ok(texts(&[])));
    assert_eq!(index_files("[1, 2]"), Ok(texts(&[])));
    assert_eq!(index_files(r#"{"weight_map": "x"}"#), Ok(texts(&[])));
    assert_eq!(index_files(r#"{"weight_map": {"a": "x", "b": 3}}"#), Ok(texts(&["x"])));
}

#[test]
fn members_are_listed_without_their_repeats() {
    let some = |s: &str| Some(String::from(s));
    assert_eq!(
        listed_files(&Some(vec![some("b"), None, some("a"), some("b")])),
        texts(&["b", "a"])
    );
    assert_eq!(listed_files(&Some(vec![None])), texts(&[]));
    assert_eq!(listed_files(&None), texts(&[]));
}

#[test]
fn files_keep_their_first_places() {
    assert_eq!(weight_files(&texts(&["b", "a", "b", "c", "a"])), texts(&["b", "a", "c"]));
    assert_eq!(weight_files(&texts(&[])), texts(&[]));
}

#[test]
fn shards_are_sorted_and_others_left_out() {
    let names = texts(&[
        "model-00003-of-3.safetensors",
        "config.json",
        "model-00001-of-3.safetensors",
        "model.safetensors",
        "model-00002-of-3.safetensors",
        "model-x.bin",
    ]);
    assert_eq!(
        shard_files(&names),
        texts(&[
            "model-00001-of-3.safetensors",
            "model-00002-of-3.safetensors",
            "model-00003-of-3.safetensors",
        ])
    );
    assert_eq!(shard_files(&texts(&["config.json"])), texts(&["model.safetensors"]));
}

#[test]
fn scaled_weights_go_one_level_down() {
    let model = packed();
    let loaded = checkpoint(
        &["l.weight", "l.scales", "l.biases", "l.bias", "norm.weight", "norm.bias"],
        &[1],
    );
    let map = |rule: Remap, key: &str| map_key(rule, &model, &loaded, key);
    assert_eq!(map(Remap::ScaledWeight, "l.weight"), "l.inner.weight");
    assert_eq!(map(Remap::ScaledWeight, "l.bias"), "l.bias");
    assert_eq!(map(Remap::ScaledWeight, "norm.weight"), "norm.weight");
    assert_eq!(map(Remap::ScaledWeightAndBias, "l.weight"), "l.inner.weight");
    assert_eq!(map(Remap::ScaledWeightAndBias, "l.bias"), "l.inner.bias");
    assert_eq!(map(Remap::ScaledWeightAndBias, "norm.bias"), "norm.bias");
    for rule in [
        Remap::AsStored,
        Remap::ScaledWeight,
        Remap::ScaledWeightAndBias,
        Remap::InnerWeight,
        Remap::InnerWeightAndBias,
        Remap::RoutedInnerWeight,
    ] {
        assert_eq!(map(rule, "l.scales"), "l.scales");
        assert_eq!(map(rule, "l.biases"), "l.biases");
    }
    assert_eq!(map(Remap::AsStored, "l.weight"), "l.weight");
}

#[test]
fn weights_go_down_where_the_model_has_them() {
    let model = packed();
    let none = checkpoint(&[], &[1]);
    let map = |rule: Remap, key: &str| map_key(rule, &model, &none, key);
    let q = "model.layers.0.self_attn.q_proj";
    assert_eq!(map(Remap::InnerWeight, &format!("{q}.weight")), format!("{q}.inner.weight"));
    assert_eq!(map(Remap::InnerWeight, &format!("{q}.bias")), format!("{q}.bias"));
    assert_eq!(
        map(Remap::InnerWeightAndBias, &format!("{q}.bias")),
        format!("{q}.inner.bias")
    );
    assert_eq!(map(Remap::InnerWeight, "model.norm.weight"), "model.norm.weight");
    assert_eq!(map(Remap::InnerWeight, "nowhere.weight"), "nowhere.weight");
    assert_eq!(replace_first("a.mlp.b.mlp.c", ".mlp.", ".mlp_moe."), "a.mlp_moe.b.mlp.c");
    assert_eq!(replace_first("abc", ".mlp.", "x"), "abc");
}

#[test]
fn feed_forward_parts_are_routed() {
    let model = deepseek_v2::Model::new(deepseek_v2::ModelArgs {
        model_type: String::from("deepseek_v2"),
        hidden_size: 64,
        num_hidden_layers: 2,
        intermediate_size: 128,
        num_attention_heads: 2,
        num_key_value_heads: 2,
        rms_norm_eps: float(1e-6),
        vocab_size: 64,
        rope_theta: float(10000.0),
        max_position_embeddings: 64,
        tie_word_embeddings: false,
        q_lora_rank: None,
        kv_lora_rank: 32,
        qk_nope_head_dim: 32,
        qk_rope_head_dim: 32,
        v_head_dim: 32,
        attention_bias: false,
        n_routed_experts: 4,
        num_experts_per_tok: 2,
        moe_intermediate_size: 64,
        n_shared_experts: 1,
        first_k_dense_layers: 1,
        moe_layer_freq: 1,
        routed_scaling_factor: float(1.0),
        rope_scaling: None,
        quantization: Some(QuantizationConfig { group_size: 32, bits: 4 }),
    })
    .unwrap();
    let model = model.quantize(32, 4).unwrap();
    let none = checkpoint(&[], &[1]);
    let map = |key: &str| map_key(Remap::RoutedInnerWeight, &model, &none, key);
    assert_eq!(
        map("model.layers.0.mlp.gate_proj.weight"),
        "model.layers.0.mlp_dense.gate_proj.inner.weight"
    );
    assert_eq!(
        map("model.layers.1.mlp.shared_experts.up_proj.weight"),
        "model.layers.1.mlp_moe.shared_experts.up_proj.inner.weight"
    );
    assert_eq!(
        map("model.layers.1.mlp.switch_mlp.up_proj.scales"),
        "model.layers.1.mlp_moe.switch_mlp.up_proj.scales"
    );
    assert_eq!(map("model.layers.1.mlp.nothing"), "model.layers.1.mlp.nothing");
}

#[test]
fn loaded_arrays_are_found_again() {
    let mut model = plain();
    let loaded = checkpoint(
        &["model.norm.weight", "unknown", "model.layers.1.mlp.up_proj.weight", "model.norm.weight"],
        &[3],
    );
    assert_eq!(load_weights_remapped(&mut model, &loaded, Remap::ScaledWeight), 3);
    // The later of two arrays of one name stays.
    assert_eq!(number(&model.model.norm.weight), 3);
    match &model.model.layers[1].mlp.up_proj {
        MaybeQuantized::Original(l) => assert_eq!(number(&l.weight), 2),
        MaybeQuantized::Quantized(_) => panic!("not packed"),
    }
    assert!(!model.has_param("unknown"));
    assert!(model.has_param("model.layers.0.self_attn.q_proj.bias"));
    assert!(!model.has_param("model.layers.2.self_attn.q_proj.bias"));
    assert!(!model.has_param("model.layers.00.self_attn.q_proj.bias"));
    // A second time changes nothing.
    assert_eq!(load_weights_remapped(&mut model, &loaded, Remap::ScaledWeight), 3);
    assert_eq!(number(&model.model.norm.weight), 3);
}

#[test]
fn packed_layers_take_their_three_parts() {
    let mut model = packed();
    let loaded = checkpoint(&["lm_head.weight", "lm_head.scales", "lm_head.biases"], &[2]);
    assert_eq!(load_weights_remapped(&mut model, &loaded, Remap::ScaledWeight), 3);
    match &model.lm_head {
        Some(MaybeQuantized::Quantized(q)) => {
            assert_eq!(number(&q.inner.weight), 0);
            assert_eq!(number(&q.scales), 1);
            assert_eq!(number(&q.biases), 2);
            assert_eq!((q.group_size, q.bits), (32, 4));
        }
        _ => panic!("the head is packed"),
    }
}

#[test]
fn packing_keeps_what_is_packed() {
    let l = AnyLinear::linear(64, 8, false).unwrap().quantize(32, 4).unwrap();
    let again = l.quantize(64, 8).unwrap();
    match again {
        MaybeQuantized::Quantized(q) => {
            assert_eq!((q.group_size, q.bits), (32, 4));
            assert_eq!(q.inner.weight.shape(), &vec![8, 8]);
            assert_eq!(q.inner.weight.dtype(), Dtype::Uint32);
            assert_eq!(q.scales.shape(), &vec![8, 2]);
        }
        MaybeQuantized::Original(_) => panic!("packed before"),
    }
    // A width that groups do not divide cannot be packed.
    match AnyLinear::linear(48, 8, false).unwrap().quantize(32, 4) {
        Err(e) => assert_eq!(e, Exception::Operands),
        Ok(_) => panic!("48 is no multiple of 32"),
    }
}

#[test]
fn text_weights_lose_their_prefix() {
    let loaded = checkpoint(
        &["language_model.a", "vision_tower.b", "visual.c", "d", "language_model.x.conv1d.weight"],
        &[6, 1, 4],
    );
    let text = text_weights(&loaded).unwrap();
    let names: Vec<&str> = text.iter().map(|(n, _)| n.as_str()).collect();
    assert_eq!(names, ["a", "d", "x.conv1d.weight"]);
    assert_eq!(text[0].1.shape(), &vec![6, 1, 4]);
    // The kernel of a convolution is brought into its order.
    assert_eq!(text[2].1.shape(), &vec![6, 4, 1]);
    let ordered = checkpoint(&["x.conv1d.weight"], &[6, 4, 1]);
    assert_eq!(number(&text_weights(&ordered).unwrap()[0].1), 0);
    let flat = checkpoint(&["x.conv1d.weight"], &[6, 4]);
    match text_weights(&flat) {
        Err(e) => assert_eq!(e, Exception::Operands),
        Ok(_) => panic!("a kernel has three axes"),
    }
}

#[test]
fn text_weights_reach_a_packed_model() {
    let mut model = packed();
    let loaded = checkpoint(
        &["language_model.lm_head.weight", "visual.lm_head.scales", "lm_head.scales"],
        &[2],
    );
    let more = checkpoint(&["model.norm.weight", "language_model.lm_head.nothing"], &[2]);
    assert_eq!(load_text_files(&mut model, &vec![loaded, more]), Ok(vec![2, 1]));
    assert_eq!(number(&model.model.norm.weight), 0);
    match &model.lm_head {
        Some(MaybeQuantized::Quantized(q)) => {
            assert_eq!(number(&q.inner.weight), 0);
            assert_eq!(number(&q.scales), 2);
        }
        _ => panic!("the head is packed"),
    }
}

#[test]
fn fused_keys_split_at_their_name() {
    assert_eq!(
        split_fused_key("model.layers.0.self_attn.qkv_proj.weight", "qkv_proj"),
        Some(("model.layers.0.self_attn", "weight"))
    );
    assert_eq!(split_fused_key("model.layers.0.mlp.down_proj.weight", "qkv_proj"), None);
    assert_eq!(split_fused_key("qkv_proj.weight", "qkv_proj"), None);
}

#[test]
fn fused_projections_are_cut_by_rows() {
    let loaded = checkpoint(&["a.qkv_proj.weight", "b.gate_up_proj.scales", "c.weight"], &[10, 3]);
    let parts = split_fused(&loaded, FusedSizes { q_out: 4, kv_out: 3, inter: 5 }).unwrap();
    let names: Vec<&str> = parts.iter().map(|(n, _)| n.as_str()).collect();
    assert_eq!(
        names,
        [
            "a.q_proj.weight",
            "a.k_proj.weight",
            "a.v_proj.weight",
            "b.gate_proj.scales",
            "b.up_proj.scales",
            "c.weight"
        ]
    );
    let cut: Vec<(i32, i32)> = parts
        .iter()
        .map(|(_, a)| match a.node.kind {
            Kind::Slice { axis: 0, start } => (start, a.shape()[0]),
            _ => (-1, a.shape()[0]),
        })
        .collect();
    assert_eq!(cut, [(0, 4), (4, 3), (7, 3), (0, 5), (5, 5), (-1, 10)]);
}

#[test]
fn fused_checkpoints_load() {
    let args = args(Some(QuantizationConfig { group_size: 32, bits: 4 }));
    let sizes = fused_sizes(&args);
    assert_eq!(sizes, FusedSizes { q_out: 64, kv_out: 32, inter: 128 });
    let loaded = checkpoint(
        &[
            "model.layers.0.self_attn.qkv_proj.weight",
            "model.layers.0.self_attn.qkv_proj.scales",
            "model.layers.0.mlp.gate_up_proj.weight",
        ],
        &[128, 8],
    );
    // Three parts with scales beside them, three scales, and two parts without scales, which the
    // packed layers do not have under their plain names.
    let (model, matched) = load_phi3_model(args, &loaded).unwrap();
    assert_eq!(matched, 6);
    match &model.model.layers[0].self_attn.k_proj {
        MaybeQuantized::Quantized(q) => {
            assert_eq!(q.inner.weight.shape(), &vec![32, 8]);
            assert_eq!(q.inner.weight.node.kind, Kind::Slice { axis: 0, start: 64 });
        }
        MaybeQuantized::Original(_) => panic!("packed"),
    }
}

#[test]
fn files_load_one_after_the_other() {
    let quantization = Some(QuantizationConfig { group_size: 32, bits: 4 });
    let files = vec![
        checkpoint(&["lm_head.weight", "lm_head.scales", "model.norm.weight"], &[2]),
        checkpoint(&["other", "model.norm.weight"], &[2]),
    ];
    let (model, counts) = load_llama_model(args(quantization), &files).unwrap();
    assert_eq!(counts, vec![3, 1]);
    // The later file wins.
    assert_eq!(number(&model.model.norm.weight), 1);
    assert_eq!(model.args.hidden_size, 64);
    assert_eq!(model.model_type(), "llama");
    // Scales in another file do not send a weight down.
    let apart = vec![checkpoint(&["lm_head.weight"], &[2]), checkpoint(&["lm_head.scales"], &[2])];
    let (_, counts) = load_llama_model(args(quantization), &apart).unwrap();
    assert_eq!(counts, vec![0, 1]);
}

fn tower() -> VisionConfig {
    VisionConfig {
        depth: 1,
        hidden_size: 8,
        num_heads: 2,
        intermediate_size: 16,
        patch_size: 2,
        spatial_merge_size: 2,
        temporal_patch_size: 2,
        in_channels: 3,
        out_hidden_size: 6,
        num_position_embeddings: 9,
    }
}

#[test]
fn tower_takes_only_its_own_weights() {
    let loaded = checkpoint(
        &["vision_tower.patch_embed.proj.weight", "language_model.a", "vision_tower.pos_embed.weight"],
        &[8, 2, 2, 2, 3],
    );
    let own = tower_weights(&loaded, 24).unwrap();
    let names: Vec<&str> = own.iter().map(|(n, _)| n.as_str()).collect();
    assert_eq!(names, ["patch_embed.proj.weight", "pos_embed.weight"]);
    // The kernel of the patches becomes a matrix, channels before time and space.
    assert_eq!(own[0].1.shape(), &vec![8, 24]);
    assert_eq!(own[0].1.node.args[0].node.ints, vec![0, 4, 1, 2, 3]);
    assert_eq!(own[1].1.shape(), &vec![8, 2, 2, 2, 3]);
    let (model, counts) = load_vision_tower(&tower(), &vec![loaded]).unwrap();
    assert_eq!(counts, vec![2]);
    assert_eq!(model.blocks.len(), 1);
    let wrong = checkpoint(&["vision_tower.patch_embed.proj.weight"], &[8, 2, 2, 2, 4]);
    match load_vision_tower(&tower(), &vec![wrong]) {
        Err(e) => assert_eq!(e, Exception::Operands),
        Ok(_) => panic!("a patch has 24 numbers"),
    }
}

#[test]
fn tower_gives_a_token_for_every_square() {
    let model = VisionModel::new(&tower()).unwrap();
    let pixels = Array::external(0, vec![24, 24], Dtype::Float32);
    let out = model.forward(&pixels, (1, 4, 6)).unwrap();
    assert_eq!(out.shape(), &vec![6, 6]);
}
