//! The model families.

pub mod decoder;
pub mod deepseek_v2;
pub mod gated_delta;
pub mod gemma3;
pub mod generate;
pub mod glm4;
pub mod glm4_moe;
pub mod gpt_oss;
pub mod hybrid;
pub mod llama;
pub mod qwen2;
pub mod qwen3;
pub mod qwen3_5;
pub mod qwen3_5_moe;
pub mod qwen3_5_vision;
pub mod qwen3_moe;
pub mod sampling;
