//! GLM-4 with routed experts: its configuration.

use crate::scalar::{Float, ONE_BITS};
use vstd::prelude::*;

verus! {

/// The part of the configuration that routes tokens to experts.
pub struct MoeArgs {
    pub num_experts: i32,
    pub num_experts_per_tok: i32,
    pub moe_intermediate_size: i32,
    pub n_shared_experts: i32,
    pub norm_topk_prob: bool,
    /// The number of groups of experts; routing looks at groups first where there are several.
    pub n_group: i32,
    pub topk_group: i32,
    pub routed_scaling_factor: Float,
    /// The number of leading layers without routed experts.
    pub first_k_dense_layers: i32,
    /// The width of the packed router, where it differs from the rest.
    pub router_bits: i32,
    /// Layers that predict further tokens; they are read and not used.
    pub num_nextn_predict_layers: i32,
}

/// The value of a count that is one unless it is set otherwise.
pub fn one() -> (r: i32)
    ensures
        r == 1,
{
    1
}

/// The value of a factor that is one unless it is set otherwise.
pub fn one_f32() -> (r: Float)
    ensures
        r == (Float { bits: ONE_BITS }),
{
    Float { bits: ONE_BITS }
}

/// A feed-forward layer of routed experts.
pub struct GlmSparseMoeBlock {}

} // verus!
