//! The error type shared by every array operation.

use vstd::prelude::*;

verus! {

/// A numeric entry of a scaling configuration.
#[derive(Clone, Copy, PartialEq, Eq, Debug, Structural)]
pub enum RopeKey {
    Factor,
    LowFreqFactor,
    HighFreqFactor,
    OriginalMaxPositionEmbeddings,
    BetaFast,
    BetaSlow,
    Mscale,
    MscaleAllDim,
}

/// Why a computation could not be built.
#[derive(Clone, Copy, PartialEq, Eq, Debug, Structural)]
pub enum Exception {
    /// The operands of an array operation do not fit together.
    Operands,
    /// A layer needs an explicit mask array and was given the implicit causal mask.
    ArrayMaskOnly,
    /// A layer met the cache of the other kind.
    CacheKind,
    /// A layer list holds a dense layer where only sparse layers can be built.
    DenseLayer,
    /// The scaling configuration names a rotary embedding that does not exist.
    RopeType,
    /// The scaling configuration names a rotary embedding that is known but not implemented.
    RopeUnavailable,
    /// The scaling configuration lacks a key.
    MissingRopeKey(RopeKey),
    /// A value of the scaling configuration is not a number.
    InvalidRopeNumber(RopeKey),
    /// The name of a kernel, or of one of its arguments, holds a NUL character.
    NulInName,
    /// The source of a kernel holds a NUL character.
    NulInSource,
    /// The name of a kernel's template parameter holds a NUL character.
    NulInTemplate,
}

} // verus!
