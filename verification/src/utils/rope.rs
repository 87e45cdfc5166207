//! Rotary position embeddings and the configuration that picks among them.

use std::sync::Arc;

use crate::array::{tn, Array, Dtype, Term, Tn};
use crate::error::{Exception, RopeKey};
use crate::fast::{rope_device, rope_dynamic_device, t_rope, t_rope_dynamic};
use crate::nn::Rope;
use crate::ops::create::{arange, t_arange, t_scalar};
use crate::ops::elementwise::{
    t_add, t_cast, t_divide, t_eq, t_gt, t_logical_and, t_lt, t_maximum, t_minimum, t_multiply,
    t_power, t_reciprocal, t_subtract, t_where, which,
};
use crate::ops::select::{concatenate_axis, t_concatenate, t_slice, OPEN};
use crate::scalar::{lit, Float, Scalar, ONE_BITS, TWO_BITS, ZERO_BITS};
use crate::text::same_text;
use vstd::prelude::*;

verus! {

/// A value of a scaling configuration, borrowed.
pub enum FloatOrStr<'a> {
    Float(Float),
    Str(&'a str),
}

/// A value of a scaling configuration: a number, or a text together with the number that it reads
/// as, where it reads as one.
pub enum FloatOrString {
    Float(Float),
    String(String, Option<Float>),
}

impl FloatOrString {
    /// The value, borrowed.
    pub fn borrowed(&self) -> (r: FloatOrStr<'_>)
        ensures
            match (self, r) {
                (FloatOrString::Float(f), FloatOrStr::Float(g)) => *f == g,
                (FloatOrString::String(s, _), FloatOrStr::Str(t)) => s@ == t@,
                _ => false,
            },
    {
        match self {
            FloatOrString::Float(f) => FloatOrStr::Float(*f),
            FloatOrString::String(s, _) => FloatOrStr::Str(s.as_str()),
        }
    }
}

/// A scaling configuration: values under their keys.
pub type ScalingConfig = Vec<(String, FloatOrString)>;

/// The value under a key.
pub open spec fn lookup(config: Seq<(String, FloatOrString)>, key: Seq<char>) -> Option<
    FloatOrString,
>
    decreases config.len(),
{
    if config.len() == 0 {
        None
    } else if config[0].0@ == key {
        Some(config[0].1)
    } else {
        lookup(config.skip(1), key)
    }
}

/// Finds the value under a key.
pub fn get<'a>(config: &'a ScalingConfig, key: &str) -> (r: Option<&'a FloatOrString>)
    ensures
        match r {
            Some(v) => lookup(config@, key@) == Some(*v),
            None => lookup(config@, key@) is None,
        },
{
    let mut i: usize = 0;
    proof {
        assert(config@.skip(0) =~= config@);
    }
    while i < config.len()
        invariant
            i <= config.len(),
            lookup(config@, key@) == lookup(config@.skip(i as int), key@),
        decreases config.len() - i,
    {
        proof {
            assert(config@.skip(i as int).skip(1) =~= config@.skip(i + 1));
        }
        if same_text(config[i].0.as_str(), key) {
            return Some(&config[i].1);
        }
        i += 1;
    }
    None
}

/// The name of a numeric entry.
pub open spec fn key_name(key: RopeKey) -> Seq<char> {
    match key {
        RopeKey::Factor => "factor"@,
        RopeKey::LowFreqFactor => "low_freq_factor"@,
        RopeKey::HighFreqFactor => "high_freq_factor"@,
        RopeKey::OriginalMaxPositionEmbeddings => "original_max_position_embeddings"@,
        RopeKey::BetaFast => "beta_fast"@,
        RopeKey::BetaSlow => "beta_slow"@,
        RopeKey::Mscale => "mscale"@,
        RopeKey::MscaleAllDim => "mscale_all_dim"@,
    }
}

impl RopeKey {
    /// The name of the entry.
    pub fn name(self) -> (r: &'static str)
        ensures
            r@ == key_name(self),
    {
        match self {
            RopeKey::Factor => "factor",
            RopeKey::LowFreqFactor => "low_freq_factor",
            RopeKey::HighFreqFactor => "high_freq_factor",
            RopeKey::OriginalMaxPositionEmbeddings => "original_max_position_embeddings",
            RopeKey::BetaFast => "beta_fast",
            RopeKey::BetaSlow => "beta_slow",
            RopeKey::Mscale => "mscale",
            RopeKey::MscaleAllDim => "mscale_all_dim",
        }
    }
}

/// The number under a key.
pub open spec fn numeric(config: Seq<(String, FloatOrString)>, key: RopeKey) -> Result<
    Float,
    Exception,
> {
    match lookup(config, key_name(key)) {
        Some(FloatOrString::Float(f)) => Ok(f),
        Some(FloatOrString::String(_, Some(f))) => Ok(f),
        Some(FloatOrString::String(_, None)) => Err(Exception::InvalidRopeNumber(key)),
        None => Err(Exception::MissingRopeKey(key)),
    }
}

/// Reads the number under a key. A text counts where it reads as a number.
pub fn get_numeric_from_config(config: &ScalingConfig, key: RopeKey) -> (r: Result<
    Float,
    Exception,
>)
    ensures
        r == numeric(config@, key),
{
    match get(config, key.name()) {
        Some(FloatOrString::Float(f)) => Ok(*f),
        Some(FloatOrString::String(_, Some(f))) => Ok(*f),
        Some(FloatOrString::String(_, None)) => Err(Exception::InvalidRopeNumber(key)),
        None => Err(Exception::MissingRopeKey(key)),
    }
}

/// The number under a key, or a number that stands in for one that is not there.
pub open spec fn numeric_or(
    config: Seq<(String, FloatOrString)>,
    key: RopeKey,
    default: Float,
) -> Result<Float, Exception> {
    match lookup(config, key_name(key)) {
        Some(_) => numeric(config, key),
        None => Ok(default),
    }
}

/// Reads the number under a key, or gives the number that stands in for one that is not there.
pub fn get_numeric_or(config: &ScalingConfig, key: RopeKey, default: Float) -> (r: Result<
    Float,
    Exception,
>)
    ensures
        r == numeric_or(config@, key, default),
{
    match get(config, key.name()) {
        Some(_) => get_numeric_from_config(config, key),
        None => Ok(default),
    }
}

/// Rotary embedding with precomputed wavelengths, stretched piecewise.
pub struct Llama3Rope {
    pub dimensions: i32,
    pub traditional: bool,
    pub scale: Scalar,
    /// The stretched wavelengths.
    pub freqs: Array,
}

/// The quotient of two scalars.
pub open spec fn ratio(a: Scalar, b: Scalar) -> Scalar {
    Scalar::Quotient(Arc::new(a), Arc::new(b))
}

/// The wavelengths before stretching: `base ^ (2i / dims)`.
pub open spec fn base_freqs(dims: i32, base: Scalar) -> Tn {
    t_power(
        t_scalar(base),
        t_multiply(
            t_arange(0, (dims / 2) as i32, Dtype::Float32),
            t_scalar(ratio(lit(TWO_BITS), Scalar::Int(dims))),
        ),
    )
}

/// The stretched wavelengths. Those past the low cutoff are multiplied by `factor`; those between
/// the cutoffs are divided by a mean of `1 / factor` and one that moves with the wavelength; the
/// rest stay.
pub open spec fn llama3_freqs(
    freqs: Tn,
    context: Scalar,
    factor: Scalar,
    low: Scalar,
    high: Scalar,
) -> Tn {
    let wavelens = t_multiply(
        freqs,
        t_scalar(Scalar::Product(Arc::new(lit(TWO_BITS)), Arc::new(Scalar::Pi))),
    );
    let low_cut = t_scalar(ratio(context, low));
    let high_cut = t_scalar(ratio(context, high));
    let stretched = t_where(
        t_gt(wavelens, low_cut),
        t_multiply(freqs, t_scalar(factor)),
        freqs,
    );
    let is_medium = t_logical_and(t_gt(wavelens, high_cut), t_lt(wavelens, low_cut));
    let smooth = t_divide(
        t_subtract(t_multiply(t_reciprocal(wavelens), t_scalar(context)), t_scalar(low)),
        t_scalar(Scalar::Difference(Arc::new(high), Arc::new(low))),
    );
    let denominator = t_add(
        t_divide(t_subtract(t_scalar(lit(ONE_BITS)), smooth), t_scalar(factor)),
        smooth,
    );
    t_where(is_medium, t_divide(stretched, denominator), stretched)
}

impl Llama3Rope {
    /// The embedding of `x`, whose first position is `offset`.
    pub open spec fn apply(&self, x: Tn, offset: i32) -> Tn {
        t_rope(
            x,
            self.dimensions,
            self.traditional,
            None,
            self.scale,
            offset,
            Some(self.freqs@),
        )
    }

    /// An embedding of `dims` features that were trained on
    /// `original_max_position_embeddings` positions.
    pub fn new(
        dims: i32,
        traditional: bool,
        original_max_position_embeddings: i32,
        base: Scalar,
        factor: Scalar,
        low_freq_factor: Scalar,
        high_freq_factor: Scalar,
    ) -> (r: Result<Llama3Rope, Exception>)
        ensures
            match r {
                Ok(rope) => {
                    &&& rope.dimensions == dims
                    &&& rope.traditional == traditional
                    &&& rope.scale == lit(ONE_BITS)
                    &&& llama3_freqs(
                        base_freqs(dims, base),
                        Scalar::Int(original_max_position_embeddings),
                        factor,
                        low_freq_factor,
                        high_freq_factor,
                    ) == Ok::<Term, Exception>(rope.freqs@)
                },
                Err(e) => llama3_freqs(
                    base_freqs(dims, base),
                    Scalar::Int(original_max_position_embeddings),
                    factor,
                    low_freq_factor,
                    high_freq_factor,
                ) == Err::<Term, Exception>(e),
            },
    {
        let half_dims: i32 = dims / 2;
        let indices = arange(0, half_dims, Dtype::Float32)?;
        let step = Scalar::lit(TWO_BITS).over(Scalar::Int(dims));
        let exponents = indices.multiply(&Array::from_scalar(step))?;
        let freqs = Array::from_scalar(base).power(&exponents)?;
        let context = Scalar::Int(original_max_position_embeddings);
        let low_cut = Array::from_scalar(context.copy().over(low_freq_factor.copy()));
        let high_cut = Array::from_scalar(context.copy().over(high_freq_factor.copy()));
        let two_pi = Array::from_scalar(Scalar::lit(TWO_BITS).times(Scalar::Pi));
        let wavelens = freqs.multiply(&two_pi)?;
        let is_low = wavelens.gt(&low_cut)?;
        let longer = freqs.multiply(&Array::from_scalar(factor.copy()))?;
        let stretched = which(&is_low, &longer, &freqs)?;
        let above = wavelens.gt(&high_cut)?;
        let below = wavelens.lt(&low_cut)?;
        let is_medium = above.logical_and(&below)?;
        let smooth = wavelens.reciprocal()?;
        let smooth = smooth.multiply(&Array::from_scalar(context))?;
        let smooth = smooth.subtract(&Array::from_scalar(low_freq_factor.copy()))?;
        let width = high_freq_factor.minus(low_freq_factor);
        let smooth = smooth.divide(&Array::from_scalar(width))?;
        let rest = Array::from_scalar(Scalar::lit(ONE_BITS)).subtract(&smooth)?;
        let denominator = rest.divide(&Array::from_scalar(factor))?.add(&smooth)?;
        let smooth_freqs = stretched.divide(&denominator)?;
        let freqs = which(&is_medium, &smooth_freqs, &stretched)?;
        Ok(Llama3Rope { dimensions: dims, traditional, scale: Scalar::lit(ONE_BITS), freqs })
    }

    /// Embeds positions from `offset` on.
    pub fn forward(&self, x: &Array, offset: i32) -> (r: Result<Array, Exception>)
        ensures
            tn(r) == self.apply(Ok(x@), offset),
    {
        rope_device(
            x,
            self.dimensions,
            self.traditional,
            None,
            self.scale.copy(),
            offset,
            Some(&self.freqs),
        )
    }
}

/// The bit pattern of the number of turns above which wavelengths stay, `32`.
pub const BETA_FAST_BITS: u32 = 0x4200_0000;

/// The bit pattern of the number of positions where none is set, `4096`.
pub const YARN_CONTEXT_BITS: u32 = 0x4580_0000;

/// The bit pattern of the least width of a ramp, `0.001`.
pub const RAMP_WIDTH_BITS: u32 = 0x3a83_126f;

/// The bit pattern of the weight of the logarithm of the factor, `0.1`.
pub const MSCALE_BITS: u32 = 0x3dcc_cccd;

/// Rotary embedding with wavelengths interpolated between those of training and those of a context
/// `factor` times as long. The features that turn are scaled first.
pub struct YarnRope {
    pub dimensions: i32,
    pub traditional: bool,
    /// The interpolated wavelengths.
    pub freqs: Array,
    /// What the features that turn are multiplied by.
    pub mscale: Scalar,
}

/// The dimension whose wavelength turns `rotations` times within the context, as a number:
/// `dims * ln(context / (rotations * 2 * pi)) / (2 * ln(base))`.
pub open spec fn yarn_dim(dims: i32, base: Scalar, context: Scalar, rotations: Scalar) -> Scalar {
    let turns = Scalar::Product(
        Arc::new(Scalar::Product(Arc::new(rotations), Arc::new(lit(TWO_BITS)))),
        Arc::new(Scalar::Pi),
    );
    ratio(
        Scalar::Product(
            Arc::new(Scalar::Int(dims)),
            Arc::new(Scalar::Logarithm(Arc::new(ratio(context, turns)))),
        ),
        Scalar::Product(Arc::new(lit(TWO_BITS)), Arc::new(Scalar::Logarithm(Arc::new(base)))),
    )
}

/// The first dimension of the ramp.
pub open spec fn yarn_low(dims: i32, base: Scalar, context: Scalar, beta_fast: Scalar) -> Scalar {
    Scalar::Larger(
        Arc::new(Scalar::Floor(Arc::new(yarn_dim(dims, base, context, beta_fast)))),
        Arc::new(lit(ZERO_BITS)),
    )
}

/// The last dimension of the ramp.
pub open spec fn yarn_high(dims: i32, base: Scalar, context: Scalar, beta_slow: Scalar) -> Scalar {
    Scalar::Smaller(
        Arc::new(Scalar::Ceiling(Arc::new(yarn_dim(dims, base, context, beta_slow)))),
        Arc::new(Scalar::Difference(Arc::new(Scalar::Int(dims)), Arc::new(lit(ONE_BITS)))),
    )
}

/// A ramp over `n` dimensions that rises from zero at `low` to one at `high`; a ramp of no width is
/// widened a little.
pub open spec fn yarn_ramp(n: i32, low: Scalar, high: Scalar) -> Tn {
    let raised = Scalar::Sum(Arc::new(high), Arc::new(lit(RAMP_WIDTH_BITS)));
    let width = t_where(
        t_eq(t_scalar(low), t_scalar(high)),
        t_scalar(Scalar::Difference(Arc::new(raised), Arc::new(low))),
        t_scalar(Scalar::Difference(Arc::new(high), Arc::new(low))),
    );
    let line = t_divide(t_subtract(t_arange(0, n, Dtype::Float32), t_scalar(low)), width);
    t_minimum(t_maximum(line, t_scalar(lit(ZERO_BITS))), t_scalar(lit(ONE_BITS)))
}

/// The interpolated wavelengths. Dimensions that turn more than `beta_fast` times within the context
/// keep theirs, those that turn less than `beta_slow` times have theirs multiplied by `factor`, and
/// between them goes a ramp: with `m` one minus the ramp, a wavelength `f` becomes
/// `factor * f * f / (factor * f * m + f * (1 - m))`.
pub open spec fn yarn_freqs(
    freqs: Tn,
    dims: i32,
    base: Scalar,
    factor: Scalar,
    context: Scalar,
    beta_fast: Scalar,
    beta_slow: Scalar,
) -> Tn {
    let inter = t_multiply(t_scalar(factor), freqs);
    let ramp = yarn_ramp(
        (dims / 2) as i32,
        yarn_low(dims, base, context, beta_fast),
        yarn_high(dims, base, context, beta_slow),
    );
    let one = t_scalar(lit(ONE_BITS));
    let mask = t_subtract(one, ramp);
    t_divide(
        t_multiply(inter, freqs),
        t_add(t_multiply(inter, mask), t_multiply(freqs, t_subtract(one, mask))),
    )
}

/// `0.1 * weight * ln(factor) + 1`, or one for a factor of one or less.
pub open spec fn weighted_mscale(factor: Float, weight: Scalar) -> Scalar {
    let one = Float { bits: ONE_BITS };
    if factor.less(one) || factor.same(one) {
        lit(ONE_BITS)
    } else {
        Scalar::Sum(
            Arc::new(
                Scalar::Product(
                    Arc::new(weight),
                    Arc::new(Scalar::Logarithm(Arc::new(Scalar::Lit(factor)))),
                ),
            ),
            Arc::new(lit(ONE_BITS)),
        )
    }
}

/// What features are scaled by: `0.1 * ln(factor) + 1`, or one for a factor of one or less.
pub open spec fn yarn_mscale(factor: Float) -> Scalar {
    weighted_mscale(factor, lit(MSCALE_BITS))
}

/// What a configuration scales features by: [`yarn_mscale`], or the quotient of two such numbers
/// where it sets a weight for either.
pub open spec fn mscale_built(config: Seq<(String, FloatOrString)>, factor: Float) -> Result<
    Scalar,
    Exception,
> {
    match (
        numeric_or(config, RopeKey::Mscale, Float { bits: ONE_BITS }),
        numeric_or(config, RopeKey::MscaleAllDim, Float { bits: ZERO_BITS }),
    ) {
        (Err(e), _) => Err(e),
        (Ok(_), Err(e)) => Err(e),
        (Ok(up), Ok(down)) => if lookup(config, key_name(RopeKey::Mscale)) is None && lookup(
            config,
            key_name(RopeKey::MscaleAllDim),
        ) is None {
            Ok(yarn_mscale(factor))
        } else {
            Ok(
                ratio(
                    weighted_mscale(factor, tenth_of(up)),
                    weighted_mscale(factor, tenth_of(down)),
                ),
            )
        },
    }
}

/// A tenth of a number.
pub open spec fn tenth_of(f: Float) -> Scalar {
    Scalar::Product(Arc::new(lit(MSCALE_BITS)), Arc::new(Scalar::Lit(f)))
}

fn weigh_mscale(factor: Float, weight: Scalar) -> (r: Scalar)
    ensures
        r == weighted_mscale(factor, weight),
{
    let one = Float { bits: ONE_BITS };
    if factor.lt(one) || factor.equals(one) {
        Scalar::lit(ONE_BITS)
    } else {
        let log = Scalar::Logarithm(Arc::new(Scalar::Lit(factor)));
        weight.times(log).plus(Scalar::lit(ONE_BITS))
    }
}

fn build_mscale(config: &ScalingConfig, factor: Float) -> (r: Result<Scalar, Exception>)
    ensures
        r == mscale_built(config@, factor),
{
    let up = get_numeric_or(config, RopeKey::Mscale, Float { bits: ONE_BITS })?;
    let down = get_numeric_or(config, RopeKey::MscaleAllDim, Float { bits: ZERO_BITS })?;
    if get(config, RopeKey::Mscale.name()).is_none() && get(
        config,
        RopeKey::MscaleAllDim.name(),
    ).is_none() {
        return Ok(weigh_mscale(factor, Scalar::lit(MSCALE_BITS)));
    }
    let up = weigh_mscale(factor, Scalar::lit(MSCALE_BITS).times(Scalar::Lit(up)));
    let down = weigh_mscale(factor, Scalar::lit(MSCALE_BITS).times(Scalar::Lit(down)));
    Ok(up.over(down))
}

/// `x` with its leading `dims` features multiplied by `mscale`, in the element type of `x`.
pub open spec fn prescaled(x: Tn, dims: i32, mscale: Scalar) -> Tn {
    match x {
        Err(e) => Err(e),
        Ok(a) => {
            let m = t_cast(t_scalar(mscale), a.dtype);
            if a.shape.len() > 0 && 0 <= dims < a.shape.last() {
                t_concatenate(
                    t_multiply(t_slice(x, -1i32, 0, dims), m),
                    t_slice(x, -1i32, dims, OPEN),
                    -1i32,
                )
            } else {
                t_multiply(x, m)
            }
        },
    }
}

fn turns_by(dims: i32, base: &Scalar, context: &Scalar, rotations: Scalar) -> (r: Scalar)
    ensures
        r == yarn_dim(dims, *base, *context, rotations),
{
    let turns = rotations.times(Scalar::lit(TWO_BITS)).times(Scalar::Pi);
    let log = Scalar::Logarithm(Arc::new(context.copy().over(turns)));
    let width = Scalar::lit(TWO_BITS).times(Scalar::Logarithm(Arc::new(base.copy())));
    Scalar::Int(dims).times(log).over(width)
}

fn ramp_over(n: i32, low: Scalar, high: Scalar) -> (r: Result<Array, Exception>)
    ensures
        tn(r) == yarn_ramp(n, low, high),
{
    let low_array = Array::from_scalar(low.copy());
    let alike = low_array.eq(&Array::from_scalar(high.copy()))?;
    let raised = high.copy().plus(Scalar::lit(RAMP_WIDTH_BITS)).minus(low.copy());
    let plain = high.minus(low);
    let width = which(&alike, &Array::from_scalar(raised), &Array::from_scalar(plain))?;
    let line = arange(0, n, Dtype::Float32)?.subtract(&low_array)?.divide(&width)?;
    let line = line.maximum(&Array::from_scalar(Scalar::lit(ZERO_BITS)))?;
    line.minimum(&Array::from_scalar(Scalar::lit(ONE_BITS)))
}

impl YarnRope {
    /// The embedding of `x`, whose first position is `offset`.
    pub open spec fn apply(&self, x: Tn, offset: i32) -> Tn {
        t_rope(
            prescaled(x, self.dimensions, self.mscale),
            self.dimensions,
            self.traditional,
            None,
            lit(ONE_BITS),
            offset,
            Some(self.freqs@),
        )
    }

    /// An embedding of `dims` features that were trained on `context` positions, for a context
    /// `factor` times as long.
    pub fn new(
        dims: i32,
        traditional: bool,
        base: Scalar,
        factor: Scalar,
        context: Scalar,
        beta_fast: Scalar,
        beta_slow: Scalar,
        mscale: Scalar,
    ) -> (r: Result<YarnRope, Exception>)
        ensures
            match (
                r,
                yarn_freqs(
                    base_freqs(dims, base),
                    dims,
                    base,
                    factor,
                    context,
                    beta_fast,
                    beta_slow,
                ),
            ) {
                (Ok(rope), Ok(f)) => {
                    &&& rope.dimensions == dims
                    &&& rope.traditional == traditional
                    &&& rope.freqs@ == f
                    &&& rope.mscale == mscale
                },
                (Err(e), Err(f)) => e == f,
                _ => false,
            },
    {
        let indices = arange(0, dims / 2, Dtype::Float32)?;
        let step = Scalar::lit(TWO_BITS).over(Scalar::Int(dims));
        let exponents = indices.multiply(&Array::from_scalar(step))?;
        let freqs = Array::from_scalar(base.copy()).power(&exponents)?;
        let inter = Array::from_scalar(factor).multiply(&freqs)?;
        let low = Scalar::Larger(
            Arc::new(Scalar::Floor(Arc::new(turns_by(dims, &base, &context, beta_fast)))),
            Arc::new(Scalar::lit(ZERO_BITS)),
        );
        let high = Scalar::Smaller(
            Arc::new(Scalar::Ceiling(Arc::new(turns_by(dims, &base, &context, beta_slow)))),
            Arc::new(Scalar::Int(dims).minus(Scalar::lit(ONE_BITS))),
        );
        let ramp = ramp_over(dims / 2, low, high)?;
        let one = Array::from_scalar(Scalar::lit(ONE_BITS));
        let mask = one.subtract(&ramp)?;
        let top = inter.multiply(&freqs)?;
        let below = inter.multiply(&mask)?.add(&freqs.multiply(&one.subtract(&mask)?)?)?;
        let freqs = top.divide(&below)?;
        Ok(YarnRope { dimensions: dims, traditional, freqs, mscale })
    }

    /// Multiplies the features that turn.
    fn prescale(&self, x: &Array) -> (r: Result<Array, Exception>)
        ensures
            tn(r) == prescaled(Ok(x@), self.dimensions, self.mscale),
    {
        let m = Array::from_scalar(self.mscale.copy()).as_dtype(x.dtype())?;
        let n: usize = x.ndim();
        if n > 0 && self.dimensions >= 0 && self.dimensions < x.shape()[n - 1] {
            let turning = x.slice(-1, 0, self.dimensions)?.multiply(&m)?;
            let rest = x.slice(-1, self.dimensions, OPEN)?;
            concatenate_axis(&turning, &rest, -1)
        } else {
            x.multiply(&m)
        }
    }

    /// Embeds positions from `offset` on.
    pub fn forward(&self, x: &Array, offset: i32) -> (r: Result<Array, Exception>)
        ensures
            tn(r) == self.apply(Ok(x@), offset),
    {
        rope_device(
            &self.prescale(x)?,
            self.dimensions,
            self.traditional,
            None,
            Scalar::lit(ONE_BITS),
            offset,
            Some(&self.freqs),
        )
    }
}

/// A rotary embedding of any sort.
pub enum RopeVariant {
    Default(Rope),
    Llama3(Llama3Rope),
    Yarn(YarnRope),
}

impl RopeVariant {
    /// The embedding of `x`, whose first position is `offset`.
    pub open spec fn apply(&self, x: Tn, offset: i32) -> Tn {
        match self {
            RopeVariant::Default(r) => r.apply(x, offset),
            RopeVariant::Llama3(r) => r.apply(x, offset),
            RopeVariant::Yarn(r) => r.apply(x, offset),
        }
    }

    /// The embedding of `x` in which row `i` starts at position `offsets[i]`.
    pub open spec fn apply_dynamic(&self, x: Tn, offsets: Tn) -> Tn {
        match self {
            RopeVariant::Default(r) => t_rope_dynamic(
                x,
                r.dimensions,
                r.traditional,
                Some(r.base),
                r.scale,
                offsets,
                None,
            ),
            RopeVariant::Llama3(r) => t_rope_dynamic(
                x,
                r.dimensions,
                r.traditional,
                None,
                r.scale,
                offsets,
                Some(r.freqs@),
            ),
            RopeVariant::Yarn(r) => t_rope_dynamic(
                prescaled(x, r.dimensions, r.mscale),
                r.dimensions,
                r.traditional,
                None,
                lit(ONE_BITS),
                offsets,
                Some(r.freqs@),
            ),
        }
    }

    /// Embeds positions from `offset` on.
    pub fn forward(&self, x: &Array, offset: i32) -> (r: Result<Array, Exception>)
        ensures
            tn(r) == self.apply(Ok(x@), offset),
    {
        match self {
            RopeVariant::Default(r) => r.forward(x, offset),
            RopeVariant::Llama3(r) => r.forward(x, offset),
            RopeVariant::Yarn(r) => r.forward(x, offset),
        }
    }

    /// Embeds each row from a position of its own on, for batches whose rows have different
    /// lengths.
    pub fn forward_dynamic(&self, x: &Array, offsets: &Array) -> (r: Result<Array, Exception>)
        ensures
            tn(r) == self.apply_dynamic(Ok(x@), Ok(offsets@)),
    {
        match self {
            RopeVariant::Default(r) => rope_dynamic_device(
                x,
                r.dimensions,
                r.traditional,
                Some(r.base.copy()),
                r.scale.copy(),
                offsets,
                None,
            ),
            RopeVariant::Llama3(r) => rope_dynamic_device(
                x,
                r.dimensions,
                r.traditional,
                None,
                r.scale.copy(),
                offsets,
                Some(&r.freqs),
            ),
            RopeVariant::Yarn(r) => rope_dynamic_device(
                &r.prescale(x)?,
                r.dimensions,
                r.traditional,
                None,
                Scalar::lit(ONE_BITS),
                offsets,
                Some(&r.freqs),
            ),
        }
    }
}

/// The sort of embedding that a configuration names; `None` where it names it by a number.
pub open spec fn rope_type(config: Option<ScalingConfig>) -> Option<Seq<char>> {
    match config {
        None => Some("default"@),
        Some(c) => {
            let entry = match lookup(c@, "type"@) {
                Some(v) => Some(v),
                None => lookup(c@, "rope_type"@),
            };
            match entry {
                None => Some("default"@),
                Some(FloatOrString::String(s, _)) => Some(s@),
                Some(FloatOrString::Float(_)) => None,
            }
        },
    }
}

/// The embedding that a configuration asks for, or the reason why there is none.
pub open spec fn rope_built(
    r: Result<RopeVariant, Exception>,
    dims: i32,
    base: Scalar,
    traditional: bool,
    config: Option<ScalingConfig>,
) -> bool {
    let kind = rope_type(config);
    if kind == Some("default"@) {
        r matches Ok(RopeVariant::Default(rope)) && rope.dimensions == dims && rope.traditional
            == traditional && rope.base == base && rope.scale == lit(ONE_BITS)
    } else if kind == Some("linear"@) {
        match numeric(config->Some_0@, RopeKey::Factor) {
            Ok(f) => r matches Ok(RopeVariant::Default(rope)) && rope.dimensions == dims
                && rope.traditional == traditional && rope.base == base && rope.scale == ratio(
                lit(ONE_BITS),
                Scalar::Lit(f),
            ),
            Err(e) => r == Err::<RopeVariant, Exception>(e),
        }
    } else if kind == Some("llama3"@) {
        let c = config->Some_0@;
        match (
            numeric(c, RopeKey::Factor),
            numeric(c, RopeKey::LowFreqFactor),
            numeric(c, RopeKey::HighFreqFactor),
            numeric(c, RopeKey::OriginalMaxPositionEmbeddings),
        ) {
            (Err(e), _, _, _) => r == Err::<RopeVariant, Exception>(e),
            (Ok(_), Err(e), _, _) => r == Err::<RopeVariant, Exception>(e),
            (Ok(_), Ok(_), Err(e), _) => r == Err::<RopeVariant, Exception>(e),
            (Ok(_), Ok(_), Ok(_), Err(e)) => r == Err::<RopeVariant, Exception>(e),
            (Ok(factor), Ok(low), Ok(high), Ok(context)) => match llama3_freqs(
                base_freqs(dims, base),
                Scalar::Int(context.truncated() as i32),
                Scalar::Lit(factor),
                Scalar::Lit(low),
                Scalar::Lit(high),
            ) {
                Err(e) => r == Err::<RopeVariant, Exception>(e),
                Ok(f) => r matches Ok(RopeVariant::Llama3(rope)) && rope.dimensions == dims
                    && rope.traditional == traditional && rope.scale == lit(ONE_BITS)
                    && rope.freqs@ == f,
            },
        }
    } else if kind == Some("yarn"@) {
        yarn_built(r, dims, base, traditional, config->Some_0@)
    } else if kind == Some("longrope"@) {
        r == Err::<RopeVariant, Exception>(Exception::RopeUnavailable)
    } else {
        r == Err::<RopeVariant, Exception>(Exception::RopeType)
    }
}

/// The embedding that a configuration with interpolated wavelengths asks for, or the reason why
/// there is none. The factor must be set; the context is 4096 positions, and the ramp goes from 32
/// turns to one, where the configuration does not set them.
pub open spec fn yarn_built(
    r: Result<RopeVariant, Exception>,
    dims: i32,
    base: Scalar,
    traditional: bool,
    c: Seq<(String, FloatOrString)>,
) -> bool {
    match (
        numeric(c, RopeKey::Factor),
        numeric_or(
            c,
            RopeKey::OriginalMaxPositionEmbeddings,
            Float { bits: YARN_CONTEXT_BITS },
        ),
        numeric_or(c, RopeKey::BetaFast, Float { bits: BETA_FAST_BITS }),
        numeric_or(c, RopeKey::BetaSlow, Float { bits: ONE_BITS }),
    ) {
        (Err(e), _, _, _) => r == Err::<RopeVariant, Exception>(e),
        (Ok(_), Err(e), _, _) => r == Err::<RopeVariant, Exception>(e),
        (Ok(_), Ok(_), Err(e), _) => r == Err::<RopeVariant, Exception>(e),
        (Ok(_), Ok(_), Ok(_), Err(e)) => r == Err::<RopeVariant, Exception>(e),
        (Ok(factor), Ok(context), Ok(fast), Ok(slow)) => match (
            mscale_built(c, factor),
            yarn_freqs(
                base_freqs(dims, base),
                dims,
                base,
                Scalar::Lit(factor),
                Scalar::Int(context.truncated() as i32),
                Scalar::Lit(fast),
                Scalar::Lit(slow),
            ),
        ) {
            (Err(e), _) => r == Err::<RopeVariant, Exception>(e),
            (Ok(_), Err(e)) => r == Err::<RopeVariant, Exception>(e),
            (Ok(m), Ok(f)) => r matches Ok(RopeVariant::Yarn(y)) && y.dimensions == dims
                && y.traditional == traditional && y.freqs@ == f && y.mscale == m,
        },
    }
}

fn build_yarn(dims: i32, base: Scalar, traditional: bool, config: &ScalingConfig) -> (r: Result<
    RopeVariant,
    Exception,
>)
    ensures
        yarn_built(r, dims, base, traditional, config@),
{
    let factor = get_numeric_from_config(config, RopeKey::Factor)?;
    let context = get_numeric_or(
        config,
        RopeKey::OriginalMaxPositionEmbeddings,
        Float { bits: YARN_CONTEXT_BITS },
    )?;
    let fast = get_numeric_or(config, RopeKey::BetaFast, Float { bits: BETA_FAST_BITS })?;
    let slow = get_numeric_or(config, RopeKey::BetaSlow, Float { bits: ONE_BITS })?;
    let mscale = build_mscale(config, factor)?;
    let rope = YarnRope::new(
        dims,
        traditional,
        base,
        Scalar::Lit(factor),
        Scalar::Int(context.to_i32()),
        Scalar::Lit(fast),
        Scalar::Lit(slow),
        mscale,
    )?;
    Ok(RopeVariant::Yarn(rope))
}

/// Builds the embedding that a configuration asks for: the plain one without a configuration, a
/// plain one with positions divided by a factor, or one with stretched or interpolated wavelengths.
/// None of them depends on the number of positions. One further sort is known and refused.
pub fn initialize_rope(
    dims: i32,
    base: Scalar,
    traditional: bool,
    scaling_config: &Option<ScalingConfig>,
    _max_position_embeddings: i32,
) -> (r: Result<RopeVariant, Exception>)
    ensures
        rope_built(r, dims, base, traditional, *scaling_config),
{
    let kind: FloatOrStr<'_> = match scaling_config {
        None => FloatOrStr::Str("default"),
        Some(c) => {
            let entry = match get(c, "type") {
                Some(v) => Some(v),
                None => get(c, "rope_type"),
            };
            match entry {
                None => FloatOrStr::Str("default"),
                Some(v) => v.borrowed(),
            }
        },
    };
    let name: &str = match kind {
        FloatOrStr::Str(s) => s,
        FloatOrStr::Float(_) => {
            return Err(Exception::RopeType);
        },
    };
    proof {
        assert(rope_type(*scaling_config) == Some(name@));
        reveal_strlit("default");
        reveal_strlit("linear");
        reveal_strlit("llama3");
        reveal_strlit("yarn");
        reveal_strlit("longrope");
    }
    if same_text(name, "default") {
        return Ok(
            RopeVariant::Default(
                Rope { dimensions: dims, traditional, base, scale: Scalar::lit(ONE_BITS) },
            ),
        );
    }
    match scaling_config {
        None => Err(Exception::RopeType),
        Some(config) => {
            if same_text(name, "linear") {
                let den = get_numeric_from_config(config, RopeKey::Factor)?;
                let scale = Scalar::lit(ONE_BITS).over(Scalar::Lit(den));
                return Ok(
                    RopeVariant::Default(Rope { dimensions: dims, traditional, base, scale }),
                );
            }
            if same_text(name, "llama3") {
                let factor = get_numeric_from_config(config, RopeKey::Factor)?;
                let low = get_numeric_from_config(config, RopeKey::LowFreqFactor)?;
                let high = get_numeric_from_config(config, RopeKey::HighFreqFactor)?;
                let context = get_numeric_from_config(
                    config,
                    RopeKey::OriginalMaxPositionEmbeddings,
                )?;
                let rope = Llama3Rope::new(
                    dims,
                    traditional,
                    context.to_i32(),
                    base,
                    Scalar::Lit(factor),
                    Scalar::Lit(low),
                    Scalar::Lit(high),
                )?;
                return Ok(RopeVariant::Llama3(rope));
            }
            if same_text(name, "yarn") {
                return build_yarn(dims, base, traditional, config);
            }
            if same_text(name, "longrope") {
                return Err(Exception::RopeUnavailable);
            }
            Err(Exception::RopeType)
        },
    }
}

/// Whether two entries of a configuration agree.
pub open spec fn same_entry(a: (String, FloatOrString), b: (String, FloatOrString)) -> bool {
    &&& a.0@ == b.0@
    &&& match (a.1, b.1) {
        (FloatOrString::Float(f), FloatOrString::Float(g)) => f == g,
        (FloatOrString::String(s, n), FloatOrString::String(t, m)) => s@ == t@ && n == m,
        _ => false,
    }
}

/// Whether two configurations agree entry by entry.
pub open spec fn same_scaling(a: Option<ScalingConfig>, b: Option<ScalingConfig>) -> bool {
    match (a, b) {
        (None, None) => true,
        (Some(x), Some(y)) => x@.len() == y@.len() && forall|i: int|
            0 <= i < x@.len() ==> same_entry(#[trigger] x@[i], y@[i]),
        _ => false,
    }
}

/// Copies a configuration.
pub fn copy_scaling(config: &Option<ScalingConfig>) -> (r: Option<ScalingConfig>)
    ensures
        same_scaling(r, *config),
{
    match config {
        None => None,
        Some(c) => {
            let mut out: ScalingConfig = Vec::new();
            let mut i: usize = 0;
            while i < c.len()
                invariant
                    i <= c@.len(),
                    out@.len() == i,
                    forall|j: int| 0 <= j < i ==> same_entry(#[trigger] out@[j], c@[j]),
                decreases c@.len() - i,
            {
                let value = match &c[i].1 {
                    FloatOrString::Float(f) => FloatOrString::Float(*f),
                    FloatOrString::String(s, n) => FloatOrString::String(s.clone(), *n),
                };
                out.push((c[i].0.clone(), value));
                i += 1;
            }
            Some(out)
        },
    }
}

/// Configurations that agree hold alike values under a key.
proof fn lemma_same_lookup(
    a: Seq<(String, FloatOrString)>,
    b: Seq<(String, FloatOrString)>,
    key: Seq<char>,
)
    requires
        a.len() == b.len(),
        forall|i: int| 0 <= i < a.len() ==> same_entry(#[trigger] a[i], b[i]),
    ensures
        match (lookup(a, key), lookup(b, key)) {
            (None, None) => true,
            (Some(FloatOrString::Float(f)), Some(FloatOrString::Float(g))) => f == g,
            (Some(FloatOrString::String(s, n)), Some(FloatOrString::String(t, m))) => s@ == t@ && n
                == m,
            _ => false,
        },
    decreases a.len(),
{
    if a.len() > 0 {
        assert(same_entry(a[0], b[0]));
        assert forall|i: int| 0 <= i < a.skip(1).len() implies same_entry(
            #[trigger] a.skip(1)[i],
            b.skip(1)[i],
        ) by {
            assert(same_entry(a[i + 1], b[i + 1]));
        }
        lemma_same_lookup(a.skip(1), b.skip(1), key);
    }
}

} // verus!
