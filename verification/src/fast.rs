//! Fused operations: rotary embedding, attention, normalization, custom kernels.

use std::sync::Arc;

use crate::array::{
    fitted, lists, opt_ref_term, promote, promoted, share_all, strings, templates, terms, tn, Array,
    Dtype, KernelCall, KernelParam, KernelTerm, Kind, MaskMode, Node, TemplateTerm, Term, Tn,
};
use crate::error::Exception;
use crate::scalar::Scalar;
use crate::shape::{
    all_non_negative, broadcast, broadcast_shapes, copy_list, no_negative, same_list,
};
use crate::text::{contains_char, copy_texts};
use vstd::prelude::*;
use vstd::string::*;

verus! {

/// An expression with scalar attributes.
pub open spec fn scaled(
    kind: Kind,
    scalars: Seq<Scalar>,
    args: Seq<Term>,
    shape: Seq<i32>,
    dtype: Dtype,
) -> Term {
    Term { kind, ints: seq![], scalars, args, kernel: None, shape, dtype }
}

/// The scalars of a rotary embedding: the position scale, then the base where there is one.
pub open spec fn rope_scalars(base: Option<Scalar>, scale: Scalar) -> Seq<Scalar> {
    match base {
        Some(b) => seq![scale, b],
        None => seq![scale],
    }
}

#[verifier::opaque]
pub open spec fn raw_rope(
    x: Term,
    dims: i32,
    traditional: bool,
    base: Option<Scalar>,
    scale: Scalar,
    offset: i32,
    freqs: Option<Term>,
) -> Option<Term> {
    if x.shape.len() >= 3 && (base is Some) != (freqs is Some) && (freqs matches Some(f)
        ==> f.shape.len() == 1) {
        Some(
            scaled(
                Kind::Rope { dims, traditional, offset },
                rope_scalars(base, scale),
                match freqs {
                    Some(f) => seq![x, f],
                    None => seq![x],
                },
                x.shape,
                x.dtype,
            ),
        )
    } else {
        None
    }
}

#[verifier::opaque]
pub open spec fn raw_rope_dynamic(
    x: Term,
    dims: i32,
    traditional: bool,
    base: Option<Scalar>,
    scale: Scalar,
    offset: Term,
    freqs: Option<Term>,
) -> Option<Term> {
    if x.shape.len() >= 3 && (base is Some) != (freqs is Some) && (freqs matches Some(f)
        ==> f.shape.len() == 1) && (offset.shape.len() == 0 || offset.shape == seq![x.shape[0]]) {
        Some(
            scaled(
                Kind::RopeDynamic { dims, traditional },
                rope_scalars(base, scale),
                match freqs {
                    Some(f) => seq![x, offset, f],
                    None => seq![x, offset],
                },
                x.shape,
                x.dtype,
            ),
        )
    } else {
        None
    }
}

/// Rotary embedding from one offset.
pub open spec fn t_rope(
    x: Tn,
    dims: i32,
    traditional: bool,
    base: Option<Scalar>,
    scale: Scalar,
    offset: i32,
    freqs: Option<Term>,
) -> Tn {
    match x {
        Ok(x) => fitted(raw_rope(x, dims, traditional, base, scale, offset, freqs)),
        Err(e) => Err(e),
    }
}

/// Rotary embedding from an array of offsets, one for all rows or one for each.
pub open spec fn t_rope_dynamic(
    x: Tn,
    dims: i32,
    traditional: bool,
    base: Option<Scalar>,
    scale: Scalar,
    offset: Tn,
    freqs: Option<Term>,
) -> Tn {
    match (x, offset) {
        (Ok(x), Ok(o)) => fitted(raw_rope_dynamic(x, dims, traditional, base, scale, o, freqs)),
        (Err(e), _) => Err(e),
        (Ok(_), Err(e)) => Err(e),
    }
}

fn rope_attributes(base: Option<Scalar>, scale: Scalar) -> (r: Vec<Scalar>)
    ensures
        r@ == rope_scalars(base, scale),
{
    match base {
        Some(b) => {
            let v = vec![scale, b];
            proof {
                assert(v@ =~= seq![scale, b]);
            }
            v
        },
        None => {
            let v = vec![scale];
            proof {
                assert(v@ =~= seq![scale]);
            }
            v
        },
    }
}

fn is_flat(a: Option<&Array>) -> (r: bool)
    ensures
        r == (opt_ref_term(a) matches Some(f) ==> f.shape.len() == 1),
{
    match a {
        Some(a) => a.ndim() == 1,
        None => true,
    }
}

/// Turns the leading features of every position by an angle that grows with the position, the
/// first position being `offset`. Either a base or explicit wavelengths must be given.
pub fn rope_device(
    array: &Array,
    dimensions: i32,
    traditional: bool,
    base: Option<Scalar>,
    scale: Scalar,
    offset: i32,
    freqs: Option<&Array>,
) -> (r: Result<Array, Exception>)
    ensures
        tn(r) == t_rope(
            Ok(array@),
            dimensions,
            traditional,
            base,
            scale,
            offset,
            opt_ref_term(freqs),
        ),
{
    proof {
        reveal(raw_rope);
    }
    if array.ndim() < 3 || base.is_some() == freqs.is_some() || !is_flat(freqs) {
        return Err(Exception::Operands);
    }
    let args = match freqs {
        Some(f) => vec![array.share(), f.share()],
        None => vec![array.share()],
    };
    let r = Array::with_attributes(
        Kind::Rope { dims: dimensions, traditional, offset },
        Vec::new(),
        rope_attributes(base, scale),
        args,
        array.dims(),
        array.dtype(),
    );
    proof {
        match freqs {
            Some(f) => {
                assert(r@.args =~= seq![array@, f@]);
            },
            None => {
                assert(r@.args =~= seq![array@]);
            },
        }
    }
    Ok(r)
}

/// Rotary embedding whose first position is given by an array, one offset for all rows or one
/// for each row.
pub fn rope_dynamic_device(
    array: &Array,
    dimensions: i32,
    traditional: bool,
    base: Option<Scalar>,
    scale: Scalar,
    offset: &Array,
    freqs: Option<&Array>,
) -> (r: Result<Array, Exception>)
    ensures
        tn(r) == t_rope_dynamic(
            Ok(array@),
            dimensions,
            traditional,
            base,
            scale,
            Ok(offset@),
            opt_ref_term(freqs),
        ),
{
    proof {
        reveal(raw_rope_dynamic);
    }
    if array.ndim() < 3 || base.is_some() == freqs.is_some() || !is_flat(freqs) {
        return Err(Exception::Operands);
    }
    let per_row = offset.ndim() == 1 && offset.shape()[0] == array.shape()[0];
    proof {
        if offset@.shape.len() == 1 {
            if per_row {
                assert(offset@.shape =~= seq![array@.shape[0]]);
            }
        } else {
            assert(seq![array@.shape[0]].len() == 1);
        }
    }
    if offset.ndim() != 0 && !per_row {
        return Err(Exception::Operands);
    }
    let args = match freqs {
        Some(f) => vec![array.share(), offset.share(), f.share()],
        None => vec![array.share(), offset.share()],
    };
    let r = Array::with_attributes(
        Kind::RopeDynamic { dims: dimensions, traditional },
        Vec::new(),
        rope_attributes(base, scale),
        args,
        array.dims(),
        array.dtype(),
    );
    proof {
        match freqs {
            Some(f) => {
                assert(r@.args =~= seq![array@, offset@, f@]);
            },
            None => {
                assert(r@.args =~= seq![array@, offset@]);
            },
        }
    }
    Ok(r)
}

/// Mask modes of scaled dot-product attention.
pub enum ScaledDotProductAttentionMask<'a> {
    /// A mask array.
    Array(&'a Array),
    /// Causal masking, without a mask array.
    Causal,
}

/// The mathematical value of an attention mask.
pub enum MaskTerm {
    Unmasked,
    Causal,
    Given(Term),
}

/// The value of an optional mask.
pub open spec fn mask_term(mask: Option<ScaledDotProductAttentionMask<'_>>) -> MaskTerm {
    match mask {
        None => MaskTerm::Unmasked,
        Some(ScaledDotProductAttentionMask::Causal) => MaskTerm::Causal,
        Some(ScaledDotProductAttentionMask::Array(a)) => MaskTerm::Given(a@),
    }
}

/// The mask that an optional mask array means.
pub open spec fn array_mask(mask: Option<Term>) -> MaskTerm {
    match mask {
        None => MaskTerm::Unmasked,
        Some(m) => MaskTerm::Given(m),
    }
}

/// Whether queries, keys and values belong together: four axes each, one batch size, a number of
/// query heads that the number of key heads divides, one feature size of queries and keys, one
/// length of keys and values.
pub open spec fn heads_fit(q: Seq<i32>, k: Seq<i32>, v: Seq<i32>) -> bool {
    &&& q.len() == 4 && k.len() == 4 && v.len() == 4
    &&& q[0] == k[0] && k[0] == v[0]
    &&& k[1] == v[1] && k[1] > 0 && q[1] >= 0 && q[1] % k[1] == 0
    &&& k[2] == v[2]
    &&& q[3] == k[3]
}

#[verifier::opaque]
pub open spec fn raw_attention(
    q: Term,
    k: Term,
    v: Term,
    scale: Scalar,
    mask: MaskTerm,
    sinks: Option<Term>,
) -> Option<Term> {
    if heads_fit(q.shape, k.shape, v.shape) && (sinks matches Some(s) ==> s.shape
        == seq![q.shape[1]]) && (mask matches MaskTerm::Given(m) ==> broadcast(
        m.shape,
        seq![q.shape[0], q.shape[1], q.shape[2], k.shape[2]],
    ) == Some(seq![q.shape[0], q.shape[1], q.shape[2], k.shape[2]])) {
        let masked = match mask {
            MaskTerm::Given(m) => seq![q, k, v].push(m),
            _ => seq![q, k, v],
        };
        let args = match sinks {
            Some(s) => masked.push(s),
            None => masked,
        };
        let mode = match mask {
            MaskTerm::Given(_) => MaskMode::Given,
            MaskTerm::Causal => MaskMode::Causal,
            MaskTerm::Unmasked => MaskMode::Unmasked,
        };
        Some(
            scaled(
                Kind::Attention { mask: mode, sinks: sinks is Some },
                seq![scale],
                args,
                seq![q.shape[0], q.shape[1], q.shape[2], v.shape[3]],
                promoted(promoted(q.dtype, k.dtype), v.dtype),
            ),
        )
    } else {
        None
    }
}

/// Attention: `softmax(scale * q @ k.T + mask) @ v` on every head, with one extra score a head
/// where there are sinks.
pub open spec fn t_attention(
    q: Tn,
    k: Tn,
    v: Tn,
    scale: Scalar,
    mask: MaskTerm,
    sinks: Option<Term>,
) -> Tn {
    match (q, k, v) {
        (Ok(q), Ok(k), Ok(v)) => fitted(raw_attention(q, k, v, scale, mask, sinks)),
        (Err(e), _, _) => Err(e),
        (Ok(_), Err(e), _) => Err(e),
        (Ok(_), Ok(_), Err(e)) => Err(e),
    }
}

fn check_heads(q: &Vec<i32>, k: &Vec<i32>, v: &Vec<i32>) -> (r: bool)
    ensures
        r == heads_fit(q@, k@, v@),
{
    q.len() == 4 && k.len() == 4 && v.len() == 4 && q[0] == k[0] && k[0] == v[0] && k[1] == v[1]
        && k[1] > 0 && q[1] >= 0 && q[1] % k[1] == 0 && k[2] == v[2] && q[3] == k[3]
}

/// Multi-head attention. Keys and values may have fewer heads than the queries; they are not to
/// be tiled beforehand.
pub fn scaled_dot_product_attention_device<'a>(
    queries: &Array,
    keys: &Array,
    values: &Array,
    scale: Scalar,
    mask: Option<ScaledDotProductAttentionMask<'a>>,
    sinks: Option<&Array>,
) -> (r: Result<Array, Exception>)
    ensures
        tn(r) == t_attention(
            Ok(queries@),
            Ok(keys@),
            Ok(values@),
            scale,
            mask_term(mask),
            opt_ref_term(sinks),
        ),
{
    proof {
        reveal(raw_attention);
    }
    if !check_heads(queries.shape(), keys.shape(), values.shape()) {
        return Err(Exception::Operands);
    }
    let q = queries.shape();
    let scores: Vec<i32> = vec![q[0], q[1], q[2], keys.shape()[2]];
    let shape: Vec<i32> = vec![q[0], q[1], q[2], values.shape()[3]];
    proof {
        assert(scores@ =~= seq![
            queries@.shape[0],
            queries@.shape[1],
            queries@.shape[2],
            keys@.shape[2],
        ]);
        assert(shape@ =~= seq![
            queries@.shape[0],
            queries@.shape[1],
            queries@.shape[2],
            values@.shape[3],
        ]);
    }
    let mut args = vec![queries.share(), keys.share(), values.share()];
    proof {
        assert(terms(args@) =~= seq![queries@, keys@, values@]);
    }
    let mode = match mask {
        Some(ScaledDotProductAttentionMask::Array(m)) => {
            match broadcast_shapes(m.shape(), &scores) {
                Some(s) => if !same_list(&s, &scores) {
                    return Err(Exception::Operands);
                },
                None => {
                    return Err(Exception::Operands);
                },
            }
            args.push(m.share());
            proof {
                assert(terms(args@) =~= seq![queries@, keys@, values@].push(m@));
            }
            MaskMode::Given
        },
        Some(ScaledDotProductAttentionMask::Causal) => MaskMode::Causal,
        None => MaskMode::Unmasked,
    };
    let ghost masked = terms(args@);
    match sinks {
        Some(s) => {
            let flat = s.ndim() == 1 && s.shape()[0] == q[1];
            proof {
                if flat {
                    assert(s@.shape =~= seq![queries@.shape[1]]);
                } else {
                    assert(s@.shape.len() == 1 ==> s@.shape[0] != seq![queries@.shape[1]][0]);
                }
            }
            if !flat {
                return Err(Exception::Operands);
            }
            args.push(s.share());
            proof {
                assert(terms(args@) =~= masked.push(s@));
            }
        },
        None => {},
    }
    let dtype = promote(promote(queries.dtype(), keys.dtype()), values.dtype());
    let scalars = vec![scale];
    proof {
        assert(scalars@ =~= seq![scale]);
    }
    Ok(
        Array::with_attributes(
            Kind::Attention { mask: mode, sinks: sinks.is_some() },
            Vec::new(),
            scalars,
            args,
            shape,
            dtype,
        ),
    )
}

/// Whether a one-dimensional parameter matches the last axis of a shape.
pub open spec fn matches_last(p: Seq<i32>, shape: Seq<i32>) -> bool {
    shape.len() >= 1 && p.len() == 1 && p[0] == shape.last()
}

fn fits_last(p: &Vec<i32>, shape: &Vec<i32>) -> (r: bool)
    ensures
        r == matches_last(p@, shape@),
{
    shape.len() >= 1 && p.len() == 1 && p[0] == shape[shape.len() - 1]
}

#[verifier::opaque]
pub open spec fn raw_rms_norm(x: Term, weight: Option<Term>, eps: Scalar) -> Option<Term> {
    if x.shape.len() >= 1 && (weight matches Some(w) ==> matches_last(w.shape, x.shape)) {
        Some(
            scaled(
                Kind::RmsNorm,
                seq![eps],
                match weight {
                    Some(w) => seq![x, w],
                    None => seq![x],
                },
                x.shape,
                match weight {
                    Some(w) => promoted(x.dtype, w.dtype),
                    None => x.dtype,
                },
            ),
        )
    } else {
        None
    }
}

#[verifier::opaque]
pub open spec fn raw_layer_norm(
    x: Term,
    weight: Option<Term>,
    bias: Option<Term>,
    eps: Scalar,
) -> Option<Term> {
    if x.shape.len() >= 1 && (weight matches Some(w) ==> matches_last(w.shape, x.shape)) && (
    bias matches Some(b) ==> matches_last(b.shape, x.shape)) {
        let weighted = match weight {
            Some(w) => seq![x].push(w),
            None => seq![x],
        };
        let args = match bias {
            Some(b) => weighted.push(b),
            None => weighted,
        };
        Some(
            scaled(
                Kind::LayerNorm { weighted: weight is Some, biased: bias is Some },
                seq![eps],
                args,
                x.shape,
                x.dtype,
            ),
        )
    } else {
        None
    }
}

/// Root-mean-square normalization of the last axis, times a weight where there is one.
pub open spec fn t_rms_norm(x: Tn, weight: Option<Term>, eps: Scalar) -> Tn {
    match x {
        Ok(x) => fitted(raw_rms_norm(x, weight, eps)),
        Err(e) => Err(e),
    }
}

/// Layer normalization of the last axis, times a weight and plus a bias where there are any.
pub open spec fn t_layer_norm(x: Tn, weight: Option<Term>, bias: Option<Term>, eps: Scalar) -> Tn {
    match x {
        Ok(x) => fitted(raw_layer_norm(x, weight, bias, eps)),
        Err(e) => Err(e),
    }
}

/// Normalizes the last axis by its root mean square and scales it by a weight.
pub fn rms_norm_device(x: &Array, weight: &Array, eps: Scalar) -> (r: Result<Array, Exception>)
    ensures
        tn(r) == t_rms_norm(Ok(x@), Some(weight@), eps),
{
    proof {
        reveal(raw_rms_norm);
    }
    if !fits_last(weight.shape(), x.shape()) {
        return Err(Exception::Operands);
    }
    let r = Array::with_attributes(
        Kind::RmsNorm,
        Vec::new(),
        vec![eps],
        vec![x.share(), weight.share()],
        x.dims(),
        promote(x.dtype(), weight.dtype()),
    );
    proof {
        assert(r@.args =~= seq![x@, weight@]);
        assert(r@.scalars =~= seq![eps]);
    }
    Ok(r)
}

/// Normalizes the last axis by its root mean square.
pub fn rms_norm_no_weight_device(x: &Array, eps: Scalar) -> (r: Result<Array, Exception>)
    ensures
        tn(r) == t_rms_norm(Ok(x@), None, eps),
{
    proof {
        reveal(raw_rms_norm);
    }
    if x.ndim() < 1 {
        return Err(Exception::Operands);
    }
    let r = Array::with_attributes(
        Kind::RmsNorm,
        Vec::new(),
        vec![eps],
        vec![x.share()],
        x.dims(),
        x.dtype(),
    );
    proof {
        assert(r@.args =~= seq![x@]);
        assert(r@.scalars =~= seq![eps]);
    }
    Ok(r)
}

/// Normalizes the last axis to mean zero and variance one.
pub fn layer_norm_device(
    x: &Array,
    weight: Option<&Array>,
    bias: Option<&Array>,
    eps: Scalar,
) -> (r: Result<Array, Exception>)
    ensures
        tn(r) == t_layer_norm(Ok(x@), opt_ref_term(weight), opt_ref_term(bias), eps),
{
    proof {
        reveal(raw_layer_norm);
    }
    if x.ndim() < 1 {
        return Err(Exception::Operands);
    }
    let mut args = vec![x.share()];
    proof {
        assert(terms(args@) =~= seq![x@]);
    }
    match weight {
        Some(w) => {
            if !fits_last(w.shape(), x.shape()) {
                return Err(Exception::Operands);
            }
            args.push(w.share());
            proof {
                assert(terms(args@) =~= seq![x@].push(w@));
            }
        },
        None => {},
    }
    let ghost weighted = terms(args@);
    match bias {
        Some(b) => {
            if !fits_last(b.shape(), x.shape()) {
                return Err(Exception::Operands);
            }
            args.push(b.share());
            proof {
                assert(terms(args@) =~= weighted.push(b@));
            }
        },
        None => {},
    }
    let scalars = vec![eps];
    proof {
        assert(scalars@ =~= seq![eps]);
    }
    Ok(
        Array::with_attributes(
            Kind::LayerNorm { weighted: weight.is_some(), biased: bias.is_some() },
            Vec::new(),
            scalars,
            args,
            x.dims(),
            x.dtype(),
        ),
    )
}

/// A template argument for a custom kernel.
pub enum TemplateArg<'a> {
    /// A parameter that is an element type.
    Dtype(&'a str, Dtype),
    /// An integer parameter.
    Int(&'a str, i32),
    /// A boolean parameter.
    Bool(&'a str, bool),
}

impl<'a> View for TemplateArg<'a> {
    type V = TemplateTerm;

    open spec fn view(&self) -> TemplateTerm {
        match self {
            TemplateArg::Dtype(n, d) => TemplateTerm::Dtype(n@, *d),
            TemplateArg::Int(n, i) => TemplateTerm::Int(n@, *i),
            TemplateArg::Bool(n, b) => TemplateTerm::Bool(n@, *b),
        }
    }
}

/// The values of a list of template arguments.
pub open spec fn template_terms(v: Seq<TemplateArg<'_>>) -> Seq<TemplateTerm> {
    Seq::new(v.len(), |i: int| v[i]@)
}

/// The name of a template parameter.
pub open spec fn template_name(t: TemplateTerm) -> Seq<char> {
    match t {
        TemplateTerm::Dtype(n, _) => n,
        TemplateTerm::Int(n, _) => n,
        TemplateTerm::Bool(n, _) => n,
    }
}

/// Whether the text holds a NUL character.
pub open spec fn has_nul(s: Seq<char>) -> bool {
    s.contains('\0')
}

/// Whether a text of the list holds a NUL character.
pub open spec fn any_nul(v: Seq<Seq<char>>) -> bool {
    exists|i: int| 0 <= i < v.len() && has_nul(#[trigger] v[i])
}

/// A custom kernel: its body, and the names under which the body knows its arguments.
pub struct MetalKernel {
    pub name: String,
    pub input_names: Vec<String>,
    pub output_names: Vec<String>,
    pub source: String,
}

fn own_names(items: &Vec<&str>) -> (r: Result<Vec<String>, Exception>)
    ensures
        match r {
            Ok(v) => strings(v@) == str_views(items@) && !any_nul(str_views(items@)),
            Err(e) => e == Exception::NulInName && any_nul(str_views(items@)),
        },
{
    let mut out: Vec<String> = Vec::new();
    let mut i: usize = 0;
    while i < items.len()
        invariant
            i <= items.len(),
            out@.len() == i,
            forall|j: int| 0 <= j < i ==> (#[trigger] out@[j])@ == items@[j]@,
            forall|j: int| 0 <= j < i ==> !has_nul(#[trigger] str_views(items@)[j]),
        decreases items.len() - i,
    {
        proof {
            assert(str_views(items@)[i as int] == items@[i as int]@);
        }
        if contains_char(items[i], '\0') {
            return Err(Exception::NulInName);
        }
        out.push(String::from_str(items[i]));
        i += 1;
    }
    proof {
        assert(strings(out@) =~= str_views(items@));
    }
    Ok(out)
}

/// The views of a list of text slices.
pub open spec fn str_views(v: Seq<&str>) -> Seq<Seq<char>> {
    Seq::new(v.len(), |i: int| v[i]@)
}

/// The smaller of two lengths.
pub open spec fn shorter(a: nat, b: nat) -> nat {
    if a <= b {
        a
    } else {
        b
    }
}

/// The launch of a kernel; output shapes and types are paired up, and what has no partner is left
/// out.
pub open spec fn kernel_launch(
    kernel: MetalKernel,
    template: Seq<TemplateTerm>,
    grid: (i32, i32, i32),
    threadgroup: (i32, i32, i32),
    shapes: Seq<Seq<i32>>,
    dtypes: Seq<Dtype>,
) -> KernelTerm {
    let n = shorter(shapes.len(), dtypes.len());
    KernelTerm {
        name: kernel.name@,
        source: kernel.source@,
        input_names: strings(kernel.input_names@),
        output_names: strings(kernel.output_names@),
        output_shapes: shapes.take(n as int),
        output_dtypes: dtypes.take(n as int),
        grid,
        threadgroup,
        template,
    }
}

/// Output `i` of a kernel launch.
pub open spec fn kernel_output(launch: KernelTerm, inputs: Seq<Term>, i: int) -> Term {
    Term {
        kind: Kind::KernelOutput { output: i as usize },
        ints: seq![],
        scalars: seq![],
        args: inputs,
        kernel: Some(launch),
        shape: launch.output_shapes[i],
        dtype: launch.output_dtypes[i],
    }
}

/// Whether a launch gives every named input and output an array.
pub open spec fn launch_fits(launch: KernelTerm, inputs: Seq<Term>) -> bool {
    &&& inputs.len() == launch.input_names.len()
    &&& launch.output_shapes.len() == launch.output_names.len()
    &&& forall|i: int|
        0 <= i < launch.output_shapes.len() ==> no_negative(#[trigger] launch.output_shapes[i])
}

/// The names of a list of template parameters.
pub open spec fn template_names(v: Seq<TemplateTerm>) -> Seq<Seq<char>> {
    Seq::new(v.len(), |i: int| template_name(v[i]))
}

fn own_template(template: &Vec<TemplateArg<'_>>) -> (r: Result<Vec<KernelParam>, Exception>)
    ensures
        match r {
            Ok(v) => templates(v@) == template_terms(template@) && !any_nul(
                template_names(template_terms(template@)),
            ),
            Err(e) => e == Exception::NulInTemplate && any_nul(
                template_names(template_terms(template@)),
            ),
        },
{
    let mut out: Vec<KernelParam> = Vec::new();
    let ghost names = template_names(template_terms(template@));
    let mut i: usize = 0;
    while i < template.len()
        invariant
            i <= template.len(),
            out@.len() == i,
            names == template_names(template_terms(template@)),
            forall|j: int| 0 <= j < i ==> (#[trigger] out@[j])@ == template@[j]@,
            forall|j: int| 0 <= j < i ==> !has_nul(#[trigger] names[j]),
        decreases template.len() - i,
    {
        let (name, param) = match &template[i] {
            TemplateArg::Dtype(n, d) => (*n, KernelParam::Dtype(String::from_str(n), *d)),
            TemplateArg::Int(n, v) => (*n, KernelParam::Int(String::from_str(n), *v)),
            TemplateArg::Bool(n, v) => (*n, KernelParam::Bool(String::from_str(n), *v)),
        };
        proof {
            assert(names[i as int] == name@);
        }
        if contains_char(name, '\0') {
            return Err(Exception::NulInTemplate);
        }
        out.push(param);
        i += 1;
    }
    proof {
        assert(templates(out@) =~= template_terms(template@));
    }
    Ok(out)
}

fn pair_outputs(output_shapes: &Vec<Vec<i32>>, output_dtypes: &Vec<Dtype>) -> (r: (
    Vec<Vec<i32>>,
    Vec<Dtype>,
))
    ensures
        lists(r.0@) == lists(output_shapes@).take(
            shorter(output_shapes@.len(), output_dtypes@.len()) as int,
        ),
        r.1@ == output_dtypes@.take(shorter(output_shapes@.len(), output_dtypes@.len()) as int),
{
    let mut shapes: Vec<Vec<i32>> = Vec::new();
    let mut dtypes: Vec<Dtype> = Vec::new();
    let mut i: usize = 0;
    while i < output_shapes.len() && i < output_dtypes.len()
        invariant
            i <= output_shapes.len(),
            i <= output_dtypes.len(),
            shapes@.len() == i,
            forall|j: int| 0 <= j < i ==> (#[trigger] shapes@[j])@ == output_shapes@[j]@,
            dtypes@ =~= output_dtypes@.take(i as int),
        decreases output_shapes.len() - i,
    {
        shapes.push(copy_list(&output_shapes[i]));
        dtypes.push(output_dtypes[i]);
        i += 1;
    }
    proof {
        assert(lists(shapes@) =~= lists(output_shapes@).take(i as int));
    }
    (shapes, dtypes)
}

/// Whether the outcome of a launch is as it should be: the outputs in order, or the first of the
/// two reasons why there are none.
pub open spec fn launch_outcome(
    r: Result<Vec<Array>, Exception>,
    launch: KernelTerm,
    inputs: Seq<Term>,
) -> bool {
    if any_nul(template_names(launch.template)) {
        r == Err::<Vec<Array>, Exception>(Exception::NulInTemplate)
    } else if !launch_fits(launch, inputs) {
        r == Err::<Vec<Array>, Exception>(Exception::Operands)
    } else {
        &&& r is Ok
        &&& r->Ok_0@.len() == launch.output_names.len()
        &&& forall|i: int|
            0 <= i < r->Ok_0@.len() ==> (#[trigger] r->Ok_0@[i])@ == kernel_output(
                launch,
                inputs,
                i,
            )
    }
}

impl MetalKernel {
    /// A kernel with the given body. Its inputs are made row-contiguous, its outputs are not
    /// atomic. No name, and not the body, may hold a NUL character.
    pub fn new(name: &str, input_names: &Vec<&str>, output_names: &Vec<&str>, source: &str) -> (r:
        Result<MetalKernel, Exception>)
        ensures
            match r {
                Ok(k) => {
                    &&& !has_nul(name@) && !has_nul(source@)
                    &&& !any_nul(str_views(input_names@)) && !any_nul(str_views(output_names@))
                    &&& k.name@ == name@
                    &&& k.source@ == source@
                    &&& strings(k.input_names@) == str_views(input_names@)
                    &&& strings(k.output_names@) == str_views(output_names@)
                },
                Err(e) => if has_nul(name@) {
                    e == Exception::NulInName
                } else if has_nul(source@) {
                    e == Exception::NulInSource
                } else {
                    e == Exception::NulInName && (any_nul(str_views(input_names@)) || any_nul(
                        str_views(output_names@),
                    ))
                },
            },
    {
        if contains_char(name, '\0') {
            return Err(Exception::NulInName);
        }
        if contains_char(source, '\0') {
            return Err(Exception::NulInSource);
        }
        let input_names = own_names(input_names)?;
        let output_names = own_names(output_names)?;
        Ok(
            MetalKernel {
                name: String::from_str(name),
                input_names,
                output_names,
                source: String::from_str(source),
            },
        )
    }

    /// Launches the kernel on `inputs`, one for each input name, with one output shape and type
    /// for each output name.
    pub fn apply(
        &self,
        inputs: &Vec<Array>,
        template: &Vec<TemplateArg<'_>>,
        grid: (i32, i32, i32),
        threadgroup: (i32, i32, i32),
        output_shapes: &Vec<Vec<i32>>,
        output_dtypes: &Vec<Dtype>,
    ) -> (r: Result<Vec<Array>, Exception>)
        ensures
            launch_outcome(
                r,
                kernel_launch(
                    *self,
                    template_terms(template@),
                    grid,
                    threadgroup,
                    lists(output_shapes@),
                    output_dtypes@,
                ),
                terms(inputs@),
            ),
    {
        let owned_template = own_template(template)?;
        let (shapes, dtypes) = pair_outputs(output_shapes, output_dtypes);
        let ghost launch = kernel_launch(
            *self,
            template_terms(template@),
            grid,
            threadgroup,
            lists(output_shapes@),
            output_dtypes@,
        );
        proof {
            assert(launch.template == templates(owned_template@));
        }
        if inputs.len() != self.input_names.len() || shapes.len() != self.output_names.len() {
            return Err(Exception::Operands);
        }
        let mut i: usize = 0;
        while i < shapes.len()
            invariant
                i <= shapes.len(),
                launch.output_shapes == lists(shapes@),
                !any_nul(template_names(launch.template)),
                launch == kernel_launch(
                    *self,
                    template_terms(template@),
                    grid,
                    threadgroup,
                    lists(output_shapes@),
                    output_dtypes@,
                ),
                forall|j: int| 0 <= j < i ==> no_negative(#[trigger] launch.output_shapes[j]),
            decreases shapes.len() - i,
        {
            proof {
                assert(launch.output_shapes[i as int] == shapes@[i as int]@);
            }
            if !all_non_negative(&shapes[i]) {
                return Err(Exception::Operands);
            }
            i += 1;
        }
        let call = Arc::new(
            KernelCall {
                name: self.name.clone(),
                source: self.source.clone(),
                input_names: copy_texts(&self.input_names),
                output_names: copy_texts(&self.output_names),
                output_shapes: shapes,
                output_dtypes: dtypes,
                grid,
                threadgroup,
                template: owned_template,
            },
        );
        proof {
            assert(call@ == launch);
        }
        let mut out: Vec<Array> = Vec::new();
        let mut i: usize = 0;
        while i < call.output_shapes.len()
            invariant
                i <= call.output_shapes.len(),
                call@ == launch,
                call.output_dtypes@.len() == call.output_shapes@.len(),
                out@.len() == i,
                forall|j: int|
                    0 <= j < i ==> (#[trigger] out@[j])@ == kernel_output(launch, terms(inputs@), j),
            decreases call.output_shapes.len() - i,
        {
            let args = share_all(inputs);
            let a = Array {
                node: Arc::new(
                    Node {
                        kind: Kind::KernelOutput { output: i },
                        ints: Vec::new(),
                        scalars: Vec::new(),
                        args,
                        kernel: Some(call.clone()),
                        shape: copy_list(&call.output_shapes[i]),
                        dtype: call.output_dtypes[i],
                    },
                ),
            };
            proof {
                assert(a@.args =~= terms(args@));
                assert(launch.output_shapes[i as int] == call.output_shapes@[i as int]@);
                assert(a@ == kernel_output(launch, terms(inputs@), i as int));
            }
            out.push(a);
            i += 1;
        }
        Ok(out)
    }
}

} // verus!
