//! The gated delta rule of linear-attention layers.
//!
//! There are two ways to run it: [`gated_delta_kernel`], one launch of a custom kernel for all
//! positions, which needs a key size that 32 divides, and [`gated_delta_ops`], one position after
//! the other out of plain operations.

use crate::array::{
    lists, opt_term, terms, tn, Array, Dtype, KernelTerm, TemplateTerm, Term, Tn,
};
use crate::cache::pair_outcome;
use crate::error::Exception;
use crate::fast::{
    any_nul, kernel_launch, kernel_output, launch_fits, template_names, template_terms, MetalKernel,
    TemplateArg,
};
use crate::ops::create::{t_int, t_zeros, zeros_dtype};
use crate::ops::elementwise::{
    t_add, t_cast, t_exp, t_multiply, t_negative, t_sigmoid, t_softplus, t_subtract,
};
use crate::ops::layout::{t_expand_dims, t_repeat};
use crate::ops::reduce::t_sum;
use crate::ops::select::{stack_axis, t_select, t_stack};
use vstd::prelude::*;
use vstd::string::*;

verus! {

/// The decay of every position and head: `exp(-exp(a_log) * softplus(a + dt_bias))`.
pub open spec fn decay(a_log: Tn, a: Tn, dt_bias: Tn) -> Tn {
    t_exp(
        t_negative(
            t_multiply(t_exp(t_cast(a_log, Dtype::Float32)), t_softplus(t_add(a, dt_bias))),
        ),
    )
}

/// Computes the decay of every position and head. `a` is `[B, T, Hv]`, the others `[Hv]`.
pub fn compute_g(a_log: &Array, a: &Array, dt_bias: &Array) -> (r: Result<Array, Exception>)
    ensures
        tn(r) == decay(Ok(a_log@), Ok(a@), Ok(dt_bias@)),
{
    let inner = a.add(dt_bias)?.softplus()?;
    let a_exp = a_log.as_dtype(Dtype::Float32)?.exp()?;
    a_exp.multiply(&inner)?.negative()?.exp()
}

/// The state decayed by `g`.
pub open spec fn decayed(state: Tn, g: Tn) -> Tn {
    t_multiply(state, t_expand_dims(t_expand_dims(g, 2), 3))
}

/// The state after a step: the decayed state, corrected along the key by a part `beta` of what the
/// value lacks.
pub open spec fn next_state(k: Tn, v: Tn, g: Tn, beta: Tn, state: Tn) -> Tn {
    let s = decayed(state, g);
    let k4 = t_expand_dims(k, 2);
    let memory = t_sum(t_multiply(s, k4), -1i32, false);
    let delta = t_multiply(t_subtract(v, memory), t_expand_dims(beta, 2));
    t_add(s, t_multiply(k4, t_expand_dims(delta, 3)))
}

/// What a step puts out: the new state read along the query.
pub open spec fn step_output(q: Tn, state: Tn) -> Tn {
    t_sum(t_multiply(state, t_expand_dims(q, 2)), -1i32, false)
}

/// The outcome of a step.
pub open spec fn stepped(q: Tn, k: Tn, v: Tn, g: Tn, beta: Tn, state: Tn) -> Result<
    (Term, Term),
    Exception,
> {
    let s = next_state(k, v, g, beta, state);
    match (step_output(q, s), s) {
        (Ok(y), Ok(n)) => Ok((y, n)),
        _ => Err(Exception::Operands),
    }
}

/// One step of the recurrence. `q` and `k` are `[B, H, Dk]`, `v` is `[B, H, Dv]`, `g` and `beta`
/// are `[B, H]`, `state` is `[B, H, Dv, Dk]`; the output is `[B, H, Dv]`.
pub fn delta_step(
    q: &Array,
    k: &Array,
    v: &Array,
    g: &Array,
    beta: &Array,
    state: &Array,
) -> (r: Result<(Array, Array), Exception>)
    ensures
        pair_outcome(r) == stepped(Ok(q@), Ok(k@), Ok(v@), Ok(g@), Ok(beta@), Ok(state@)),
{
    let fade = g.expand_dims(2)?.expand_dims(3)?;
    let state = state.multiply(&fade)?;
    let k4 = k.expand_dims(2)?;
    let memory = state.multiply(&k4)?.sum_axis(-1, false)?;
    let beta1 = beta.expand_dims(2)?;
    let delta = v.subtract(&memory)?.multiply(&beta1)?;
    let delta1 = delta.expand_dims(3)?;
    let state = state.add(&k4.multiply(&delta1)?)?;
    let q4 = q.expand_dims(2)?;
    let y = state.multiply(&q4)?.sum_axis(-1, false)?;
    Ok((y, state))
}

/// What a scan reads: queries, keys, values, decays and correction parts, all with positions on
/// axis one.
pub struct ScanInput {
    pub q: Term,
    pub k: Term,
    pub v: Term,
    pub g: Term,
    pub beta: Term,
}

/// The step at position `i`.
pub open spec fn step_at(x: ScanInput, i: int, state: Term) -> Result<(Term, Term), Exception> {
    stepped(
        t_select(Ok(x.q), 1, i as i32),
        t_select(Ok(x.k), 1, i as i32),
        t_select(Ok(x.v), 1, i as i32),
        t_select(Ok(x.g), 1, i as i32),
        t_select(Ok(x.beta), 1, i as i32),
        Ok(state),
    )
}

/// The outputs of `n` steps from position `start` on, and the state behind them.
pub open spec fn scan(x: ScanInput, state: Term, start: int, n: nat) -> Result<
    (Seq<Term>, Term),
    Exception,
>
    decreases n,
{
    if n == 0 {
        Ok((seq![], state))
    } else {
        match scan(x, state, start, (n - 1) as nat) {
            Ok((ys, s)) => match step_at(x, start + n - 1, s) {
                Ok((y, t)) => Ok((ys.push(y), t)),
                Err(e) => Err(e),
            },
            Err(e) => Err(e),
        }
    }
}

/// A scan that failed stays failed.
pub proof fn lemma_scan_fails(x: ScanInput, state: Term, start: int, k: nat, n: nat)
    requires
        k <= n,
        scan(x, state, start, k) is Err,
    ensures
        scan(x, state, start, n) == scan(x, state, start, k),
    decreases n,
{
    if k < n {
        lemma_scan_fails(x, state, start, k, (n - 1) as nat);
    }
}

/// The state that a scan starts from: the given one, or zeros.
pub open spec fn first_state(state: Option<Term>, b: i32, hv: i32, dv: i32, dk: i32) -> Tn {
    match state {
        Some(s) => Ok(s),
        None => t_zeros(seq![b, hv, dv, dk], Dtype::Float32),
    }
}

/// Key heads repeated up to the number of value heads.
pub open spec fn spread(x: Tn, hv: i32, hk: i32) -> Tn {
    if hv / hk > 1 {
        t_repeat(x, (hv / hk) as i32, -2i32)
    } else {
        x
    }
}

/// Whether queries and values have the four axes of a scan, with key heads to divide the value
/// heads by.
pub open spec fn scannable(q: Term, v: Term) -> bool {
    &&& q.shape.len() >= 4
    &&& v.shape.len() >= 4
    &&& q.shape[1] >= 0
    &&& q.shape[2] > 0
    &&& v.shape[2] >= 0
}

/// The scan by plain operations, in single precision: one step for every position, the outputs
/// stacked and brought back to the element type of the queries.
pub open spec fn scanned(
    q: Term,
    k: Term,
    v: Term,
    g: Term,
    beta: Term,
    state: Option<Term>,
) -> Result<(Term, Term), Exception> {
    if !scannable(q, v) {
        Err(Exception::Operands)
    } else {
        let hk = q.shape[2];
        let hv = v.shape[2];
        match (
            first_state(state, q.shape[0], hv, v.shape[3], q.shape[3]),
            spread(t_cast(Ok(q), Dtype::Float32), hv, hk),
            spread(t_cast(Ok(k), Dtype::Float32), hv, hk),
            t_cast(Ok(v), Dtype::Float32),
            t_cast(Ok(g), Dtype::Float32),
            t_cast(Ok(beta), Dtype::Float32),
        ) {
            (Ok(s0), Ok(q2), Ok(k2), Ok(v2), Ok(g2), Ok(beta2)) => {
                let x = ScanInput { q: q2, k: k2, v: v2, g: g2, beta: beta2 };
                match scan(x, s0, 0, q.shape[1] as nat) {
                    Ok((ys, s)) => match t_cast(t_stack(ys, 1), q.dtype) {
                        Ok(y) => Ok((y, s)),
                        Err(e) => Err(e),
                    },
                    Err(e) => Err(e),
                }
            },
            _ => Err(Exception::Operands),
        }
    }
}

fn spread_heads(x: Array, hv: i32, hk: i32) -> (r: Result<Array, Exception>)
    requires
        hk > 0,
        hv >= 0,
    ensures
        tn(r) == spread(Ok(x@), hv, hk),
{
    let times: i32 = hv / hk;
    if times > 1 {
        x.repeat_axis(times, -2)
    } else {
        Ok(x)
    }
}

fn starting_state(state: Option<Array>, b: i32, hv: i32, dv: i32, dk: i32) -> (r: Result<
    Array,
    Exception,
>)
    ensures
        tn(r) == first_state(opt_term(state), b, hv, dv, dk),
{
    match state {
        Some(s) => Ok(s),
        None => {
            let shape: Vec<i32> = vec![b, hv, dv, dk];
            proof {
                assert(shape@ =~= seq![b, hv, dv, dk]);
            }
            zeros_dtype(&shape, Dtype::Float32)
        },
    }
}

/// Runs one step for each of `t` positions.
fn scan_steps(
    q: &Array,
    k: &Array,
    v: &Array,
    g: &Array,
    beta: &Array,
    s0: Array,
    t: i32,
) -> (r: Result<(Vec<Array>, Array), Exception>)
    requires
        t >= 0,
    ensures
        scan(
            ScanInput { q: q@, k: k@, v: v@, g: g@, beta: beta@ },
            s0@,
            0,
            t as nat,
        ) == match r {
            Ok((ys, s)) => Ok::<(Seq<Term>, Term), Exception>((terms(ys@), s@)),
            Err(e) => Err(e),
        },
{
    let ghost x = ScanInput { q: q@, k: k@, v: v@, g: g@, beta: beta@ };
    let mut state = s0.share();
    let mut ys: Vec<Array> = Vec::new();
    let mut ti: i32 = 0;
    proof {
        assert(terms(ys@) =~= seq![]);
    }
    while ti < t
        invariant
            0 <= ti <= t,
            x == (ScanInput { q: q@, k: k@, v: v@, g: g@, beta: beta@ }),
            scan(x, s0@, 0, ti as nat) == Ok::<(Seq<Term>, Term), Exception>(
                (terms(ys@), state@),
            ),
        decreases t - ti,
    {
        proof {
            if step_at(x, ti as int, state@) is Err {
                lemma_scan_fails(x, s0@, 0, (ti + 1) as nat, t as nat);
            }
        }
        let (y, next) = delta_step(
            &q.select(1, ti)?,
            &k.select(1, ti)?,
            &v.select(1, ti)?,
            &g.select(1, ti)?,
            &beta.select(1, ti)?,
            &state,
        )?;
        let ghost before = terms(ys@);
        state = next;
        ys.push(y);
        proof {
            assert(terms(ys@) =~= before.push(y@));
        }
        ti += 1;
    }
    Ok((ys, state))
}

/// Runs the delta rule position by position. `q` and `k` are `[B, T, Hk, Dk]`, `v` is
/// `[B, T, Hv, Dv]`, `g` and `beta` are `[B, T, Hv]`; the state is `[B, Hv, Dv, Dk]`, zeros where
/// none is given, and the output `[B, T, Hv, Dv]`.
pub fn gated_delta_ops(
    q: &Array,
    k: &Array,
    v: &Array,
    g: &Array,
    beta: &Array,
    state: Option<Array>,
) -> (r: Result<(Array, Array), Exception>)
    ensures
        pair_outcome(r) == scanned(q@, k@, v@, g@, beta@, opt_term(state)),
{
    if q.ndim() < 4 || v.ndim() < 4 {
        return Err(Exception::Operands);
    }
    let (b, t, hk, dk): (i32, i32, i32, i32) = (
        q.shape()[0],
        q.shape()[1],
        q.shape()[2],
        q.shape()[3],
    );
    let (hv, dv): (i32, i32) = (v.shape()[2], v.shape()[3]);
    if t < 0 || hk <= 0 || hv < 0 {
        return Err(Exception::Operands);
    }
    let out_dtype = q.dtype();
    let s0 = starting_state(state, b, hv, dv, dk)?;
    let q = spread_heads(q.as_dtype(Dtype::Float32)?, hv, hk)?;
    let k = spread_heads(k.as_dtype(Dtype::Float32)?, hv, hk)?;
    let v = v.as_dtype(Dtype::Float32)?;
    let g = g.as_dtype(Dtype::Float32)?;
    let beta = beta.as_dtype(Dtype::Float32)?;
    let (ys, state) = scan_steps(&q, &k, &v, &g, &beta, s0, t)?;
    let y = stack_axis(&ys, 1)?.as_dtype(out_dtype)?;
    Ok((y, state))
}

/// The body of the kernel that scans all positions in one launch. One thread group of 32 lanes
/// keeps a row of the state of one head.
pub const GATED_DELTA_SOURCE: &'static str = "
    auto n = thread_position_in_grid.z;
    auto b_idx = n / Hv;
    auto hv_idx = n % Hv;
    auto hk_idx = hv_idx / (Hv / Hk);
    constexpr int n_per_t = Dk / 32;

    auto q_ = q + b_idx * T * Hk * Dk + hk_idx * Dk;
    auto k_ = k + b_idx * T * Hk * Dk + hk_idx * Dk;

    auto v_ = v + b_idx * T * Hv * Dv + hv_idx * Dv;
    y += b_idx * T * Hv * Dv + hv_idx * Dv;

    auto dk_idx = thread_position_in_threadgroup.x;
    auto dv_idx = thread_position_in_grid.y;

    auto i_state = state_in + (n * Dv + dv_idx) * Dk;
    auto o_state = state_out + (n * Dv + dv_idx) * Dk;

    float state[n_per_t];
    for (int i = 0; i < n_per_t; ++i) {
      auto s_idx = n_per_t * dk_idx + i;
      state[i] = static_cast<float>(i_state[s_idx]);
    }

    auto g_ = g + b_idx * T * Hv;
    auto beta_ = beta + b_idx * T * Hv;

    for (int t = 0; t < T; ++t) {
      float kv_mem = 0.0f;
      for (int i = 0; i < n_per_t; ++i) {
        auto s_idx = n_per_t * dk_idx + i;
        state[i] = state[i] * static_cast<float>(g_[hv_idx]);
        kv_mem += state[i] * static_cast<float>(k_[s_idx]);
      }
      kv_mem = simd_sum(kv_mem);

      auto delta = (static_cast<float>(v_[dv_idx]) - kv_mem) * static_cast<float>(beta_[hv_idx]);

      float out = 0.0f;
      for (int i = 0; i < n_per_t; ++i) {
        auto s_idx = n_per_t * dk_idx + i;
        state[i] = state[i] + static_cast<float>(k_[s_idx]) * delta;
        out += state[i] * static_cast<float>(q_[s_idx]);
      }
      out = simd_sum(out);
      if (thread_index_in_simdgroup == 0) {
        y[dv_idx] = static_cast<InT>(out);
      }

      q_ += Hk * Dk;
      k_ += Hk * Dk;
      v_ += Hv * Dv;
      y += Hv * Dv;
      g_ += Hv;
      beta_ += Hv;
    }
    for (int i = 0; i < n_per_t; ++i) {
      auto s_idx = n_per_t * dk_idx + i;
      o_state[s_idx] = static_cast<StT>(state[i]);
    }
";

/// The kernel that scans all positions in one launch.
pub fn gated_delta_metal_kernel() -> (r: MetalKernel)
    ensures
        r.name@ == "gated_delta_step"@,
        r.source@ == GATED_DELTA_SOURCE@,
        crate::array::strings(r.input_names@) == scan_inputs(),
        crate::array::strings(r.output_names@) == scan_outputs(),
{
    let input_names = vec![
        String::from_str("q"),
        String::from_str("k"),
        String::from_str("v"),
        String::from_str("g"),
        String::from_str("beta"),
        String::from_str("state_in"),
        String::from_str("T"),
    ];
    let output_names = vec![String::from_str("y"), String::from_str("state_out")];
    proof {
        assert(crate::array::strings(input_names@) =~= scan_inputs());
        assert(crate::array::strings(output_names@) =~= scan_outputs());
    }
    MetalKernel {
        name: String::from_str("gated_delta_step"),
        input_names,
        output_names,
        source: String::from_str(GATED_DELTA_SOURCE),
    }
}

/// The names of the kernel's inputs.
pub open spec fn scan_inputs() -> Seq<Seq<char>> {
    seq!["q"@, "k"@, "v"@, "g"@, "beta"@, "state_in"@, "T"@]
}

/// The names of the kernel's outputs.
pub open spec fn scan_outputs() -> Seq<Seq<char>> {
    seq!["y"@, "state_out"@]
}

/// The template parameters of the kernel.
pub open spec fn scan_template(
    dtype: Dtype,
    state_dtype: Dtype,
    dk: i32,
    dv: i32,
    hk: i32,
    hv: i32,
) -> Seq<TemplateTerm> {
    seq![
        TemplateTerm::Dtype("InT"@, dtype),
        TemplateTerm::Dtype("StT"@, state_dtype),
        TemplateTerm::Int("Dk"@, dk),
        TemplateTerm::Int("Dv"@, dv),
        TemplateTerm::Int("Hk"@, hk),
        TemplateTerm::Int("Hv"@, hv),
    ]
}

/// The launch of the kernel: 32 lanes for every feature of every value head of every row.
pub open spec fn scan_launch(q: Term, v: Term, state: Term) -> KernelTerm {
    let b = q.shape[0];
    let t = q.shape[1];
    let hk = q.shape[2];
    let dk = q.shape[3];
    let hv = v.shape[2];
    let dv = v.shape[3];
    KernelTerm {
        name: "gated_delta_step"@,
        source: GATED_DELTA_SOURCE@,
        input_names: scan_inputs(),
        output_names: scan_outputs(),
        output_shapes: seq![seq![b, t, hv, dv], seq![b, hv, dv, dk]],
        output_dtypes: seq![q.dtype, state.dtype],
        grid: (32i32, dv, (b * hv) as i32),
        threadgroup: (32i32, 4i32, 1i32),
        template: scan_template(q.dtype, state.dtype, dk, dv, hk, hv),
    }
}

/// The scan by one launch of the kernel.
pub open spec fn kernel_scanned(
    q: Term,
    k: Term,
    v: Term,
    g: Term,
    beta: Term,
    state: Option<Term>,
) -> Result<(Term, Term), Exception> {
    if q.shape.len() < 4 || v.shape.len() < 4 || !(i32::MIN <= q.shape[0] * v.shape[2]
        <= i32::MAX) {
        Err(Exception::Operands)
    } else {
        match first_state(state, q.shape[0], v.shape[2], v.shape[3], q.shape[3]) {
            Ok(s) => {
                let launch = scan_launch(q, v, s);
                let inputs = seq![q, k, v, g, beta, s, t_int(q.shape[1])->Ok_0];
                if launch_fits(launch, inputs) {
                    Ok((kernel_output(launch, inputs, 0), kernel_output(launch, inputs, 1)))
                } else {
                    Err(Exception::Operands)
                }
            },
            Err(e) => Err(e),
        }
    }
}

proof fn lemma_template_names(
    dtype: Dtype,
    state_dtype: Dtype,
    dk: i32,
    dv: i32,
    hk: i32,
    hv: i32,
)
    ensures
        !any_nul(template_names(scan_template(dtype, state_dtype, dk, dv, hk, hv))),
{
    reveal_strlit("InT");
    reveal_strlit("StT");
    reveal_strlit("Dk");
    reveal_strlit("Dv");
    reveal_strlit("Hk");
    reveal_strlit("Hv");
    let names = template_names(scan_template(dtype, state_dtype, dk, dv, hk, hv));
    assert(names.len() == 6);
    assert(names[0] == "InT"@ && names[1] == "StT"@ && names[2] == "Dk"@ && names[3] == "Dv"@
        && names[4] == "Hk"@ && names[5] == "Hv"@);
}

/// Runs the delta rule in one launch of the kernel. Shapes are those of [`gated_delta_ops`]; the
/// key heads are not to be repeated beforehand. The two outputs of a launch are to be computed
/// together.
pub fn gated_delta_kernel(
    q: &Array,
    k: &Array,
    v: &Array,
    g: &Array,
    beta: &Array,
    state: Option<Array>,
) -> (r: Result<(Array, Array), Exception>)
    ensures
        pair_outcome(r) == kernel_scanned(q@, k@, v@, g@, beta@, opt_term(state)),
{
    if q.ndim() < 4 || v.ndim() < 4 {
        return Err(Exception::Operands);
    }
    let (b, t, hk, dk): (i32, i32, i32, i32) = (
        q.shape()[0],
        q.shape()[1],
        q.shape()[2],
        q.shape()[3],
    );
    let (hv, dv): (i32, i32) = (v.shape()[2], v.shape()[3]);
    proof {
        assert(-0x4000_0000_0000_0000 <= b * hv <= 0x4000_0000_0000_0000) by (nonlinear_arith)
            requires
                -0x8000_0000 <= b <= 0x7fff_ffff,
                -0x8000_0000 <= hv <= 0x7fff_ffff,
        ;
    }
    let rows: i64 = b as i64 * hv as i64;
    if rows > 0x7fff_ffff || rows < -0x8000_0000 {
        return Err(Exception::Operands);
    }
    let state = starting_state(state, b, hv, dv, dk)?;
    let inputs = vec![
        q.share(),
        k.share(),
        v.share(),
        g.share(),
        beta.share(),
        state.share(),
        Array::from_int(t),
    ];
    let template = vec![
        TemplateArg::Dtype("InT", q.dtype()),
        TemplateArg::Dtype("StT", state.dtype()),
        TemplateArg::Int("Dk", dk),
        TemplateArg::Int("Dv", dv),
        TemplateArg::Int("Hk", hk),
        TemplateArg::Int("Hv", hv),
    ];
    let y_shape: Vec<i32> = vec![b, t, hv, dv];
    let st_shape: Vec<i32> = vec![b, hv, dv, dk];
    let shapes = vec![y_shape, st_shape];
    let dtypes = vec![q.dtype(), state.dtype()];
    let kernel = gated_delta_metal_kernel();
    let ghost launch = scan_launch(q@, v@, state@);
    let ghost ins = seq![q@, k@, v@, g@, beta@, state@, t_int(q@.shape[1])->Ok_0];
    proof {
        assert(terms(inputs@) =~= ins);
        assert(template_terms(template@) =~= scan_template(
            q@.dtype,
            state@.dtype,
            dk,
            dv,
            hk,
            hv,
        ));
        assert(y_shape@ =~= seq![b, t, hv, dv]);
        assert(st_shape@ =~= seq![b, hv, dv, dk]);
        assert(lists(shapes@) =~= seq![seq![b, t, hv, dv], seq![b, hv, dv, dk]]);
        assert(dtypes@ =~= seq![q@.dtype, state@.dtype]);
        assert(lists(shapes@).take(2) =~= lists(shapes@));
        assert(dtypes@.take(2) =~= dtypes@);
        lemma_template_names(q@.dtype, state@.dtype, dk, dv, hk, hv);
        assert(kernel_launch(
            kernel,
            template_terms(template@),
            (32i32, dv, rows as i32),
            (32i32, 4i32, 1i32),
            lists(shapes@),
            dtypes@,
        ) == launch);
    }
    let outs = kernel.apply(
        &inputs,
        &template,
        (32, dv, rows as i32),
        (32, 4, 1),
        &shapes,
        &dtypes,
    )?;
    Ok((outs[0].share(), outs[1].share()))
}

/// The update of a linear-attention layer: the correction part is the logistic function of `b`,
/// the decay comes from `a`, and the delta rule runs by plain operations or by the kernel.
pub open spec fn updated(
    q: Term,
    k: Term,
    v: Term,
    a: Tn,
    b: Tn,
    a_log: Term,
    dt_bias: Term,
    state: Option<Term>,
    by_ops: bool,
) -> Result<(Term, Term), Exception> {
    match (t_sigmoid(b), decay(Ok(a_log), a, Ok(dt_bias))) {
        (Ok(beta), Ok(g)) => if by_ops {
            scanned(q, k, v, g, beta, state)
        } else {
            kernel_scanned(q, k, v, g, beta, state)
        },
        (Err(e), _) => Err(e),
        (Ok(_), Err(e)) => Err(e),
    }
}

/// Updates a linear-attention layer. `a` and `b` are `[B, T, Hv]`, `a_log` and `dt_bias` `[Hv]`;
/// `by_ops` picks plain operations over the kernel.
pub fn gated_delta_update(
    q: &Array,
    k: &Array,
    v: &Array,
    a: &Array,
    b: &Array,
    a_log: &Array,
    dt_bias: &Array,
    state: Option<Array>,
    by_ops: bool,
) -> (r: Result<(Array, Array), Exception>)
    ensures
        pair_outcome(r) == updated(
            q@,
            k@,
            v@,
            Ok(a@),
            Ok(b@),
            a_log@,
            dt_bias@,
            opt_term(state),
            by_ops,
        ),
{
    let beta = b.sigmoid()?;
    let g = compute_g(a_log, a, dt_bias)?;
    if by_ops {
        gated_delta_ops(q, k, v, &g, &beta, state)
    } else {
        gated_delta_kernel(q, k, v, &g, &beta, state)
    }
}

} // verus!
