//! Arrays as deferred computations.
//!
//! An [`Array`] is a node of a computation graph: an operation, the arrays it reads, and the shape
//! and element type of what it will produce. Building a node computes nothing; handles on a node
//! are shared. The mathematical value of an array is its [`Term`], the whole expression below it.

use std::sync::Arc;

use crate::error::Exception;
use crate::scalar::Scalar;
use crate::shape::copy_list;
use vstd::prelude::*;

verus! {

/// The element type of an array.
#[derive(Clone, Copy, PartialEq, Eq, Debug, Structural)]
pub enum Dtype {
    Bool,
    Uint8,
    Uint32,
    Int32,
    Int64,
    Float16,
    Bfloat16,
    Float32,
}

impl Dtype {
    /// Whether the elements are floating-point numbers.
    pub open spec fn floating(self) -> bool {
        self == Dtype::Float16 || self == Dtype::Bfloat16 || self == Dtype::Float32
    }

    /// Whether the elements are floating-point numbers.
    pub fn is_floating(self) -> (r: bool)
        ensures
            r == self.floating(),
    {
        match self {
            Dtype::Float16 | Dtype::Bfloat16 | Dtype::Float32 => true,
            _ => false,
        }
    }
}

/// The type that holds the values of both types: a floating type wins over the others, the wider
/// of two integers wins, and two different half precisions meet in single precision.
pub open spec fn promoted(a: Dtype, b: Dtype) -> Dtype {
    if a == b || b == Dtype::Bool {
        a
    } else if a == Dtype::Bool {
        b
    } else if a.floating() && b.floating() {
        Dtype::Float32
    } else if a.floating() {
        a
    } else if b.floating() || a == Dtype::Uint8 {
        b
    } else if b == Dtype::Uint8 {
        a
    } else {
        Dtype::Int64
    }
}

/// Finds the type that holds the values of both types.
pub fn promote(a: Dtype, b: Dtype) -> (r: Dtype)
    ensures
        r == promoted(a, b),
{
    if a == b || b == Dtype::Bool {
        a
    } else if a == Dtype::Bool {
        b
    } else if a.is_floating() && b.is_floating() {
        Dtype::Float32
    } else if a.is_floating() {
        a
    } else if b.is_floating() || a == Dtype::Uint8 {
        b
    } else if b == Dtype::Uint8 {
        a
    } else {
        Dtype::Int64
    }
}

/// An operation on each element.
#[derive(Clone, Copy, PartialEq, Eq, Debug, Structural)]
pub enum UnaryOp {
    Exp,
    Log,
    Negative,
    Square,
    Rsqrt,
    Reciprocal,
    Cos,
    Sin,
    Sigmoid,
    Silu,
    Softplus,
    Gelu,
    GeluApproximate,
}

/// An operation on each pair of elements.
#[derive(Clone, Copy, PartialEq, Eq, Debug, Structural)]
pub enum BinaryOp {
    Add,
    Subtract,
    Multiply,
    Divide,
    Power,
    Maximum,
    Minimum,
    Greater,
    GreaterEqual,
    Less,
    LessEqual,
    Equal,
    LogicalAnd,
}

impl BinaryOp {
    /// Whether the operation answers yes or no.
    pub open spec fn predicate(self) -> bool {
        match self {
            BinaryOp::Greater
            | BinaryOp::GreaterEqual
            | BinaryOp::Less
            | BinaryOp::LessEqual
            | BinaryOp::Equal
            | BinaryOp::LogicalAnd => true,
            _ => false,
        }
    }

    /// Whether the operation answers yes or no.
    pub fn is_predicate(self) -> (r: bool)
        ensures
            r == self.predicate(),
    {
        match self {
            BinaryOp::Greater
            | BinaryOp::GreaterEqual
            | BinaryOp::Less
            | BinaryOp::LessEqual
            | BinaryOp::Equal
            | BinaryOp::LogicalAnd => true,
            _ => false,
        }
    }
}

/// How the attention kernel masks scores.
#[derive(Clone, Copy, PartialEq, Eq, Debug, Structural)]
pub enum MaskMode {
    /// Every key is visible.
    Unmasked,
    /// Every query sees the keys up to its own position.
    Causal,
    /// A mask array follows the values among the operands.
    Given,
}

/// The operation of a node.
#[derive(Clone, Copy, PartialEq, Eq, Debug, Structural)]
pub enum Kind {
    /// An array that the caller holds under a number: token ids, a loaded weight.
    External { id: u64 },
    /// Uniform noise between the two scalars, drawn under a number.
    Uniform { draw: u64 },
    /// Normal noise, times the scalar, drawn under a number.
    Normal { draw: u64 },
    Zeros,
    Ones,
    /// Single-precision elements, in row-major order.
    Constant,
    /// Integer elements, in row-major order.
    Integers,
    /// Consecutive integers from `start`.
    Arange { start: i32 },
    Unary(UnaryOp),
    Binary(BinaryOp),
    /// Picks from the second or the third operand by the first.
    Where,
    /// Conversion to the node's element type.
    Cast,
    /// The same elements in row-major order under another shape.
    Reshape,
    /// Axis `i` of the result is axis `ints[i]` of the operand.
    Transpose,
    BroadcastTo,
    /// A new axis of length one.
    ExpandDims { axis: usize },
    /// Removal of an axis of length one.
    Squeeze { axis: usize },
    /// Every position of the axis, `times` times in a row.
    Repeat { axis: usize, times: i32 },
    /// The positions of an axis from `start`, as many as the shape says.
    Slice { axis: usize, start: i32 },
    /// One position of an axis, which goes away.
    Select { axis: usize, index: i32 },
    /// The first operand with the positions of an axis from `start` replaced by the second.
    SliceUpdate { axis: usize, start: i32 },
    Concatenate { axis: usize },
    Stack { axis: usize },
    /// The positions of an axis that the second operand lists.
    Take { axis: usize },
    /// Along an axis, the positions that the second operand lists for each of the other indices.
    TakeAlong { axis: usize },
    /// The first operand with the positions listed by the second replaced by the third.
    PutAlong { axis: usize },
    Sum { axis: usize, keep: bool },
    Mean { axis: usize, keep: bool },
    Softmax { axis: usize, precise: bool },
    CumulativeSum { axis: usize },
    ArgMax { axis: usize },
    Sort { axis: usize },
    ArgSort { axis: usize },
    /// Indices that would put the `kth` element in its sorted place, smaller ones before it.
    ArgPartition { axis: usize, kth: i32 },
    Matmul,
    /// Product with a packed, transposed weight: operands are the input, the packed weight, its
    /// scales and its biases.
    QuantizedMatmul { group_size: i32, bits: i32 },
    /// The quantized product with the matrix that the last operand picks for each row. In the
    /// microscaling format the packed weight has scales and no biases.
    GatherQmm { group_size: i32, bits: i32, microscaling: bool },
    /// The packed form of a weight (part 0), its scales (part 1) or its biases (part 2).
    Quantize { part: usize, group_size: i32, bits: i32 },
    /// The numbers of a packed weight; operands are the packed weight, its scales, its biases.
    Dequantize { group_size: i32, bits: i32 },
    /// One-dimensional convolution with unit stride and no padding.
    Conv1d { groups: i32 },
    /// Rotary embedding of the leading `dims` features from a fixed offset; a second operand,
    /// where there is one, holds the wavelengths.
    Rope { dims: i32, traditional: bool, offset: i32 },
    /// Rotary embedding whose second operand holds the offsets.
    RopeDynamic { dims: i32, traditional: bool },
    /// Scaled dot-product attention on queries, keys, values, then the mask and the sinks where
    /// there are any.
    Attention { mask: MaskMode, sinks: bool },
    /// Root-mean-square normalization of the last axis, with a weight where there is one.
    RmsNorm,
    /// Layer normalization of the last axis, with a weight and a bias where there are any.
    LayerNorm { weighted: bool, biased: bool },
    /// One output of a custom kernel.
    KernelOutput { output: usize },
    /// A random draw for every row of the unnormalized log-probabilities on the last axis, made
    /// under a number. Draws under other numbers are draws of their own.
    Categorical { draw: u64 },
}

/// One template parameter of a kernel launch.
pub enum KernelParam {
    /// An element type.
    Dtype(String, Dtype),
    /// An integer constant.
    Int(String, i32),
    /// A boolean constant.
    Bool(String, bool),
}

/// The mathematical value of a template parameter.
pub enum TemplateTerm {
    Dtype(Seq<char>, Dtype),
    Int(Seq<char>, i32),
    Bool(Seq<char>, bool),
}

impl View for KernelParam {
    type V = TemplateTerm;

    open spec fn view(&self) -> TemplateTerm {
        match self {
            KernelParam::Dtype(n, d) => TemplateTerm::Dtype(n@, *d),
            KernelParam::Int(n, i) => TemplateTerm::Int(n@, *i),
            KernelParam::Bool(n, b) => TemplateTerm::Bool(n@, *b),
        }
    }
}

/// A launch of a custom kernel: what is run and on which grid.
pub struct KernelCall {
    pub name: String,
    pub source: String,
    pub input_names: Vec<String>,
    pub output_names: Vec<String>,
    pub output_shapes: Vec<Vec<i32>>,
    pub output_dtypes: Vec<Dtype>,
    pub grid: (i32, i32, i32),
    pub threadgroup: (i32, i32, i32),
    pub template: Vec<KernelParam>,
}

/// The mathematical value of a kernel launch.
pub struct KernelTerm {
    pub name: Seq<char>,
    pub source: Seq<char>,
    pub input_names: Seq<Seq<char>>,
    pub output_names: Seq<Seq<char>>,
    pub output_shapes: Seq<Seq<i32>>,
    pub output_dtypes: Seq<Dtype>,
    pub grid: (i32, i32, i32),
    pub threadgroup: (i32, i32, i32),
    pub template: Seq<TemplateTerm>,
}

/// The views of a list of strings.
pub open spec fn strings(v: Seq<String>) -> Seq<Seq<char>> {
    Seq::new(v.len(), |i: int| v[i]@)
}

/// The views of a list of lists.
pub open spec fn lists(v: Seq<Vec<i32>>) -> Seq<Seq<i32>> {
    Seq::new(v.len(), |i: int| v[i]@)
}

/// The views of a list of template parameters.
pub open spec fn templates(v: Seq<KernelParam>) -> Seq<TemplateTerm> {
    Seq::new(v.len(), |i: int| v[i]@)
}

impl View for KernelCall {
    type V = KernelTerm;

    open spec fn view(&self) -> KernelTerm {
        KernelTerm {
            name: self.name@,
            source: self.source@,
            input_names: strings(self.input_names@),
            output_names: strings(self.output_names@),
            output_shapes: lists(self.output_shapes@),
            output_dtypes: self.output_dtypes@,
            grid: self.grid,
            threadgroup: self.threadgroup,
            template: templates(self.template@),
        }
    }
}

/// What one step of a computation does.
pub struct Node {
    pub kind: Kind,
    pub ints: Vec<i32>,
    pub scalars: Vec<Scalar>,
    pub args: Vec<Array>,
    pub kernel: Option<Arc<KernelCall>>,
    pub shape: Vec<i32>,
    pub dtype: Dtype,
}

/// A handle on a deferred computation.
pub struct Array {
    pub node: Arc<Node>,
}

/// The expression that an array stands for.
pub struct Term {
    pub kind: Kind,
    pub ints: Seq<i32>,
    pub scalars: Seq<Scalar>,
    pub args: Seq<Term>,
    pub kernel: Option<KernelTerm>,
    pub shape: Seq<i32>,
    pub dtype: Dtype,
}

/// An expression, or the reason why it cannot be built.
pub type Tn = Result<Term, Exception>;

/// The expression below a node.
pub open spec fn term(a: Array) -> Term
    decreases a,
{
    Term {
        kind: a.node.kind,
        ints: a.node.ints@,
        scalars: a.node.scalars@,
        args: Seq::new(
            a.node.args@.len(),
            |i: int|
                if 0 <= i < a.node.args@.len() {
                    term(a.node.args@[i])
                } else {
                    arbitrary()
                },
        ),
        kernel: match a.node.kernel {
            Some(k) => Some(k@),
            None => None,
        },
        shape: a.node.shape@,
        dtype: a.node.dtype,
    }
}

impl View for Array {
    type V = Term;

    open spec fn view(&self) -> Term {
        term(*self)
    }
}

/// The expressions behind a list of arrays.
pub open spec fn terms(v: Seq<Array>) -> Seq<Term> {
    Seq::new(v.len(), |i: int| v[i]@)
}

/// The outcome of building an array.
pub open spec fn tn(r: Result<Array, Exception>) -> Tn {
    match r {
        Ok(a) => Ok(a@),
        Err(e) => Err(e),
    }
}

/// The outcome of an operation that needs operands that fit together.
pub open spec fn fitted(t: Option<Term>) -> Tn {
    match t {
        Some(t) => Ok(t),
        None => Err(Exception::Operands),
    }
}

/// The expression behind an optional array.
pub open spec fn opt_term(a: Option<Array>) -> Option<Term> {
    match a {
        Some(a) => Some(a@),
        None => None,
    }
}

/// The expression behind an optional reference to an array.
pub open spec fn opt_ref_term(a: Option<&Array>) -> Option<Term> {
    match a {
        Some(a) => Some(a@),
        None => None,
    }
}

/// An expression without integer, scalar or kernel attributes.
pub open spec fn plain(kind: Kind, args: Seq<Term>, shape: Seq<i32>, dtype: Dtype) -> Term {
    Term { kind, ints: seq![], scalars: seq![], args, kernel: None, shape, dtype }
}

impl Array {
    /// The dimensions.
    pub fn shape(&self) -> (r: &Vec<i32>)
        ensures
            r@ == self@.shape,
    {
        &self.node.shape
    }

    /// The element type.
    pub fn dtype(&self) -> (r: Dtype)
        ensures
            r == self@.dtype,
    {
        self.node.dtype
    }

    /// The number of axes.
    pub fn ndim(&self) -> (r: usize)
        ensures
            r == self@.shape.len(),
    {
        self.node.shape.len()
    }

    /// Another handle on the same computation.
    pub fn share(&self) -> (r: Array)
        ensures
            r@ == self@,
    {
        Array { node: self.node.clone() }
    }

    /// A copy of the dimensions.
    pub fn dims(&self) -> (r: Vec<i32>)
        ensures
            r@ == self@.shape,
    {
        copy_list(&self.node.shape)
    }

    /// A node with every attribute but a kernel.
    pub fn with_attributes(
        kind: Kind,
        ints: Vec<i32>,
        scalars: Vec<Scalar>,
        args: Vec<Array>,
        shape: Vec<i32>,
        dtype: Dtype,
    ) -> (r: Array)
        ensures
            r@ == (Term {
                kind,
                ints: ints@,
                scalars: scalars@,
                args: terms(args@),
                kernel: None,
                shape: shape@,
                dtype,
            }),
    {
        let r = Array {
            node: Arc::new(Node { kind, ints, scalars, args, kernel: None, shape, dtype }),
        };
        proof {
            assert(r@.args =~= terms(args@));
        }
        r
    }

    /// A node without attributes.
    pub fn nullary(kind: Kind, shape: Vec<i32>, dtype: Dtype) -> (r: Array)
        ensures
            r@ == plain(kind, seq![], shape@, dtype),
    {
        let r = Array::with_attributes(kind, Vec::new(), Vec::new(), Vec::new(), shape, dtype);
        proof {
            assert(r@.args =~= seq![]);
        }
        r
    }

    /// A node that reads one array.
    pub fn apply1(kind: Kind, a: &Array, shape: Vec<i32>, dtype: Dtype) -> (r: Array)
        ensures
            r@ == plain(kind, seq![a@], shape@, dtype),
    {
        let args = vec![a.share()];
        let r = Array::with_attributes(kind, Vec::new(), Vec::new(), args, shape, dtype);
        proof {
            assert(r@.args =~= seq![a@]);
        }
        r
    }

    /// A node that reads two arrays.
    pub fn apply2(kind: Kind, a: &Array, b: &Array, shape: Vec<i32>, dtype: Dtype) -> (r: Array)
        ensures
            r@ == plain(kind, seq![a@, b@], shape@, dtype),
    {
        let args = vec![a.share(), b.share()];
        let r = Array::with_attributes(kind, Vec::new(), Vec::new(), args, shape, dtype);
        proof {
            assert(r@.args =~= seq![a@, b@]);
        }
        r
    }

    /// A node that reads three arrays.
    pub fn apply3(
        kind: Kind,
        a: &Array,
        b: &Array,
        c: &Array,
        shape: Vec<i32>,
        dtype: Dtype,
    ) -> (r: Array)
        ensures
            r@ == plain(kind, seq![a@, b@, c@], shape@, dtype),
    {
        let args = vec![a.share(), b.share(), c.share()];
        let r = Array::with_attributes(kind, Vec::new(), Vec::new(), args, shape, dtype);
        proof {
            assert(r@.args =~= seq![a@, b@, c@]);
        }
        r
    }
}

/// Shares every array of a list.
pub fn share_all(v: &Vec<Array>) -> (r: Vec<Array>)
    ensures
        terms(r@) == terms(v@),
{
    let mut out: Vec<Array> = Vec::new();
    let mut i: usize = 0;
    while i < v.len()
        invariant
            i <= v.len(),
            out@.len() == i,
            forall|j: int| 0 <= j < i ==> (#[trigger] out@[j])@ == v@[j]@,
        decreases v.len() - i,
    {
        out.push(v[i].share());
        i += 1;
    }
    proof {
        assert(terms(out@) =~= terms(v@));
    }
    out
}

/// Shares an optional array.
pub fn share_opt(a: &Option<Array>) -> (r: Option<Array>)
    ensures
        opt_term(r) == opt_term(*a),
{
    match a {
        Some(a) => Some(a.share()),
        None => None,
    }
}

} // verus!
