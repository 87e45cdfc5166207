//! Parameters by name.
//!
//! A parameter is named by the path to it, the parts joined by dots: a field's name, or the number
//! of a layer in a list.

use crate::array::{opt_term, Array, Term};
use crate::nn::{AnyEmbedding, AnyLinear, Conv1d, LayerNorm, MaybeQuantized, RmsNorm};
use crate::scalar::Scalar;
use crate::text::{begins, join, same_text, strip_prefix};
use vstd::prelude::*;
use vstd::string::*;

verus! {

/// A module whose parameters have names.
pub trait Parameters {
    /// What is left of a value without the contents of its parameters.
    type Frame;

    /// What is left of the value without the contents of its parameters.
    spec fn frame(&self) -> Self::Frame;

    /// The parameter under a name.
    spec fn param(&self, key: Seq<char>) -> Option<Term>;

    /// Whether there is a parameter of this name.
    fn has_param(&self, key: &str) -> (r: bool)
        ensures
            r == (self.param(key@) is Some),
    ;

    /// Replaces the parameter of this name, where there is one. No other parameter changes, and
    /// nothing else does.
    fn set_param(&mut self, key: &str, value: Array) -> (r: bool)
        ensures
            r == (old(self).param(key@) is Some),
            final(self).frame() == old(self).frame(),
            forall|k: Seq<char>| #[trigger]
                final(self).param(k) == (if r && k == key@ {
                    Some(value@)
                } else {
                    old(self).param(k)
                }),
    ;
}

/// Two texts that begin alike and go on alike are the same.
pub proof fn lemma_same_rest(a: Seq<char>, b: Seq<char>, p: Seq<char>)
    requires
        begins(a, p),
        begins(b, p),
        a.skip(p.len() as int) == b.skip(p.len() as int),
    ensures
        a == b,
{
    assert(a =~= a.take(p.len() as int) + a.skip(p.len() as int));
    assert(b =~= b.take(p.len() as int) + b.skip(p.len() as int));
}

/// Replacing the parameter `key` without its beginning `p` in one part replaces the parameter `key`
/// among those that begin with `p`.
pub proof fn lemma_part<T: Parameters>(
    before: T,
    after: T,
    key: Seq<char>,
    p: Seq<char>,
    value: Term,
    done: bool,
)
    requires
        begins(key, p),
        forall|k: Seq<char>| #[trigger]
            after.param(k) == (if done && k == key.skip(p.len() as int) {
                Some(value)
            } else {
                before.param(k)
            }),
    ensures
        forall|k: Seq<char>| #[trigger]
            begins(k, p) ==> after.param(k.skip(p.len() as int)) == (if done && k == key {
                Some(value)
            } else {
                before.param(k.skip(p.len() as int))
            }),
{
    assert forall|k: Seq<char>| #[trigger] begins(k, p) implies after.param(k.skip(p.len() as int))
        == (if done && k == key {
        Some(value)
    } else {
        before.param(k.skip(p.len() as int))
    }) by {
        if k.skip(p.len() as int) == key.skip(p.len() as int) {
            lemma_same_rest(k, key, p);
        }
    }
}

/// The character of a decimal digit.
pub open spec fn digit_char(d: int) -> char {
    (48 + d) as u8 as char
}

/// A number in decimal digits.
pub open spec fn decimal(n: nat) -> Seq<char>
    decreases n,
{
    if n < 10 {
        seq![digit_char(n as int)]
    } else {
        decimal(n / 10).push(digit_char((n % 10) as int))
    }
}

/// Writes a decimal digit.
fn digit_text(d: usize) -> (r: &'static str)
    requires
        d < 10,
    ensures
        r@ == seq![digit_char(d as int)],
{
    proof {
        reveal_strlit("0");
        reveal_strlit("1");
        reveal_strlit("2");
        reveal_strlit("3");
        reveal_strlit("4");
        reveal_strlit("5");
        reveal_strlit("6");
        reveal_strlit("7");
        reveal_strlit("8");
        reveal_strlit("9");
    }
    let r = match d {
        0 => "0",
        1 => "1",
        2 => "2",
        3 => "3",
        4 => "4",
        5 => "5",
        6 => "6",
        7 => "7",
        8 => "8",
        _ => "9",
    };
    proof {
        assert(r@ =~= seq![digit_char(d as int)]);
    }
    r
}

/// Writes a number in decimal digits.
pub fn decimal_text(n: usize) -> (r: String)
    ensures
        r@ == decimal(n as nat),
    decreases n,
{
    if n < 10 {
        String::from_str(digit_text(n))
    } else {
        let front = decimal_text(n / 10);
        let r = join(front.as_str(), digit_text(n % 10));
        proof {
            assert(r@ =~= decimal((n / 10) as nat).push(digit_char((n % 10) as int)));
        }
        r
    }
}

/// The beginning of the names in layer `i`.
pub open spec fn layer_prefix(i: int) -> Seq<char> {
    decimal(i as nat) + "."@
}

/// The parameter under a name that begins with the number of a layer, looked for from layer `i` on.
pub open spec fn list_param<T: Parameters>(list: Seq<T>, key: Seq<char>, i: int) -> Option<Term>
    decreases list.len() - i,
{
    if i < 0 || i >= list.len() {
        None
    } else if begins(key, layer_prefix(i)) {
        list[i].param(key.skip(layer_prefix(i).len() as int))
    } else {
        list_param(list, key, i + 1)
    }
}

/// A change in one layer shows under the names of that layer alone.
proof fn lemma_list_update<T: Parameters>(
    before: Seq<T>,
    after: Seq<T>,
    at: int,
    key: Seq<char>,
    k: Seq<char>,
    i: int,
    value: Term,
    done: bool,
)
    requires
        0 <= i <= at < before.len(),
        after.len() == before.len(),
        forall|j: int| 0 <= j < before.len() && j != at ==> after[j] == before[j],
        begins(key, layer_prefix(at)),
        forall|j: int| i <= j < at ==> !begins(key, #[trigger] layer_prefix(j)),
        forall|x: Seq<char>| #[trigger]
            after[at].param(x) == (if done && x == key.skip(layer_prefix(at).len() as int) {
                Some(value)
            } else {
                before[at].param(x)
            }),
    ensures
        list_param(after, k, i) == (if done && k == key {
            Some(value)
        } else {
            list_param(before, k, i)
        }),
    decreases at - i,
{
    if begins(k, layer_prefix(i)) {
        if i == at {
            lemma_part(before[at], after[at], key, layer_prefix(at), value, done);
        }
    } else if i < at {
        lemma_list_update(before, after, at, key, k, i + 1, value, done);
    } else {
        lemma_list_same(before, after, k, i + 1);
    }
}

proof fn lemma_list_same<T: Parameters>(before: Seq<T>, after: Seq<T>, k: Seq<char>, i: int)
    requires
        0 <= i,
        after.len() == before.len(),
        forall|j: int| i <= j < before.len() ==> after[j] == before[j],
    ensures
        list_param(after, k, i) == list_param(before, k, i),
    decreases before.len() - i,
{
    if i < before.len() {
        lemma_list_same(before, after, k, i + 1);
    }
}

/// What is left of a layer that may be packed without the contents of its parameters.
pub enum LeafFrame {
    Dense { biased: bool },
    Packed { biased: bool, group_size: i32, bits: i32 },
}

impl<T: Parameters> Parameters for Vec<T> {
    type Frame = Seq<T::Frame>;

    open spec fn frame(&self) -> Seq<T::Frame> {
        Seq::new(self@.len(), |i: int| self@[i].frame())
    }

    open spec fn param(&self, key: Seq<char>) -> Option<Term> {
        list_param(self@, key, 0)
    }

    fn has_param(&self, key: &str) -> bool {
        let mut i: usize = 0;
        while i < self.len()
            invariant
                i <= self.len(),
                list_param(self@, key@, 0) == list_param(self@, key@, i as int),
            decreases self.len() - i,
        {
            let prefix = join(decimal_text(i).as_str(), ".");
            match strip_prefix(key, prefix.as_str()) {
                Some(rest) => {
                    return self[i].has_param(rest);
                },
                None => {},
            }
            i += 1;
        }
        false
    }

    fn set_param(&mut self, key: &str, value: Array) -> bool {
        let ghost before = self@;
        let mut i: usize = 0;
        while i < self.len()
            invariant
                i <= self.len(),
                self@ == before,
                before == old(self)@,
                list_param(before, key@, 0) == list_param(before, key@, i as int),
                forall|j: int| 0 <= j < i ==> !begins(key@, #[trigger] layer_prefix(j)),
            decreases self.len() - i,
        {
            let prefix = join(decimal_text(i).as_str(), ".");
            match strip_prefix(key, prefix.as_str()) {
                Some(rest) => {
                    let ghost v = value@;
                    let done = self[i].set_param(rest, value);
                    proof {
                        assert(self.frame() =~= old(self).frame());
                        assert forall|k: Seq<char>| #[trigger]
                            list_param(self@, k, 0) == (if done && k == key@ {
                                Some(v)
                            } else {
                                list_param(before, k, 0)
                            }) by {
                            lemma_list_update(before, self@, i as int, key@, k, 0, v, done);
                        }
                    }
                    return done;
                },
                None => {},
            }
            i += 1;
        }
        false
    }
}

impl<T: Parameters> Parameters for Option<T> {
    type Frame = Option<T::Frame>;

    open spec fn frame(&self) -> Option<T::Frame> {
        match self {
            Some(m) => Some(m.frame()),
            None => None,
        }
    }

    open spec fn param(&self, key: Seq<char>) -> Option<Term> {
        match self {
            Some(m) => m.param(key),
            None => None,
        }
    }

    fn has_param(&self, key: &str) -> bool {
        match self {
            Some(m) => m.has_param(key),
            None => false,
        }
    }

    fn set_param(&mut self, key: &str, value: Array) -> bool {
        match self {
            Some(m) => m.set_param(key, value),
            None => false,
        }
    }
}

impl Parameters for RmsNorm {
    type Frame = Scalar;

    open spec fn frame(&self) -> Scalar {
        self.eps
    }

    open spec fn param(&self, key: Seq<char>) -> Option<Term> {
        if key == "weight"@ {
            Some(self.weight@)
        } else {
            None
        }
    }

    fn has_param(&self, key: &str) -> bool {
        same_text(key, "weight")
    }

    fn set_param(&mut self, key: &str, value: Array) -> bool {
        if same_text(key, "weight") {
            self.weight = value;
            true
        } else {
            false
        }
    }
}

impl Parameters for Conv1d {
    type Frame = i32;

    open spec fn frame(&self) -> i32 {
        self.groups
    }

    open spec fn param(&self, key: Seq<char>) -> Option<Term> {
        if key == "weight"@ {
            Some(self.weight@)
        } else {
            None
        }
    }

    fn has_param(&self, key: &str) -> bool {
        same_text(key, "weight")
    }

    fn set_param(&mut self, key: &str, value: Array) -> bool {
        if same_text(key, "weight") {
            self.weight = value;
            true
        } else {
            false
        }
    }
}

impl Parameters for LayerNorm {
    type Frame = Scalar;

    open spec fn frame(&self) -> Scalar {
        self.eps
    }

    open spec fn param(&self, key: Seq<char>) -> Option<Term> {
        if key == "weight"@ {
            Some(self.weight@)
        } else if key == "bias"@ {
            Some(self.bias@)
        } else {
            None
        }
    }

    fn has_param(&self, key: &str) -> bool {
        same_text(key, "weight") || same_text(key, "bias")
    }

    fn set_param(&mut self, key: &str, value: Array) -> bool {
        if same_text(key, "weight") {
            self.weight = value;
            true
        } else if same_text(key, "bias") {
            self.bias = value;
            true
        } else {
            false
        }
    }
}

impl Parameters for AnyLinear {
    type Frame = LeafFrame;

    open spec fn frame(&self) -> LeafFrame {
        match self {
            MaybeQuantized::Original(l) => LeafFrame::Dense { biased: l.bias is Some },
            MaybeQuantized::Quantized(q) => LeafFrame::Packed {
                biased: q.inner.bias is Some,
                group_size: q.group_size,
                bits: q.bits,
            },
        }
    }

    open spec fn param(&self, key: Seq<char>) -> Option<Term> {
        match self {
            MaybeQuantized::Original(l) => if key == "weight"@ {
                Some(l.weight@)
            } else if key == "bias"@ {
                opt_term(l.bias)
            } else {
                None
            },
            MaybeQuantized::Quantized(q) => if key == "scales"@ {
                Some(q.scales@)
            } else if key == "biases"@ {
                Some(q.biases@)
            } else if key == "inner.weight"@ {
                Some(q.inner.weight@)
            } else if key == "inner.bias"@ {
                opt_term(q.inner.bias)
            } else {
                None
            },
        }
    }

    fn has_param(&self, key: &str) -> bool {
        match self {
            MaybeQuantized::Original(l) => if same_text(key, "weight") {
                true
            } else {
                same_text(key, "bias") && l.bias.is_some()
            },
            MaybeQuantized::Quantized(q) => if same_text(key, "scales") || same_text(key, "biases")
                || same_text(key, "inner.weight") {
                true
            } else {
                same_text(key, "inner.bias") && q.inner.bias.is_some()
            },
        }
    }

    fn set_param(&mut self, key: &str, value: Array) -> bool {
        match self {
            MaybeQuantized::Original(l) => if same_text(key, "weight") {
                l.weight = value;
                true
            } else if same_text(key, "bias") && l.bias.is_some() {
                l.bias = Some(value);
                true
            } else {
                false
            },
            MaybeQuantized::Quantized(q) => if same_text(key, "scales") {
                q.scales = value;
                true
            } else if same_text(key, "biases") {
                q.biases = value;
                true
            } else if same_text(key, "inner.weight") {
                q.inner.weight = value;
                true
            } else if same_text(key, "inner.bias") && q.inner.bias.is_some() {
                q.inner.bias = Some(value);
                true
            } else {
                false
            },
        }
    }
}

impl Parameters for AnyEmbedding {
    type Frame = LeafFrame;

    open spec fn frame(&self) -> LeafFrame {
        match self {
            MaybeQuantized::Original(_) => LeafFrame::Dense { biased: false },
            MaybeQuantized::Quantized(q) => LeafFrame::Packed {
                biased: false,
                group_size: q.group_size,
                bits: q.bits,
            },
        }
    }

    open spec fn param(&self, key: Seq<char>) -> Option<Term> {
        match self {
            MaybeQuantized::Original(e) => if key == "weight"@ {
                Some(e.weight@)
            } else {
                None
            },
            MaybeQuantized::Quantized(q) => if key == "scales"@ {
                Some(q.scales@)
            } else if key == "biases"@ {
                Some(q.biases@)
            } else if key == "inner.weight"@ {
                Some(q.inner.weight@)
            } else {
                None
            },
        }
    }

    fn has_param(&self, key: &str) -> bool {
        match self {
            MaybeQuantized::Original(_) => same_text(key, "weight"),
            MaybeQuantized::Quantized(_) => same_text(key, "scales") || same_text(key, "biases")
                || same_text(key, "inner.weight"),
        }
    }

    fn set_param(&mut self, key: &str, value: Array) -> bool {
        match self {
            MaybeQuantized::Original(e) => if same_text(key, "weight") {
                e.weight = value;
                true
            } else {
                false
            },
            MaybeQuantized::Quantized(q) => if same_text(key, "scales") {
                q.scales = value;
                true
            } else if same_text(key, "biases") {
                q.biases = value;
                true
            } else if same_text(key, "inner.weight") {
                q.inner.weight = value;
                true
            } else {
                false
            },
        }
    }
}

} // verus!
