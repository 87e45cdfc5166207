//! What loading a checkpoint puts where.

use crate::array::Term;
use crate::error::Exception;
use crate::meaning::{elem, in_shape};
use crate::models::llama::{fused_parts, split_entries, split_entry, FusedSizes};
use crate::nn::{packed_embedding, packed_linear, EmbeddingTerm, LinearTerm};
use crate::ops::select::{raw_slice, t_slice};
use crate::params::Parameters;
use crate::text::{begins, finishes, holds};
use crate::weights::{
    assigned, distinct, has_entry, lemma_assigned_same, loaded_param, mapped, match_count,
    same_names, text_name, without, Remap,
};
use vstd::prelude::*;
use vstd::string::*;

verus! {

/// The files of an index come up once each: none twice, none left out and none added.
pub proof fn files_come_once(v: Seq<Seq<char>>)
    ensures
        distinct(v).no_duplicates(),
        forall|name: Seq<char>| distinct(v).contains(name) <==> v.contains(name),
    decreases v.len(),
{
    if v.len() > 0 {
        let front = distinct(v.drop_last());
        files_come_once(v.drop_last());
        assert forall|name: Seq<char>| distinct(v).contains(name) <==> v.contains(name) by {
            assert(v.drop_last().contains(name) <==> front.contains(name));
            if v.contains(name) {
                let i = choose|i: int| 0 <= i < v.len() && v[i] == name;
                if i < v.len() - 1 {
                    assert(v.drop_last()[i] == name);
                } else {
                    assert(name == v.last());
                    if !front.contains(name) {
                        assert(distinct(v).last() == name);
                    }
                }
                if front.contains(name) {
                    let j = choose|j: int| 0 <= j < front.len() && front[j] == name;
                    assert(distinct(v)[j] == name);
                }
            }
            if distinct(v).contains(name) {
                let i = choose|i: int| 0 <= i < distinct(v).len() && distinct(v)[i] == name;
                if i < front.len() {
                    assert(front[i] == name);
                    let j = choose|j: int|
                        0 <= j < v.drop_last().len() && v.drop_last()[j] == name;
                    assert(v[j] == name);
                } else {
                    assert(v[v.len() - 1] == name);
                }
            }
        }
        if !front.contains(v.last()) {
            assert forall|i: int, j: int|
                0 <= i < distinct(v).len() && 0 <= j < distinct(v).len() && i != j implies distinct(
                v,
            )[i] != distinct(v)[j] by {
                if i == front.len() {
                    assert(front[j] != v.last());
                } else if j == front.len() {
                    assert(front[i] != v.last());
                }
            }
        }
    }
}

proof fn lemma_joined_end(p: Seq<char>, a: Seq<char>, b: Seq<char>, k: int)
    requires
        0 < k <= a.len(),
        k <= b.len(),
        a[a.len() - k] != b[b.len() - k],
    ensures
        !finishes(p + a, b),
{
    let s = p + a;
    if finishes(s, b) {
        let t = s.skip(s.len() - b.len());
        assert(t[b.len() - k] == s[s.len() - k]);
        assert(s[s.len() - k] == a[a.len() - k]);
    }
}

/// The scales and the biases of a packed weight keep their names, and so does any array of
/// another name than a weight or a bias.
pub proof fn other_names_stay<M: Parameters>(
    rule: Remap,
    model: M,
    e: Seq<(Seq<char>, Term)>,
    key: Seq<char>,
)
    requires
        rule != Remap::RoutedInnerWeight || !holds(key, ".mlp."@),
    ensures
        !finishes(key, ".weight"@) && !finishes(key, ".bias"@) ==> mapped(rule, model, e, key)
            == key,
        finishes(key, ".scales"@) || finishes(key, ".biases"@) ==> mapped(rule, model, e, key)
            == key,
{
    reveal_strlit(".weight");
    reveal_strlit(".bias");
    reveal_strlit(".scales");
    reveal_strlit(".biases");
    if finishes(key, ".scales"@) {
        let p = without(key, ".scales"@);
        assert(key =~= p + ".scales"@);
        lemma_joined_end(p, ".scales"@, ".weight"@, 1);
        lemma_joined_end(p, ".scales"@, ".bias"@, 2);
    }
    if finishes(key, ".biases"@) {
        let p = without(key, ".biases"@);
        assert(key =~= p + ".biases"@);
        lemma_joined_end(p, ".biases"@, ".weight"@, 1);
        lemma_joined_end(p, ".biases"@, ".bias"@, 2);
    }
}

/// A weight goes one level down exactly where its scales stand beside it.
pub proof fn packed_weights_go_down<M: Parameters>(
    rule: Remap,
    model: M,
    e: Seq<(Seq<char>, Term)>,
    prefix: Seq<char>,
)
    requires
        rule == Remap::ScaledWeight || rule == Remap::ScaledWeightAndBias,
    ensures
        mapped(rule, model, e, prefix + ".weight"@) == if has_entry(e, prefix + ".scales"@) {
            prefix + ".inner.weight"@
        } else {
            prefix + ".weight"@
        },
{
    reveal_strlit(".weight");
    reveal_strlit(".bias");
    let key = prefix + ".weight"@;
    assert(without(key, ".weight"@) =~= prefix);
    assert(key.skip(key.len() - ".weight"@.len()) =~= ".weight"@);
    lemma_joined_end(prefix, ".weight"@, ".bias"@, 1);
}

proof fn lemma_assigned<M: Parameters>(
    rule: Remap,
    model: M,
    all: Seq<(Seq<char>, Term)>,
    e: Seq<(Seq<char>, Term)>,
    i: int,
)
    requires
        0 <= i < e.len(),
        forall|j: int|
            i < j < e.len() ==> mapped(rule, model, all, (#[trigger] e[j]).0) != mapped(
                rule,
                model,
                all,
                e[i].0,
            ),
    ensures
        assigned(rule, model, all, e, mapped(rule, model, all, e[i].0)) == Some(e[i].1),
    decreases e.len(),
{
    if i < e.len() - 1 {
        let d = e.drop_last();
        assert(d[i] == e[i]);
        assert forall|j: int| i < j < d.len() implies mapped(rule, model, all, (#[trigger] d[j]).0)
            != mapped(rule, model, all, d[i].0) by {
            assert(d[j] == e[j]);
        }
        lemma_assigned(rule, model, all, d, i);
        assert(e.last() == e[e.len() - 1]);
    }
}

/// What a checkpoint holds is what the model holds after loading: under the rewritten name of an
/// array stands that array, where the model has that name and no later array takes it.
pub proof fn loading_reads_back<M: Parameters>(
    rule: Remap,
    model: M,
    e: Seq<(Seq<char>, Term)>,
    i: int,
)
    requires
        0 <= i < e.len(),
        model.param(mapped(rule, model, e, e[i].0)) is Some,
        forall|j: int|
            i < j < e.len() ==> mapped(rule, model, e, (#[trigger] e[j]).0) != mapped(
                rule,
                model,
                e,
                e[i].0,
            ),
    ensures
        loaded_param(rule, model, e, e, mapped(rule, model, e, e[i].0)) == Some(e[i].1),
{
    lemma_assigned(rule, model, e, e, i);
}

proof fn lemma_unassigned<M: Parameters>(
    rule: Remap,
    model: M,
    all: Seq<(Seq<char>, Term)>,
    e: Seq<(Seq<char>, Term)>,
    key: Seq<char>,
)
    requires
        forall|i: int| 0 <= i < e.len() ==> mapped(rule, model, all, (#[trigger] e[i]).0) != key,
    ensures
        assigned(rule, model, all, e, key) is None,
    decreases e.len(),
{
    if e.len() > 0 {
        let d = e.drop_last();
        assert forall|i: int| 0 <= i < d.len() implies mapped(rule, model, all, (#[trigger] d[i]).0)
            != key by {
            assert(d[i] == e[i]);
        }
        lemma_unassigned(rule, model, all, d, key);
        assert(e.last() == e[e.len() - 1]);
    }
}

/// Loading leaves a parameter alone that the checkpoint does not name.
pub proof fn loading_leaves_the_rest<M: Parameters>(
    rule: Remap,
    model: M,
    e: Seq<(Seq<char>, Term)>,
    key: Seq<char>,
)
    requires
        forall|i: int| 0 <= i < e.len() ==> mapped(rule, model, e, (#[trigger] e[i]).0) != key,
    ensures
        loaded_param(rule, model, e, e, key) == model.param(key),
{
    lemma_unassigned(rule, model, e, e, key);
}

/// Loading a checkpoint a second time changes nothing.
pub proof fn loading_twice_is_loading_once<M: Parameters>(
    rule: Remap,
    model: M,
    after: M,
    e: Seq<(Seq<char>, Term)>,
    key: Seq<char>,
)
    requires
        same_names(model, after),
        after.param(key) == loaded_param(rule, model, e, e, key),
    ensures
        loaded_param(rule, after, e, e, key) == after.param(key),
{
    lemma_assigned_same(rule, model, after, e, e, key);
    assert((model.param(key) is Some) == (after.param(key) is Some));
}

/// Every array finds its place exactly where all rewritten names are names of the model.
pub proof fn all_match_where_all_are_known<M: Parameters>(
    rule: Remap,
    model: M,
    all: Seq<(Seq<char>, Term)>,
    e: Seq<(Seq<char>, Term)>,
)
    ensures
        match_count(rule, model, all, e) <= e.len(),
        match_count(rule, model, all, e) == e.len() <==> forall|i: int|
            0 <= i < e.len() ==> model.param(mapped(rule, model, all, (#[trigger] e[i]).0)) is Some,
    decreases e.len(),
{
    if e.len() > 0 {
        let d = e.drop_last();
        all_match_where_all_are_known(rule, model, all, d);
        if match_count(rule, model, all, e) == e.len() {
            assert forall|i: int| 0 <= i < e.len() implies model.param(
                mapped(rule, model, all, (#[trigger] e[i]).0),
            ) is Some by {
                if i < d.len() {
                    assert(d[i] == e[i]);
                }
            }
        }
        if forall|i: int|
            0 <= i < e.len() ==> model.param(
                mapped(rule, model, all, (#[trigger] e[i]).0),
            ) is Some {
            assert forall|i: int| 0 <= i < d.len() implies model.param(
                mapped(rule, model, all, (#[trigger] d[i]).0),
            ) is Some by {
                assert(d[i] == e[i]);
            }
            assert(e.last() == e[e.len() - 1]);
        }
    }
}

/// A text model sees nothing of a vision tower, and its own weights without their prefix.
pub proof fn text_names(key: Seq<char>)
    ensures
        text_name("language_model."@ + key) == Some(key),
        text_name("vision_tower."@ + key) is None,
        text_name("visual."@ + key) is None,
{
    reveal_strlit("language_model.");
    reveal_strlit("vision_tower.");
    reveal_strlit("visual.");
    let a = "language_model."@ + key;
    assert(a.take("language_model."@.len() as int) =~= "language_model."@);
    assert(a.skip("language_model."@.len() as int) =~= key);
    let b = "vision_tower."@ + key;
    assert(b.take("vision_tower."@.len() as int) =~= "vision_tower."@);
    assert(b[0] == 'v');
    let c = "visual."@ + key;
    assert(c.take("visual."@.len() as int) =~= "visual."@);
    assert(c[0] == 'v');
    if begins(b, "language_model."@) {
        assert(b.take("language_model."@.len() as int)[0] == b[0]);
    }
    if begins(c, "language_model."@) {
        assert(c.take("language_model."@.len() as int)[0] == c[0]);
    }
}

proof fn lemma_rows(value: Term, start: i32, stop: i32)
    requires
        value.shape.len() > 0,
        0 <= start <= stop <= value.shape[0],
    ensures
        t_slice(Ok(value), 0, start, stop) matches Ok(r) && r.shape == value.shape.update(
            0,
            (stop - start) as i32,
        ) && forall|ix: Seq<int>| #[trigger]
            in_shape(ix, r.shape) ==> elem(r, ix) == elem(value, ix.update(0, ix[0] + start)),
{
    reveal(raw_slice);
}

/// The parts of a fused attention projection are its rows in order: those of the queries, then
/// those of the keys, then those of the values, and none is lost.
pub proof fn fused_attention_is_cut_by_rows(key: Seq<char>, value: Term, sizes: FusedSizes)
    requires
        fused_parts(key, "qkv_proj"@) is Some,
        value.shape.len() > 0,
        sizes.q_out >= 0,
        sizes.kv_out >= 0,
        value.shape[0] == sizes.q_out + 2 * sizes.kv_out,
    ensures
        split_entry(key, value, sizes) matches Ok(parts) && parts.len() == 3
            && parts[0].1.shape[0] == sizes.q_out && parts[1].1.shape[0] == sizes.kv_out
            && parts[2].1.shape[0] == sizes.kv_out && forall|ix: Seq<int>| #[trigger]
            in_shape(ix, value.shape) ==> elem(value, ix) == if ix[0] < sizes.q_out {
                elem(parts[0].1, ix)
            } else if ix[0] < sizes.q_out + sizes.kv_out {
                elem(parts[1].1, ix.update(0, ix[0] - sizes.q_out))
            } else {
                elem(parts[2].1, ix.update(0, ix[0] - sizes.q_out - sizes.kv_out))
            },
{
    let q = sizes.q_out;
    let kv = sizes.kv_out;
    lemma_rows(value, 0, q);
    lemma_rows(value, q, (q + kv) as i32);
    lemma_rows(value, (q + kv) as i32, (q + 2 * kv) as i32);
    let parts = split_entry(key, value, sizes)->Ok_0;
    assert forall|ix: Seq<int>| #[trigger] in_shape(ix, value.shape) implies elem(value, ix)
        == if ix[0] < q {
        elem(parts[0].1, ix)
    } else if ix[0] < q + kv {
        elem(parts[1].1, ix.update(0, ix[0] - q))
    } else {
        elem(parts[2].1, ix.update(0, ix[0] - q - kv))
    } by {
        assert(0 <= ix[0] < value.shape[0]);
        if ix[0] < q {
            assert(in_shape(ix, parts[0].1.shape));
            assert(ix.update(0, ix[0] + 0) =~= ix);
        } else if ix[0] < q + kv {
            let jx = ix.update(0, ix[0] - q);
            assert(in_shape(jx, parts[1].1.shape));
            assert(jx.update(0, jx[0] + q) =~= ix);
        } else {
            let jx = ix.update(0, ix[0] - q - kv);
            assert(in_shape(jx, parts[2].1.shape));
            assert(jx.update(0, jx[0] + (q + kv)) =~= ix);
        }
    }
}

/// The parts of a fused feed-forward projection are its two halves in order.
pub proof fn fused_feed_forward_is_cut_by_rows(key: Seq<char>, value: Term, sizes: FusedSizes)
    requires
        fused_parts(key, "qkv_proj"@) is None,
        fused_parts(key, "gate_up_proj"@) is Some,
        value.shape.len() > 0,
        sizes.inter >= 0,
        value.shape[0] == 2 * sizes.inter,
    ensures
        split_entry(key, value, sizes) matches Ok(parts) && parts.len() == 2
            && parts[0].1.shape[0] == sizes.inter && parts[1].1.shape[0] == sizes.inter && forall|
            ix: Seq<int>,
        | #[trigger]
            in_shape(ix, value.shape) ==> elem(value, ix) == if ix[0] < sizes.inter {
                elem(parts[0].1, ix)
            } else {
                elem(parts[1].1, ix.update(0, ix[0] - sizes.inter))
            },
{
    let n = sizes.inter;
    lemma_rows(value, 0, n);
    lemma_rows(value, n, (2 * n) as i32);
    let parts = split_entry(key, value, sizes)->Ok_0;
    assert forall|ix: Seq<int>| #[trigger] in_shape(ix, value.shape) implies elem(value, ix)
        == if ix[0] < n {
        elem(parts[0].1, ix)
    } else {
        elem(parts[1].1, ix.update(0, ix[0] - n))
    } by {
        assert(0 <= ix[0] < value.shape[0]);
        if ix[0] < n {
            assert(in_shape(ix, parts[0].1.shape));
            assert(ix.update(0, ix[0] + 0) =~= ix);
        } else {
            let jx = ix.update(0, ix[0] - n);
            assert(in_shape(jx, parts[1].1.shape));
            assert(jx.update(0, jx[0] + n) =~= ix);
        }
    }
}

/// Arrays that are not fused pass through a split as they are.
pub proof fn plain_arrays_pass(e: Seq<(Seq<char>, Term)>, sizes: FusedSizes)
    requires
        forall|i: int|
            0 <= i < e.len() ==> fused_parts((#[trigger] e[i]).0, "qkv_proj"@) is None
                && fused_parts(e[i].0, "gate_up_proj"@) is None,
    ensures
        split_entries(e, sizes) == Ok::<Seq<(Seq<char>, Term)>, Exception>(e),
    decreases e.len(),
{
    if e.len() > 0 {
        let d = e.drop_last();
        assert forall|i: int| 0 <= i < d.len() implies fused_parts(
            (#[trigger] d[i]).0,
            "qkv_proj"@,
        ) is None && fused_parts(d[i].0, "gate_up_proj"@) is None by {
            assert(d[i] == e[i]);
        }
        plain_arrays_pass(d, sizes);
        assert(e.last() == e[e.len() - 1]);
        assert(d + seq![e.last()] =~= e);
    } else {
        assert(e =~= seq![]);
    }
}

/// Packing a layer that is packed already changes nothing, whatever the second packing asks for.
pub proof fn packing_twice_is_packing_once(
    l: LinearTerm,
    t: EmbeddingTerm,
    group_size: i32,
    bits: i32,
    other_size: i32,
    other_bits: i32,
)
    ensures
        packed_linear(l, group_size, bits) matches Ok(p) ==> packed_linear(
            p,
            other_size,
            other_bits,
        ) == Ok::<LinearTerm, Exception>(p),
        packed_embedding(t, group_size, bits) matches Ok(p) ==> packed_embedding(
            p,
            other_size,
            other_bits,
        ) == Ok::<EmbeddingTerm, Exception>(p),
{
}

} // verus!
