//! Putting the arrays of a checkpoint into a model.
//!
//! Checkpoints store a packed weight beside its scales, as `<prefix>.weight`; a packed layer keeps
//! it one level down, as `<prefix>.inner.weight`. Names are rewritten accordingly, and names that a
//! model does not have are skipped.

use crate::array::{strings, tn, Array, Term, Tn};
use crate::error::Exception;
use crate::ops::layout::t_transpose;
use crate::params::Parameters;
use crate::text::{
    begins, ends_with, find_text, finishes, first_at, holds, join, same_text, starts_with,
    strip_prefix, strip_suffix,
};
use vstd::prelude::*;
use vstd::string::*;

verus! {

/// The names and arrays of a checkpoint.
pub open spec fn entries(v: Seq<(String, Array)>) -> Seq<(Seq<char>, Term)> {
    Seq::new(v.len(), |i: int| (v[i].0@, v[i].1@))
}

/// Whether a checkpoint has an array of this name.
pub open spec fn has_entry(e: Seq<(Seq<char>, Term)>, key: Seq<char>) -> bool {
    exists|i: int| 0 <= i < e.len() && (#[trigger] e[i]).0 == key
}

/// How the names of a checkpoint become the names of a model.
#[derive(Clone, Copy, PartialEq, Eq, Debug, Structural)]
pub enum Remap {
    /// Names stay as they are.
    AsStored,
    /// A weight that has scales beside it goes one level down.
    ScaledWeight,
    /// A weight or bias that has scales beside it goes one level down.
    ScaledWeightAndBias,
    /// A weight goes one level down where the model has it there.
    InnerWeight,
    /// A weight or bias goes one level down where the model has it there.
    InnerWeightAndBias,
    /// The feed-forward part of a layer goes to its routed or its plain form, whichever the model
    /// has; then a weight goes one level down where the model has it there.
    RoutedInnerWeight,
}

/// The name of what is stored one level down.
pub open spec fn inner_weight(prefix: Seq<char>) -> Seq<char> {
    prefix + ".inner.weight"@
}

/// The name of what is stored one level down.
pub open spec fn inner_bias(prefix: Seq<char>) -> Seq<char> {
    prefix + ".inner.bias"@
}

/// A text without its ending.
pub open spec fn without(s: Seq<char>, ending: Seq<char>) -> Seq<char> {
    s.take(s.len() - ending.len())
}

/// The text with the first place of `p` in it replaced.
pub open spec fn replaced_first(s: Seq<char>, p: Seq<char>, with: Seq<char>) -> Seq<char> {
    if holds(s, p) {
        let i = choose|i: int| first_at(s, p, i);
        s.take(i) + with + s.skip(i + p.len())
    } else {
        s
    }
}

/// Whether the model has the parameter, be it one level down.
pub open spec fn reachable<M: Parameters>(model: M, key: Seq<char>) -> bool {
    model.param(key) is Some || model.param(
        replaced_first(key, ".weight"@, ".inner.weight"@),
    ) is Some
}

/// The name under which a layer of the model holds its feed-forward part.
pub open spec fn routed<M: Parameters>(model: M, key: Seq<char>) -> Seq<char> {
    let moe = replaced_first(key, ".mlp."@, ".mlp_moe."@);
    let dense = replaced_first(key, ".mlp."@, ".mlp_dense."@);
    if !holds(key, ".mlp."@) {
        key
    } else if reachable(model, moe) {
        moe
    } else if reachable(model, dense) {
        dense
    } else {
        key
    }
}

/// The name of a weight where it goes one level down if the model has it there.
pub open spec fn inner_if_present<M: Parameters>(model: M, key: Seq<char>) -> Seq<char> {
    if finishes(key, ".weight"@) && model.param(inner_weight(without(key, ".weight"@))) is Some {
        inner_weight(without(key, ".weight"@))
    } else {
        key
    }
}

/// The name in a model for a name in a checkpoint.
pub open spec fn mapped<M: Parameters>(
    rule: Remap,
    model: M,
    e: Seq<(Seq<char>, Term)>,
    key: Seq<char>,
) -> Seq<char> {
    let w = without(key, ".weight"@);
    let b = without(key, ".bias"@);
    match rule {
        Remap::AsStored => key,
        Remap::ScaledWeight => if finishes(key, ".weight"@) && has_entry(e, w + ".scales"@) {
            inner_weight(w)
        } else {
            key
        },
        Remap::ScaledWeightAndBias => if finishes(key, ".weight"@) && has_entry(
            e,
            w + ".scales"@,
        ) {
            inner_weight(w)
        } else if finishes(key, ".bias"@) && has_entry(e, b + ".scales"@) {
            inner_bias(b)
        } else {
            key
        },
        Remap::InnerWeight => inner_if_present(model, key),
        Remap::InnerWeightAndBias => if finishes(key, ".weight"@) && model.param(
            inner_weight(w),
        ) is Some {
            inner_weight(w)
        } else if finishes(key, ".bias"@) && model.param(inner_bias(b)) is Some {
            inner_bias(b)
        } else {
            key
        },
        Remap::RoutedInnerWeight => inner_if_present(model, routed(model, key)),
    }
}

/// The last array of a checkpoint whose name becomes `key`.
pub open spec fn assigned<M: Parameters>(
    rule: Remap,
    model: M,
    all: Seq<(Seq<char>, Term)>,
    e: Seq<(Seq<char>, Term)>,
    key: Seq<char>,
) -> Option<Term>
    decreases e.len(),
{
    if e.len() == 0 {
        None
    } else if mapped(rule, model, all, e.last().0) == key {
        Some(e.last().1)
    } else {
        assigned(rule, model, all, e.drop_last(), key)
    }
}

/// The number of arrays whose name becomes one that the model has.
pub open spec fn match_count<M: Parameters>(
    rule: Remap,
    model: M,
    all: Seq<(Seq<char>, Term)>,
    e: Seq<(Seq<char>, Term)>,
) -> nat
    decreases e.len(),
{
    if e.len() == 0 {
        0
    } else {
        match_count(rule, model, all, e.drop_last()) + (if model.param(
            mapped(rule, model, all, e.last().0),
        ) is Some {
            1nat
        } else {
            0
        })
    }
}

/// The parameter of a model after loading: the last array of that name, or what it was.
pub open spec fn loaded_param<M: Parameters>(
    rule: Remap,
    model: M,
    all: Seq<(Seq<char>, Term)>,
    e: Seq<(Seq<char>, Term)>,
    key: Seq<char>,
) -> Option<Term> {
    if model.param(key) is Some && assigned(rule, model, all, e, key) is Some {
        assigned(rule, model, all, e, key)
    } else {
        model.param(key)
    }
}

/// Whether two models have parameters of the same names.
pub open spec fn same_names<M: Parameters>(a: M, b: M) -> bool {
    forall|k: Seq<char>| (#[trigger] a.param(k) is Some) == (b.param(k) is Some)
}

fn in_checkpoint(loaded: &Vec<(String, Array)>, key: &str) -> (r: bool)
    ensures
        r == has_entry(entries(loaded@), key@),
{
    let mut i: usize = 0;
    while i < loaded.len()
        invariant
            i <= loaded.len(),
            forall|j: int| 0 <= j < i ==> (#[trigger] entries(loaded@)[j]).0 != key@,
        decreases loaded.len() - i,
    {
        proof {
            assert(entries(loaded@)[i as int].0 == loaded@[i as int].0@);
        }
        if same_text(loaded[i].0.as_str(), key) {
            return true;
        }
        i += 1;
    }
    false
}

/// Replaces the first place of `p` in a text.
pub fn replace_first(s: &str, p: &str, with: &str) -> (r: String)
    ensures
        r@ == replaced_first(s@, p@, with@),
{
    match find_text(s, p) {
        Some(i) => {
            proof {
                assert(crate::text::stands_at(s@, p@, i as int));
                let c = choose|c: int| first_at(s@, p@, c);
                assert(first_at(s@, p@, c));
                assert(c == i) by {
                    if c < i {
                        assert(!crate::text::stands_at(s@, p@, c));
                    } else if i < c {
                        assert(!crate::text::stands_at(s@, p@, i as int));
                    }
                }
            }
            let n: usize = s.unicode_len();
            let head = s.substring_char(0, i);
            let tail = s.substring_char(i + p.unicode_len(), n);
            let front = join(head, with);
            let r = join(front.as_str(), tail);
            proof {
                assert(head@ =~= s@.take(i as int));
                assert(tail@ =~= s@.skip(i + p@.len()));
            }
            r
        },
        None => String::from_str(s),
    }
}

fn is_reachable<M: Parameters>(model: &M, key: &str) -> (r: bool)
    ensures
        r == reachable(*model, key@),
{
    model.has_param(key) || model.has_param(
        replace_first(key, ".weight", ".inner.weight").as_str(),
    )
}

fn route<M: Parameters>(model: &M, key: &str) -> (r: String)
    ensures
        r@ == routed(*model, key@),
{
    match find_text(key, ".mlp.") {
        Some(_) => {},
        None => {
            return String::from_str(key);
        },
    }
    let moe = replace_first(key, ".mlp.", ".mlp_moe.");
    if is_reachable(model, moe.as_str()) {
        return moe;
    }
    let dense = replace_first(key, ".mlp.", ".mlp_dense.");
    if is_reachable(model, dense.as_str()) {
        return dense;
    }
    String::from_str(key)
}

fn to_inner_if_present<M: Parameters>(model: &M, key: &str) -> (r: String)
    ensures
        r@ == inner_if_present(*model, key@),
{
    match strip_suffix(key, ".weight") {
        Some(prefix) => {
            let inner = join(prefix, ".inner.weight");
            if model.has_param(inner.as_str()) {
                return inner;
            }
        },
        None => {},
    }
    String::from_str(key)
}

/// Rewrites a name of a checkpoint.
pub fn map_key<M: Parameters>(
    rule: Remap,
    model: &M,
    loaded: &Vec<(String, Array)>,
    key: &str,
) -> (r: String)
    ensures
        r@ == mapped(rule, *model, entries(loaded@), key@),
{
    match rule {
        Remap::AsStored => String::from_str(key),
        Remap::ScaledWeight | Remap::ScaledWeightAndBias => {
            match strip_suffix(key, ".weight") {
                Some(prefix) => {
                    if in_checkpoint(loaded, join(prefix, ".scales").as_str()) {
                        return join(prefix, ".inner.weight");
                    }
                },
                None => {},
            }
            if rule == Remap::ScaledWeightAndBias {
                match strip_suffix(key, ".bias") {
                    Some(prefix) => {
                        if in_checkpoint(loaded, join(prefix, ".scales").as_str()) {
                            return join(prefix, ".inner.bias");
                        }
                    },
                    None => {},
                }
            }
            String::from_str(key)
        },
        Remap::InnerWeight => to_inner_if_present(model, key),
        Remap::InnerWeightAndBias => {
            match strip_suffix(key, ".weight") {
                Some(prefix) => {
                    let inner = join(prefix, ".inner.weight");
                    if model.has_param(inner.as_str()) {
                        return inner;
                    }
                },
                None => {},
            }
            match strip_suffix(key, ".bias") {
                Some(prefix) => {
                    let inner = join(prefix, ".inner.bias");
                    if model.has_param(inner.as_str()) {
                        return inner;
                    }
                },
                None => {},
            }
            String::from_str(key)
        },
        Remap::RoutedInnerWeight => to_inner_if_present(model, route(model, key).as_str()),
    }
}

/// Models with parameters of the same names give a name of a checkpoint the same name.
pub proof fn lemma_mapped_same<M: Parameters>(
    rule: Remap,
    a: M,
    b: M,
    e: Seq<(Seq<char>, Term)>,
    key: Seq<char>,
)
    requires
        same_names(a, b),
    ensures
        mapped(rule, a, e, key) == mapped(rule, b, e, key),
{
    let moe = replaced_first(key, ".mlp."@, ".mlp_moe."@);
    let dense = replaced_first(key, ".mlp."@, ".mlp_dense."@);
    assert((a.param(moe) is Some) == (b.param(moe) is Some));
    assert((a.param(dense) is Some) == (b.param(dense) is Some));
    let m2 = replaced_first(moe, ".weight"@, ".inner.weight"@);
    let d2 = replaced_first(dense, ".weight"@, ".inner.weight"@);
    assert((a.param(m2) is Some) == (b.param(m2) is Some));
    assert((a.param(d2) is Some) == (b.param(d2) is Some));
    let r = routed(a, key);
    assert(r == routed(b, key));
    let w = inner_weight(without(key, ".weight"@));
    let w2 = inner_weight(without(r, ".weight"@));
    let v = inner_bias(without(key, ".bias"@));
    assert((a.param(w) is Some) == (b.param(w) is Some));
    assert((a.param(w2) is Some) == (b.param(w2) is Some));
    assert((a.param(v) is Some) == (b.param(v) is Some));
}

/// Puts the arrays of a checkpoint file into a model under their rewritten names, later ones over
/// earlier ones, and counts those that found a place.
pub fn load_weights_remapped<M: Parameters>(
    model: &mut M,
    loaded: &Vec<(String, Array)>,
    rule: Remap,
) -> (matched: usize)
    ensures
        matched == match_count(rule, *old(model), entries(loaded@), entries(loaded@)),
        forall|k: Seq<char>| #[trigger]
            final(model).param(k) == loaded_param(
                rule,
                *old(model),
                entries(loaded@),
                entries(loaded@),
                k,
            ),
        same_names(*old(model), *final(model)),
        final(model).frame() == old(model).frame(),
{
    let mut matched: usize = 0;
    let mut i: usize = 0;
    let ghost all = entries(loaded@);
    while i < loaded.len()
        invariant
            i <= loaded.len(),
            all == entries(loaded@),
            matched <= i,
            matched == match_count(rule, *old(model), all, all.take(i as int)),
            same_names(*old(model), *model),
            model.frame() == old(model).frame(),
            forall|k: Seq<char>| #[trigger]
                model.param(k) == loaded_param(rule, *old(model), all, all.take(i as int), k),
        decreases loaded.len() - i,
    {
        let ghost before = *model;
        let ghost e = all.take(i + 1);
        proof {
            assert(e.drop_last() =~= all.take(i as int));
            assert(e.last() == (loaded@[i as int].0@, loaded@[i as int].1@));
            lemma_mapped_same(rule, *old(model), *model, all, loaded@[i as int].0@);
        }
        let key = map_key(rule, model, loaded, loaded[i].0.as_str());
        let done = model.set_param(key.as_str(), loaded[i].1.share());
        proof {
            assert(old(model).param(key@) is Some == before.param(key@) is Some);
            assert forall|k: Seq<char>| #[trigger]
                model.param(k) == loaded_param(rule, *old(model), all, e, k) by {
                assert(before.param(k) == loaded_param(
                    rule,
                    *old(model),
                    all,
                    all.take(i as int),
                    k,
                ));
                assert((old(model).param(k) is Some) == (before.param(k) is Some));
            }
            assert forall|k: Seq<char>| (#[trigger] old(model).param(k) is Some) == (model.param(
                k,
            ) is Some) by {
                assert((old(model).param(k) is Some) == (before.param(k) is Some));
                assert(model.param(k) == (if done && k == key@ {
                    Some(loaded@[i as int].1@)
                } else {
                    before.param(k)
                }));
            }
        }
        if done {
            matched += 1;
        }
        i += 1;
    }
    proof {
        assert(all.take(i as int) =~= all);
    }
    matched
}

/// The names and arrays of the files of a checkpoint.
pub open spec fn file_entries(files: Seq<Vec<(String, Array)>>) -> Seq<Seq<(Seq<char>, Term)>> {
    Seq::new(files.len(), |i: int| entries(files[i]@))
}

/// The parameter of a model after loading files one after the other.
pub open spec fn files_param<M: Parameters>(
    rule: Remap,
    model: M,
    files: Seq<Seq<(Seq<char>, Term)>>,
    key: Seq<char>,
) -> Option<Term>
    decreases files.len(),
{
    if files.len() == 0 {
        model.param(key)
    } else if model.param(key) is Some && assigned(
        rule,
        model,
        files.last(),
        files.last(),
        key,
    ) is Some {
        assigned(rule, model, files.last(), files.last(), key)
    } else {
        files_param(rule, model, files.drop_last(), key)
    }
}

/// Whether `after` is the model with the files of a checkpoint loaded, `counts` of whose arrays
/// found a place.
pub open spec fn loaded_from<M: Parameters>(
    rule: Remap,
    model: M,
    files: Seq<Seq<(Seq<char>, Term)>>,
    after: M,
    counts: Seq<usize>,
) -> bool {
    &&& after.frame() == model.frame()
    &&& same_names(model, after)
    &&& forall|k: Seq<char>| #[trigger] after.param(k) == files_param(rule, model, files, k)
    &&& counts.len() == files.len()
    &&& forall|i: int|
        0 <= i < files.len() ==> #[trigger] counts[i] == match_count(
            rule,
            model,
            files[i],
            files[i],
        )
}

/// Models with parameters of the same names are assigned the same arrays.
pub proof fn lemma_assigned_same<M: Parameters>(
    rule: Remap,
    a: M,
    b: M,
    all: Seq<(Seq<char>, Term)>,
    e: Seq<(Seq<char>, Term)>,
    key: Seq<char>,
)
    requires
        same_names(a, b),
    ensures
        assigned(rule, a, all, e, key) == assigned(rule, b, all, e, key),
    decreases e.len(),
{
    if e.len() > 0 {
        lemma_mapped_same(rule, a, b, all, e.last().0);
        lemma_assigned_same(rule, a, b, all, e.drop_last(), key);
    }
}

/// Models with parameters of the same names match as many arrays.
proof fn lemma_count_same<M: Parameters>(
    rule: Remap,
    a: M,
    b: M,
    all: Seq<(Seq<char>, Term)>,
    e: Seq<(Seq<char>, Term)>,
)
    requires
        same_names(a, b),
    ensures
        match_count(rule, a, all, e) == match_count(rule, b, all, e),
    decreases e.len(),
{
    if e.len() > 0 {
        lemma_mapped_same(rule, a, b, all, e.last().0);
        lemma_count_same(rule, a, b, all, e.drop_last());
        let k = mapped(rule, a, all, e.last().0);
        assert((a.param(k) is Some) == (b.param(k) is Some));
    }
}

/// One more file.
proof fn lemma_one_more<M: Parameters>(
    rule: Remap,
    model: M,
    files: Seq<Seq<(Seq<char>, Term)>>,
    middle: M,
    counts: Seq<usize>,
    e: Seq<(Seq<char>, Term)>,
    after: M,
    n: usize,
)
    requires
        loaded_from(rule, model, files, middle, counts),
        after.frame() == middle.frame(),
        same_names(middle, after),
        forall|k: Seq<char>| #[trigger] after.param(k) == loaded_param(rule, middle, e, e, k),
        n == match_count(rule, middle, e, e),
    ensures
        loaded_from(rule, model, files.push(e), after, counts.push(n)),
{
    let all = files.push(e);
    assert(all.drop_last() =~= files);
    assert forall|k: Seq<char>| #[trigger] after.param(k) == files_param(rule, model, all, k) by {
        assert((model.param(k) is Some) == (middle.param(k) is Some));
        assert(middle.param(k) == files_param(rule, model, files, k));
        lemma_assigned_same(rule, model, middle, e, e, k);
    }
    assert forall|k: Seq<char>| (#[trigger] model.param(k) is Some) == (after.param(k) is Some) by {
        assert((model.param(k) is Some) == (middle.param(k) is Some));
        assert((middle.param(k) is Some) == (after.param(k) is Some));
    }
    lemma_count_same(rule, model, middle, e, e);
    assert forall|i: int| 0 <= i < all.len() implies #[trigger] counts.push(n)[i] == match_count(
        rule,
        model,
        all[i],
        all[i],
    ) by {
        if i < files.len() {
            assert(counts.push(n)[i] == counts[i]);
            assert(all[i] == files[i]);
        }
    }
}

/// Puts the arrays of the files of a checkpoint into a model, file by file, and counts for each
/// file those that found a place. Scales count within their own file.
pub fn load_files<M: Parameters>(
    model: &mut M,
    files: &Vec<Vec<(String, Array)>>,
    rule: Remap,
) -> (counts: Vec<usize>)
    ensures
        loaded_from(rule, *old(model), file_entries(files@), *final(model), counts@),
{
    let ghost all = file_entries(files@);
    let mut counts: Vec<usize> = Vec::new();
    let mut i: usize = 0;
    proof {
        assert(all.take(0) =~= seq![]);
    }
    while i < files.len()
        invariant
            i <= files@.len(),
            all == file_entries(files@),
            loaded_from(rule, *old(model), all.take(i as int), *model, counts@),
        decreases files@.len() - i,
    {
        let ghost before = *model;
        let ghost held = counts@;
        let n: usize = load_weights_remapped(model, &files[i], rule);
        counts.push(n);
        proof {
            assert(all.take(i + 1) =~= all.take(i as int).push(entries(files@[i as int]@)));
            lemma_one_more(
                rule,
                *old(model),
                all.take(i as int),
                before,
                held,
                entries(files@[i as int]@),
                *model,
                n,
            );
        }
        i += 1;
    }
    proof {
        assert(all.take(i as int) =~= all);
    }
    counts
}

/// The names of a list, each at the first place where it stands.
pub open spec fn distinct(v: Seq<Seq<char>>) -> Seq<Seq<char>>
    decreases v.len(),
{
    if v.len() == 0 {
        v
    } else {
        let front = distinct(v.drop_last());
        if front.contains(v.last()) {
            front
        } else {
            front.push(v.last())
        }
    }
}

/// The files that an index of a checkpoint names, each once, in the order in which they first
/// come up.
pub fn weight_files(files: &Vec<String>) -> (r: Vec<String>)
    ensures
        strings(r@) == distinct(strings(files@)),
{
    let ghost all = strings(files@);
    let mut out: Vec<String> = Vec::new();
    let mut i: usize = 0;
    proof {
        assert(strings(out@) =~= distinct(all.take(0)));
    }
    while i < files.len()
        invariant
            i <= files.len(),
            all == strings(files@),
            strings(out@) == distinct(all.take(i as int)),
        decreases files.len() - i,
    {
        proof {
            assert(all.take(i + 1).drop_last() =~= all.take(i as int));
            assert(all.take(i + 1).last() == files@[i as int]@);
        }
        if !crate::text::has_text(&out, files[i].as_str()) {
            let ghost before = strings(out@);
            out.push(files[i].clone());
            proof {
                assert(strings(out@) =~= before.push(files@[i as int]@));
            }
        }
        i += 1;
    }
    proof {
        assert(all.take(i as int) =~= all);
    }
    out
}

/// The name of a text weight in a checkpoint that may hold more than text: without the prefix of
/// the text model, and nothing for the weights of a vision tower.
pub open spec fn text_name(key: Seq<char>) -> Option<Seq<char>> {
    if begins(key, "language_model."@) {
        Some(key.skip("language_model."@.len() as int))
    } else if begins(key, "vision_tower."@) || begins(key, "visual."@) {
        None
    } else {
        Some(key)
    }
}

/// The order of axes that moves axis two before axis one.
pub open spec fn two_before_one(rank: nat) -> Seq<i32> {
    Seq::new(
        rank,
        |i: int|
            if i == 1 {
                2i32
            } else if i == 2 {
                1i32
            } else {
                i as i32
            },
    )
}

/// The weight of a text model: the kernel of a convolution is brought into the order
/// `[channels, positions, 1]`, where it is not yet.
pub open spec fn text_value(name: Seq<char>, value: Term) -> Tn {
    if finishes(name, "conv1d.weight"@) {
        if value.shape.len() == 0 {
            Err(Exception::Operands)
        } else if value.shape.last() != 1 {
            if value.shape.len() < 3 || value.shape.len() > i32::MAX {
                Err(Exception::Operands)
            } else {
                t_transpose(Ok(value), two_before_one(value.shape.len()))
            }
        } else {
            Ok(value)
        }
    } else {
        Ok(value)
    }
}

/// The text weights of a checkpoint.
pub open spec fn text_entries(e: Seq<(Seq<char>, Term)>) -> Result<
    Seq<(Seq<char>, Term)>,
    Exception,
>
    decreases e.len(),
{
    if e.len() == 0 {
        Ok(seq![])
    } else {
        match text_entries(e.drop_last()) {
            Ok(front) => match text_name(e.last().0) {
                Some(name) => match text_value(name, e.last().1) {
                    Ok(v) => Ok(front.push((name, v))),
                    Err(x) => Err(x),
                },
                None => Ok(front),
            },
            Err(x) => Err(x),
        }
    }
}

proof fn lemma_text_fails(e: Seq<(Seq<char>, Term)>, n: int)
    requires
        0 <= n <= e.len(),
        text_entries(e.take(n)) is Err,
    ensures
        text_entries(e) == text_entries(e.take(n)),
    decreases e.len() - n,
{
    if n < e.len() {
        assert(e.take(n + 1).drop_last() =~= e.take(n));
        lemma_text_fails(e, n + 1);
    } else {
        assert(e.take(n) =~= e);
    }
}

fn fix_value(name: &str, value: &Array) -> (r: Result<Array, Exception>)
    ensures
        tn(r) == text_value(name@, value@),
{
    if !ends_with(name, "conv1d.weight") {
        return Ok(value.share());
    }
    let n: usize = value.ndim();
    if n == 0 {
        return Err(Exception::Operands);
    }
    if value.shape()[n - 1] == 1 {
        return Ok(value.share());
    }
    if n < 3 || n > 0x7fff_ffff {
        return Err(Exception::Operands);
    }
    let mut axes: Vec<i32> = Vec::new();
    let mut i: usize = 0;
    while i < n
        invariant
            i <= n <= i32::MAX,
            axes@ =~= two_before_one(n as nat).take(i as int),
        decreases n - i,
    {
        axes.push(
            if i == 1 {
                2
            } else if i == 2 {
                1
            } else {
                i as i32
            },
        );
        i += 1;
    }
    proof {
        assert(axes@ =~= two_before_one(n as nat));
    }
    value.transpose_axes(axes)
}

/// The outcome of picking the text weights.
pub open spec fn entries_outcome(r: Result<Vec<(String, Array)>, Exception>) -> Result<
    Seq<(Seq<char>, Term)>,
    Exception,
> {
    match r {
        Ok(v) => Ok(entries(v@)),
        Err(e) => Err(e),
    }
}

/// Picks the text weights of a checkpoint.
pub fn text_weights(loaded: &Vec<(String, Array)>) -> (r: Result<
    Vec<(String, Array)>,
    Exception,
>)
    ensures
        entries_outcome(r) == text_entries(entries(loaded@)),
{
    let ghost all = entries(loaded@);
    let mut out: Vec<(String, Array)> = Vec::new();
    let mut i: usize = 0;
    proof {
        assert(all.take(0) =~= seq![]);
        assert(entries(out@) =~= seq![]);
    }
    while i < loaded.len()
        invariant
            i <= loaded.len(),
            all == entries(loaded@),
            text_entries(all.take(i as int)) == Ok::<_, Exception>(entries(out@)),
        decreases loaded.len() - i,
    {
        let key: &str = loaded[i].0.as_str();
        proof {
            assert(all.take(i + 1).drop_last() =~= all.take(i as int));
            assert(all.take(i + 1).last() == (key@, loaded@[i as int].1@));
        }
        let name: Option<&str> = match strip_prefix(key, "language_model.") {
            Some(rest) => Some(rest),
            None => if starts_with(key, "vision_tower.") || starts_with(key, "visual.") {
                None
            } else {
                Some(key)
            },
        };
        match name {
            Some(n) => {
                let value = fix_value(n, &loaded[i].1);
                proof {
                    if value is Err {
                        lemma_text_fails(all, i + 1);
                    }
                }
                let value = value?;
                let ghost before = entries(out@);
                out.push((String::from_str(n), value));
                proof {
                    assert(entries(out@) =~= before.push((n@, value@)));
                }
            },
            None => {},
        }
        i += 1;
    }
    proof {
        assert(all.take(i as int) =~= all);
    }
    Ok(out)
}

/// The text weights of the files of a checkpoint.
pub open spec fn text_files(files: Seq<Seq<(Seq<char>, Term)>>) -> Result<
    Seq<Seq<(Seq<char>, Term)>>,
    Exception,
>
    decreases files.len(),
{
    if files.len() == 0 {
        Ok(seq![])
    } else {
        match (text_files(files.drop_last()), text_entries(files.last())) {
            (Ok(front), Ok(e)) => Ok(front.push(e)),
            (Err(x), _) => Err(x),
            (Ok(_), Err(x)) => Err(x),
        }
    }
}

proof fn lemma_files_fail(files: Seq<Seq<(Seq<char>, Term)>>, n: int)
    requires
        0 <= n <= files.len(),
        text_files(files.take(n)) is Err,
    ensures
        text_files(files) == text_files(files.take(n)),
    decreases files.len() - n,
{
    if n < files.len() {
        assert(files.take(n + 1).drop_last() =~= files.take(n));
        lemma_files_fail(files, n + 1);
    } else {
        assert(files.take(n) =~= files);
    }
}

/// Picks the text weights of the files of a checkpoint.
pub fn pick_text_files(files: &Vec<Vec<(String, Array)>>) -> (r: Result<
    Vec<Vec<(String, Array)>>,
    Exception,
>)
    ensures
        text_files(file_entries(files@)) == match r {
            Ok(v) => Ok::<Seq<Seq<(Seq<char>, Term)>>, Exception>(file_entries(v@)),
            Err(e) => Err(e),
        },
{
    let ghost all = file_entries(files@);
    let mut out: Vec<Vec<(String, Array)>> = Vec::new();
    let mut i: usize = 0;
    proof {
        assert(all.take(0) =~= seq![]);
        assert(file_entries(out@) =~= seq![]);
    }
    while i < files.len()
        invariant
            i <= files@.len(),
            all == file_entries(files@),
            text_files(all.take(i as int)) == Ok::<Seq<Seq<(Seq<char>, Term)>>, Exception>(
                file_entries(out@),
            ),
        decreases files@.len() - i,
    {
        proof {
            assert(all.take(i + 1).drop_last() =~= all.take(i as int));
            assert(all.take(i + 1).last() == entries(files@[i as int]@));
        }
        let text = text_weights(&files[i]);
        proof {
            if text is Err {
                lemma_files_fail(all, i + 1);
            }
        }
        let text = text?;
        let ghost before = file_entries(out@);
        let ghost e = entries(text@);
        out.push(text);
        proof {
            assert(file_entries(out@) =~= before.push(e));
        }
        i += 1;
    }
    proof {
        assert(all.take(i as int) =~= all);
    }
    Ok(out)
}

/// Puts the text weights of the files of a checkpoint into a model.
pub fn load_text_files<M: Parameters>(model: &mut M, files: &Vec<Vec<(String, Array)>>) -> (r:
    Result<Vec<usize>, Exception>)
    ensures
        match text_files(file_entries(files@)) {
            Ok(e) => r matches Ok(counts) && loaded_from(
                Remap::InnerWeight,
                *old(model),
                e,
                *final(model),
                counts@,
            ),
            Err(x) => r == Err::<Vec<usize>, Exception>(x) && *final(model) == *old(model),
        },
{
    let text = pick_text_files(files)?;
    Ok(load_files(model, &text, Remap::InnerWeight))
}

/// Whether a file name is that of one of several parts of a checkpoint.
pub open spec fn is_shard(name: Seq<char>) -> bool {
    begins(name, "model-"@) && finishes(name, ".safetensors"@)
}

/// Whether `a` comes before `b`, or is `b`, in the order of their characters.
pub open spec fn in_order(a: Seq<char>, b: Seq<char>) -> bool
    decreases a.len(),
{
    if a.len() == 0 {
        true
    } else if b.len() == 0 {
        false
    } else if a[0] == b[0] {
        in_order(a.skip(1), b.skip(1))
    } else {
        a[0] < b[0]
    }
}

proof fn lemma_order_total(a: Seq<char>, b: Seq<char>)
    ensures
        in_order(a, b) || in_order(b, a),
    decreases a.len(),
{
    if a.len() > 0 && b.len() > 0 && a[0] == b[0] {
        lemma_order_total(a.skip(1), b.skip(1));
    }
}

/// Compares two names by their characters.
fn comes_first(a: &str, b: &str) -> (r: bool)
    ensures
        r == in_order(a@, b@),
{
    let n: usize = a.unicode_len();
    let m: usize = b.unicode_len();
    let mut i: usize = 0;
    proof {
        assert(a@.skip(0) =~= a@);
        assert(b@.skip(0) =~= b@);
    }
    while i < n
        invariant
            i <= n,
            i <= m,
            n == a@.len(),
            m == b@.len(),
            in_order(a@, b@) == in_order(a@.skip(i as int), b@.skip(i as int)),
        decreases n - i,
    {
        if i >= m {
            return false;
        }
        let c: char = a.get_char(i);
        let d: char = b.get_char(i);
        proof {
            assert(a@.skip(i as int).skip(1) =~= a@.skip(i + 1));
            assert(b@.skip(i as int).skip(1) =~= b@.skip(i + 1));
        }
        if c != d {
            return c < d;
        }
        i += 1;
    }
    true
}

/// Whether names are in order.
pub open spec fn sorted(v: Seq<Seq<char>>) -> bool {
    forall|i: int| 0 <= i < v.len() - 1 ==> in_order(#[trigger] v[i], v[i + 1])
}

/// The names of a list that are those of parts of a checkpoint.
pub open spec fn shards_of(v: Seq<Seq<char>>) -> Seq<Seq<char>> {
    v.filter(|n: Seq<char>| is_shard(n))
}

/// Puts a name in its place among names in order.
fn insert_in_order(v: &mut Vec<String>, name: String)
    requires
        sorted(strings(old(v)@)),
    ensures
        sorted(strings(final(v)@)),
        strings(final(v)@).to_multiset() == strings(old(v)@).to_multiset().insert(name@),
        final(v)@.len() == old(v)@.len() + 1,
{
    let ghost before = strings(v@);
    let mut i: usize = 0;
    while i < v.len() && comes_first(v[i].as_str(), name.as_str())
        invariant
            i <= v@.len(),
            strings(v@) == before,
            before == strings(old(v)@),
            v@.len() == old(v)@.len(),
            i > 0 ==> in_order(before[i - 1], name@),
        decreases v@.len() - i,
    {
        proof {
            assert(before[i as int] == v@[i as int]@);
        }
        i += 1;
    }
    let ghost n = name@;
    proof {
        if i < v@.len() {
            assert(before[i as int] == v@[i as int]@);
            lemma_order_total(before[i as int], n);
        }
    }
    v.insert(i, name);
    proof {
        assert(strings(v@) =~= before.insert(i as int, n));
        vstd::seq_lib::to_multiset_insert(before, i as int, n);
        let after = strings(v@);
        assert forall|j: int| 0 <= j < after.len() - 1 implies in_order(
            #[trigger] after[j],
            after[j + 1],
        ) by {
            if j + 1 < i {
                assert(after[j] == before[j] && after[j + 1] == before[j + 1]);
            } else if j > i {
                assert(after[j] == before[j - 1] && after[j + 1] == before[j]);
                assert(in_order(before[j - 1], before[j - 1 + 1]));
            }
        }
    }
}

/// The files of a checkpoint without an index: those of its parts in order, or the one file that
/// holds all of it.
pub fn shard_files(names: &Vec<String>) -> (r: Vec<String>)
    ensures
        shards_of(strings(names@)).len() > 0 ==> {
            &&& sorted(strings(r@))
            &&& strings(r@).to_multiset() == shards_of(strings(names@)).to_multiset()
        },
        shards_of(strings(names@)).len() == 0 ==> strings(r@) == seq!["model.safetensors"@],
{
    let ghost all = strings(names@);
    let ghost keep = |n: Seq<char>| is_shard(n);
    let mut out: Vec<String> = Vec::new();
    let mut i: usize = 0;
    proof {
        assert(all.take(0) =~= seq![]);
        assert(strings(out@) =~= seq![]);
        reveal(Seq::filter);
        assert(all.take(0).filter(keep) =~= seq![]);
        assert(strings(out@).to_multiset() =~= all.take(0).filter(keep).to_multiset());
    }
    while i < names.len()
        invariant
            i <= names@.len(),
            all == strings(names@),
            keep == (|n: Seq<char>| is_shard(n)),
            sorted(strings(out@)),
            strings(out@).to_multiset() == all.take(i as int).filter(keep).to_multiset(),
            out@.len() == all.take(i as int).filter(keep).len(),
        decreases names@.len() - i,
    {
        let name: &str = names[i].as_str();
        proof {
            let front = all.take(i + 1);
            assert(front.drop_last() =~= all.take(i as int));
            assert(front.last() == name@);
            reveal(Seq::filter);
            if is_shard(name@) {
                all.take(i as int).filter(keep).to_multiset_ensures();
            }
        }
        if starts_with(name, "model-") && ends_with(name, ".safetensors") {
            insert_in_order(&mut out, names[i].clone());
        }
        i += 1;
    }
    proof {
        assert(all.take(i as int) =~= all);
    }
    if out.len() == 0 {
        out.push(String::from_str("model.safetensors"));
        proof {
            assert(strings(out@) =~= seq!["model.safetensors"@]);
        }
    }
    out
}

} // verus!
