//! The index of a checkpoint: which files hold its weights.

use crate::array::strings;
use crate::weights::{distinct, weight_files};
use vstd::prelude::*;

verus! {

/// The error of the JSON reader.
#[verifier::external_type_specification]
#[verifier::external_body]
pub struct ExJsonError(serde_json::Error);

/// Why an index cannot be read.
#[derive(Clone, Copy, PartialEq, Eq, Debug, Structural)]
pub enum IndexError {
    /// The text is not JSON.
    NotJson,
}

/// What `serde_json` reads as the members of the object that stands under `key` in the JSON text:
/// for each member its text, or nothing where it is not a text; no members where no object stands
/// under `key`; nothing at all where the text is not JSON.
pub uninterp spec fn member_texts(text: Seq<char>, key: Seq<char>) -> Option<
    Option<Seq<Option<Seq<char>>>>,
>;

/// The texts of members.
pub open spec fn member_views(v: Seq<Option<String>>) -> Seq<Option<Seq<char>>> {
    Seq::new(
        v.len(),
        |i: int|
            match v[i] {
                Some(s) => Some(s@),
                None => None,
            },
    )
}

/// The outcome of reading members.
pub open spec fn members_outcome(
    r: Result<Option<Vec<Option<String>>>, serde_json::Error>,
) -> Option<Option<Seq<Option<Seq<char>>>>> {
    match r {
        Ok(Some(v)) => Some(Some(member_views(v@))),
        Ok(None) => Some(None),
        Err(_) => None,
    }
}

/// Reads JSON with `serde_json::from_str`, looks up `key` in it, and hands out the members of the
/// object found there in the order in which `serde_json` keeps them, each as its text where it is
/// one. That this depends on the two texts alone is taken from `serde_json`.
#[verifier::external_body]
fn read_members(text: &str, key: &str) -> (r: Result<
    Option<Vec<Option<String>>>,
    serde_json::Error,
>)
    ensures
        members_outcome(r) == member_texts(text@, key@),
{
    let value: serde_json::Value = serde_json::from_str(text)?;
    let members = value.get(key).and_then(|m| m.as_object());
    Ok(members.map(|o| o.values().map(|v| v.as_str().map(String::from)).collect()))
}

/// The texts among members.
pub open spec fn texts_among(v: Seq<Option<Seq<char>>>) -> Seq<Seq<char>>
    decreases v.len(),
{
    if v.len() == 0 {
        seq![]
    } else {
        match v.last() {
            Some(s) => texts_among(v.drop_last()).push(s),
            None => texts_among(v.drop_last()),
        }
    }
}

/// The files that the members of an index name, each once.
pub open spec fn files_among(members: Option<Seq<Option<Seq<char>>>>) -> Seq<Seq<char>> {
    match members {
        Some(v) => distinct(texts_among(v)),
        None => seq![],
    }
}

/// The files that the members of an index name, each once, in the order in which they first come
/// up; members that are not texts name none.
pub fn listed_files(members: &Option<Vec<Option<String>>>) -> (r: Vec<String>)
    ensures
        strings(r@) == files_among(
            match *members {
                Some(v) => Some(member_views(v@)),
                None => None,
            },
        ),
{
    let mut texts: Vec<String> = Vec::new();
    match members {
        Some(v) => {
            let ghost all = member_views(v@);
            let mut i: usize = 0;
            proof {
                assert(strings(texts@) =~= seq![]);
                assert(all.take(0) =~= seq![]);
            }
            while i < v.len()
                invariant
                    i <= v@.len(),
                    all == member_views(v@),
                    strings(texts@) == texts_among(all.take(i as int)),
                decreases v@.len() - i,
            {
                proof {
                    assert(all.take(i + 1).drop_last() =~= all.take(i as int));
                    assert(all.take(i + 1).last() == all[i as int]);
                }
                match &v[i] {
                    Some(s) => {
                        let ghost before = strings(texts@);
                        texts.push(s.clone());
                        proof {
                            assert(strings(texts@) =~= before.push(s@));
                        }
                    },
                    None => {},
                }
                i += 1;
            }
            proof {
                assert(all.take(i as int) =~= all);
            }
            weight_files(&texts)
        },
        None => {
            proof {
                assert(strings(texts@) =~= seq![]);
            }
            texts
        },
    }
}

/// The files that an index names under `weight_map`, each once; none where there is no such object.
pub fn index_files(json: &str) -> (r: Result<Vec<String>, IndexError>)
    ensures
        match (r, member_texts(json@, "weight_map"@)) {
            (Ok(v), Some(members)) => strings(v@) == files_among(members),
            (Err(e), None) => e == IndexError::NotJson,
            _ => false,
        },
{
    match read_members(json, "weight_map") {
        Ok(members) => Ok(listed_files(&members)),
        Err(_) => Err(IndexError::NotJson),
    }
}

} // verus!
