//! The one merge step that the storage engine calls for every key: it routes
//! by the key's namespace to the algebra of the values stored there.
use crate::error::Error;
use crate::key::{namespace_of, namespace_spec, Namespace};
use crate::set64::Set64;
use crate::value::{merge, merge_spec, opt_bytes, opt_vec, seq_bytes, MergeView, Value};
use vstd::prelude::*;

verus! {

/// Whether `r` is the settled form of the merge outcome `m`: the merged value,
/// or the fallback value together with the error that forced it.
pub open spec fn settles(r: (Option<Vec<u8>>, Option<Error>), m: MergeView) -> bool {
    match m {
        Ok(o) => opt_vec(r.0) == o && r.1 is None,
        Err((bad, fallback)) => opt_vec(r.0) == fallback && (r.1 matches Some(e)
            && e.is_invalid_value(bad)),
    }
}

/// The value kept for a key of no known namespace: the latest operand, or the
/// existing value when there is none.
pub open spec fn unknown_merge_spec(existing: Option<Seq<u8>>, ops: Seq<Seq<u8>>) -> Option<
    Seq<u8>,
> {
    if ops.len() > 0 {
        Some(ops.last())
    } else {
        existing
    }
}

/// A merge result as the engine takes it: the value to keep, and the error
/// to report when a fallback had to be kept instead.
fn settle(r: Result<Option<Vec<u8>>, (Error, Option<Vec<u8>>)>) -> (s: (
    Option<Vec<u8>>,
    Option<Error>,
))
    ensures
        match r {
            Ok(o) => s.0 == o && s.1 is None,
            Err((e, fb)) => s.0 == fb && s.1 == Some(e),
        },
{
    match r {
        Ok(value) => (value, None),
        Err((error, fallback)) => (fallback, Some(error)),
    }
}

/// Merges the pending operands of `key` into its existing value. Primary keys
/// fold values of type `V`, index keys fold posting sets, and a key of no
/// known namespace keeps its latest operand. The step never fails: when an
/// operand or the existing value cannot be decoded, it keeps the fallback
/// value of the fold and hands back the error for the caller to report.
pub fn merge_operator<V: Value>(key: &[u8], existing: Option<&[u8]>, operands: &[&[u8]]) -> (r: (
    Option<Vec<u8>>,
    Option<Error>,
))
    ensures
        match namespace_spec(key@) {
            Namespace::Primary => settles(
                r,
                merge_spec::<V>(opt_bytes(existing), seq_bytes(operands@)),
            ),
            Namespace::Index => settles(
                r,
                merge_spec::<Set64>(opt_bytes(existing), seq_bytes(operands@)),
            ),
            Namespace::Unknown => opt_vec(r.0) == unknown_merge_spec(
                opt_bytes(existing),
                seq_bytes(operands@),
            ) && r.1 is None,
        },
{
    match namespace_of(key) {
        Namespace::Primary => settle(merge::<V>(existing, operands)),
        Namespace::Index => settle(merge::<Set64>(existing, operands)),
        Namespace::Unknown => {
            let n = operands.len();
            if n > 0 {
                (Some(vstd::slice::slice_to_vec(operands[n - 1])), None)
            } else {
                match existing {
                    Some(bytes) => (Some(vstd::slice::slice_to_vec(bytes)), None),
                    None => (None, None),
                }
            }
        },
    }
}

} // verus!
