//! The decisions of the store's operations, one entry at a time: what a write
//! submits, what a scan keeps, where it stops, what the index receives and
//! what a search returns. The caller moves bytes to and from the engine.
use crate::bytes::encode_u64s;
use crate::error::Error;
use crate::key::{
    index_key_spec, is_prefix_of, key_id, key_label, make_index_key,
    namespace_of, namespace_spec, primary_key, primary_key_spec, primary_prefix_spec,
    split_primary_key, CaseSensitivity, Namespace, PRIMARY_PREFIX_LEN,
};
use crate::set64::Set64;
use crate::text::str_from_utf8;
use crate::value::Value;
use std::collections::HashSet;
use vstd::prelude::*;
use vstd::utf8::{decode_utf8, valid_utf8};

verus! {

/// The merge request that records `value` under `(id, label)`: the key and
/// the operand.
pub fn merge_request<V: Value>(id: u64, label: &[u8], value: V) -> (r: (Vec<u8>, Vec<u8>))
    ensures
        r.0@ == primary_key_spec(id, label@),
        r.1@ == V::encode_spec(value@),
{
    (primary_key(id, label), value.encode())
}

/// Whether the scan of the labels of `id` has reached `key`'s entry: keys
/// start with the prefix of `id` exactly while the scan is inside them.
fn has_prefix_of_id(id: u64, key: &[u8]) -> (r: bool)
    ensures
        r == is_prefix_of(primary_prefix_spec(id), key@),
{
    let prefix = crate::key::primary_prefix(id);
    if key.len() < prefix.len() {
        return false;
    }
    let mut i: usize = 0;
    while i < prefix.len()
        invariant
            prefix@ == primary_prefix_spec(id),
            prefix@.len() <= key@.len(),
            i <= prefix@.len(),
            forall|k: int| 0 <= k < i ==> key@[k] == prefix@[k],
        decreases prefix@.len() - i,
    {
        if key[i] != prefix[i] {
            assert(key@.subrange(0, prefix@.len() as int)[i as int] != prefix@[i as int]);
            return false;
        }
        i = i + 1;
    }
    assert(key@.subrange(0, prefix@.len() as int) =~= prefix@);
    true
}

/// One entry met by the scan that starts at the prefix of `id`. Keys that do
/// not start with that prefix end the scan (`Ok(None)`); the others give
/// their label and decoded value, or `InvalidValue`.
pub fn entry_under_id<V: Value>(id: u64, key: &[u8], value: &[u8]) -> (r: Result<
    Option<(Vec<u8>, V)>,
    Error,
>)
    ensures
        !is_prefix_of(primary_prefix_spec(id), key@) ==> r matches Ok(None),
        is_prefix_of(primary_prefix_spec(id), key@) ==> match r {
            Ok(Some((label, v))) => key@ == primary_key_spec(id, label@) && V::decode_spec(value@)
                == Some(v@),
            Ok(None) => false,
            Err(e) => V::decode_spec(value@) is None && e.is_invalid_value(value@),
        },
{
    if !has_prefix_of_id(id, key) {
        return Ok(None);
    }
    let v = V::prepare(value)?;
    let label = vstd::slice::slice_to_vec(
        vstd::slice::slice_subrange(key, PRIMARY_PREFIX_LEN, key.len()),
    );
    assert(key@ =~= primary_key_spec(id, label@));
    Ok(Some((label, v)))
}

/// One entry met by a scan of the whole primary namespace, which starts at
/// its first key. A key of another namespace ends the scan (`Ok(None)`); a
/// primary key too short for an id is `InvalidKey`; otherwise the id, label
/// and decoded value, or `InvalidValue`.
pub fn primary_entry<V: Value>(key: &[u8], value: &[u8]) -> (r: Result<
    Option<(u64, Vec<u8>, V)>,
    Error,
>)
    ensures
        namespace_spec(key@) != Namespace::Primary ==> r matches Ok(None),
        namespace_spec(key@) == Namespace::Primary && key@.len() < 9 ==> (r matches Err(e)
            && e.is_invalid_key(key@)),
        namespace_spec(key@) == Namespace::Primary && key@.len() >= 9 ==> match r {
            Ok(Some((id, label, v))) => key@ == primary_key_spec(id, label@) && V::decode_spec(
                value@,
            ) == Some(v@),
            Ok(None) => false,
            Err(e) => V::decode_spec(value@) is None && e.is_invalid_value(value@),
        },
{
    if namespace_of(key) != Namespace::Primary {
        return Ok(None);
    }
    let (id, label) = split_primary_key(key)?;
    let v = V::prepare(value)?;
    Ok(Some((id, label, v)))
}

/// The running tally of a scan of the primary namespace: the distinct ids and
/// the number of entries seen.
pub struct KeyCounts {
    ids: HashSet<u64>,
    entries: u64,
}

impl View for KeyCounts {
    type V = (Set<u64>, nat);

    closed spec fn view(&self) -> (Set<u64>, nat) {
        (self.ids@, self.entries as nat)
    }
}

impl KeyCounts {
    pub fn new() -> (r: Self)
        ensures
            r@ == (Set::<u64>::empty(), 0nat),
    {
        KeyCounts { ids: HashSet::new(), entries: 0 }
    }

    /// The number of entries seen so far.
    pub fn entries(&self) -> (r: u64)
        ensures
            r == self@.1,
    {
        self.entries
    }

    /// Counts the entry of `key`. Returns `Ok(false)`, counting nothing, once
    /// the key lies outside the primary namespace, and `InvalidKey` for a
    /// primary key too short for an id.
    pub fn observe(&mut self, key: &[u8]) -> (r: Result<bool, Error>)
        requires
            old(self)@.1 < u64::MAX,
        ensures
            namespace_spec(key@) != Namespace::Primary ==> (r matches Ok(false)) && final(self)@
                == old(self)@,
            namespace_spec(key@) == Namespace::Primary && key@.len() < 9 ==> (r matches Err(e)
                && e.is_invalid_key(key@)) && final(self)@ == old(self)@,
            namespace_spec(key@) == Namespace::Primary && key@.len() >= 9 ==> (r matches Ok(true))
                && final(self)@ == (old(self)@.0.insert(key_id(key@)), old(self)@.1 + 1),
    {
        if namespace_of(key) != Namespace::Primary {
            return Ok(false);
        }
        let (id, _label) = split_primary_key(key)?;
        self.ids.insert(id);
        self.entries = self.entries + 1;
        Ok(true)
    }

    /// The number of distinct ids and the number of entries.
    pub fn counts(&self) -> (r: (u64, u64))
        ensures
            r.0 == self@.0.len(),
            r.1 == self@.1,
    {
        proof {
            assert(vstd::std_specs::hash::obeys_key_model::<u64>());
        }
        (self.ids.len() as u64, self.entries)
    }
}

/// The index request for the primary entry of `key`: the index key of its
/// label under `case_sensitivity` and the posting set `{id}`. A key of another
/// namespace ends the scan (`Ok(None)`); a short primary key is `InvalidKey`;
/// a label that cannot be case-folded is `InvalidUtf8`.
pub fn index_request(key: &[u8], case_sensitivity: CaseSensitivity) -> (r: Result<
    Option<(Vec<u8>, Vec<u8>)>,
    Error,
>)
    ensures
        namespace_spec(key@) != Namespace::Primary ==> r matches Ok(None),
        namespace_spec(key@) == Namespace::Primary && key@.len() < 9 ==> (r matches Err(e)
            && e.is_invalid_key(key@)),
        namespace_spec(key@) == Namespace::Primary && key@.len() >= 9 ==> match index_key_spec(
            key_label(key@),
            case_sensitivity,
        ) {
            Some(k) => (r matches Ok(Some((ik, ids))) && ik@ == k && ids@ == encode_u64s(
                seq![key_id(key@)],
            )),
            None => r matches Err(e) && e is InvalidUtf8,
        },
{
    if namespace_of(key) != Namespace::Primary {
        return Ok(None);
    }
    let (id, label) = split_primary_key(key)?;
    let index_key = make_index_key(label.as_slice(), case_sensitivity)?;
    let ids = Set64::singleton(id).encode();
    Ok(Some((index_key, ids)))
}

/// The ids found by a search: none when the index key is absent, else the
/// decoded posting set, or `InvalidValue` when it does not decode.
pub fn postings(found: Option<&[u8]>) -> (r: Result<Vec<u64>, Error>)
    ensures
        found is None ==> (r matches Ok(ids) && ids@.len() == 0),
        found matches Some(b) ==> match Set64::decode_spec(b@) {
            Some(s) => (r matches Ok(ids) && ids@ == s),
            None => r matches Err(e) && e.is_invalid_value(b@),
        },
{
    match found {
        None => Ok(Vec::new()),
        Some(bytes) => {
            let set = Set64::prepare(bytes)?;
            Ok(set.into_inner())
        },
    }
}

/// A label read as text; fails with `InvalidUtf8` on bytes that are not
/// UTF-8.
pub fn label_string(label: &[u8]) -> (r: Result<String, Error>)
    ensures
        match r {
            Ok(s) => valid_utf8(label@) && s@ == decode_utf8(label@),
            Err(e) => !valid_utf8(label@) && e is InvalidUtf8,
        },
{
    match str_from_utf8(label) {
        Ok(s) => Ok(s.to_owned()),
        Err(e) => Err(Error::InvalidUtf8(e)),
    }
}

} // verus!
