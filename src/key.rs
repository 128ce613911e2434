//! The physical keys: one ordered key space split by a leading tag byte into
//! the primary namespace, `(id, label) -> value`, and the index namespace,
//! `search key -> ids`.
use crate::bytes::{be_u64, get_be_u64, lemma_be_u64_injective, lemma_u64_round_trip, push_be_u64, read_be_u64};
use crate::error::Error;
use crate::text::{lower_of, str_from_utf8, str_to_lowercase};
use vstd::prelude::*;
use vstd::string::StringSliceAdditionalSpecFns;
use vstd::utf8::{decode_utf8, encode_utf8, valid_utf8};

verus! {

/// The tag byte of keys in the primary namespace.
pub const TAG_PRIMARY: u8 = 0;

/// The tag byte of keys in the index namespace.
pub const TAG_INDEX: u8 = 1;

/// The length of a primary key's fixed part: the tag and the id.
pub const PRIMARY_PREFIX_LEN: usize = 9;

/// Whether index keys keep the label as it is or fold it to lower case.
#[derive(Copy, Clone, Debug, PartialEq, Eq, Structural)]
pub enum CaseSensitivity {
    Sensitive,
    Insensitive,
}

/// The namespace that a physical key belongs to.
#[derive(Copy, Clone, Debug, PartialEq, Eq, Structural)]
pub enum Namespace {
    Primary,
    Index,
    Unknown,
}

/// The namespace named by the first byte of `key`.
pub open spec fn namespace_spec(key: Seq<u8>) -> Namespace {
    if key.len() == 0 {
        Namespace::Unknown
    } else if key[0] == TAG_PRIMARY {
        Namespace::Primary
    } else if key[0] == TAG_INDEX {
        Namespace::Index
    } else {
        Namespace::Unknown
    }
}

/// The prefix shared by every primary key of `id`.
pub open spec fn primary_prefix_spec(id: u64) -> Seq<u8> {
    seq![TAG_PRIMARY] + be_u64(id)
}

/// The primary key of `(id, label)`.
pub open spec fn primary_key_spec(id: u64, label: Seq<u8>) -> Seq<u8> {
    primary_prefix_spec(id) + label
}

/// `p` is the start of `s`.
pub open spec fn is_prefix_of(p: Seq<u8>, s: Seq<u8>) -> bool {
    p.len() <= s.len() && s.subrange(0, p.len() as int) == p
}

/// The id that a primary key carries.
pub open spec fn key_id(key: Seq<u8>) -> u64 {
    read_be_u64(key.subrange(1, 9))
}

/// The label that a primary key carries.
pub open spec fn key_label(key: Seq<u8>) -> Seq<u8> {
    key.subrange(9, key.len() as int)
}

/// The index key of `data`: the data itself, or its lower-case form, after
/// the index tag. Folding case needs valid UTF-8.
pub open spec fn index_key_spec(data: Seq<u8>, case: CaseSensitivity) -> Option<Seq<u8>> {
    match case {
        CaseSensitivity::Sensitive => Some(seq![TAG_INDEX] + data),
        CaseSensitivity::Insensitive => if valid_utf8(data) {
            Some(seq![TAG_INDEX] + encode_utf8(lower_of(decode_utf8(data))))
        } else {
            None
        },
    }
}

/// A primary key splits back into the id and the label it was made of.
pub proof fn lemma_primary_key_parts(id: u64, label: Seq<u8>)
    ensures
        primary_key_spec(id, label).len() == 9 + label.len(),
        namespace_spec(primary_key_spec(id, label)) == Namespace::Primary,
        key_id(primary_key_spec(id, label)) == id,
        key_label(primary_key_spec(id, label)) == label,
        is_prefix_of(primary_prefix_spec(id), primary_key_spec(id, label)),
{
    let k = primary_key_spec(id, label);
    lemma_u64_round_trip(id);
    assert(k.subrange(1, 9) =~= be_u64(id));
    assert(k.subrange(9, k.len() as int) =~= label);
    assert(k.subrange(0, 9) =~= primary_prefix_spec(id));
}

/// Labels written under one id never show under the prefix of another: a
/// scan bounded by the prefix of `b` meets no key of `a`.
pub proof fn lemma_per_id_isolation(a: u64, b: u64, label: Seq<u8>)
    requires
        a != b,
    ensures
        !is_prefix_of(primary_prefix_spec(b), primary_key_spec(a, label)),
{
    lemma_u64_round_trip(a);
    lemma_u64_round_trip(b);
    let k = primary_key_spec(a, label);
    if is_prefix_of(primary_prefix_spec(b), k) {
        assert(k.subrange(1, 9) =~= be_u64(a));
        assert(primary_prefix_spec(b).subrange(1, 9) =~= be_u64(b));
        assert(k.subrange(0, 9).subrange(1, 9) =~= k.subrange(1, 9));
        lemma_be_u64_injective(a, b);
    }
}

/// The namespace of a physical key.
pub fn namespace_of(key: &[u8]) -> (r: Namespace)
    ensures
        r == namespace_spec(key@),
{
    if key.len() == 0 {
        Namespace::Unknown
    } else if key[0] == TAG_PRIMARY {
        Namespace::Primary
    } else if key[0] == TAG_INDEX {
        Namespace::Index
    } else {
        Namespace::Unknown
    }
}

/// The prefix that bounds a scan to the labels of `id`.
pub fn primary_prefix(id: u64) -> (r: Vec<u8>)
    ensures
        r@ == primary_prefix_spec(id),
{
    let mut key: Vec<u8> = Vec::with_capacity(PRIMARY_PREFIX_LEN);
    key.push(TAG_PRIMARY);
    push_be_u64(&mut key, id);
    assert(key@ =~= primary_prefix_spec(id));
    key
}

/// The primary key of `(id, label)`.
pub fn primary_key(id: u64, label: &[u8]) -> (r: Vec<u8>)
    ensures
        r@ == primary_key_spec(id, label@),
{
    let mut key = primary_prefix(id);
    let mut rest = vstd::slice::slice_to_vec(label);
    key.append(&mut rest);
    key
}

/// Splits a primary key into its id and label; fails with `InvalidKey` on a
/// key outside the primary namespace or too short to hold an id.
pub fn split_primary_key(key: &[u8]) -> (r: Result<(u64, Vec<u8>), Error>)
    ensures
        match r {
            Ok((id, label)) => namespace_spec(key@) == Namespace::Primary && key@.len() >= 9
                && id == key_id(key@) && label@ == key_label(key@) && key@ == primary_key_spec(
                id,
                label@,
            ),
            Err(e) => !(namespace_spec(key@) == Namespace::Primary && key@.len() >= 9)
                && e.is_invalid_key(key@),
        },
{
    if key.len() < PRIMARY_PREFIX_LEN || key[0] != TAG_PRIMARY {
        return Err(Error::invalid_key(key));
    }
    let id = get_be_u64(key, 1);
    let label = vstd::slice::slice_to_vec(
        vstd::slice::slice_subrange(key, PRIMARY_PREFIX_LEN, key.len()),
    );
    proof {
        lemma_u64_round_trip(id);
        let k = key@;
        let sub = k.subrange(1, 9);
        assert(be_u64(read_be_u64(sub)) =~= sub) by {
            lemma_be_u64_of_read(sub);
        }
        assert(k =~= primary_key_spec(id, label@));
    }
    Ok((id, label))
}

/// Writing out the integer read from eight bytes gives the bytes back.
proof fn lemma_be_u64_of_read(b: Seq<u8>)
    requires
        b.len() == 8,
    ensures
        be_u64(read_be_u64(b)) == b,
{
    let x = read_be_u64(b);
    let (b0, b1, b2, b3, b4, b5, b6, b7) = (b[0], b[1], b[2], b[3], b[4], b[5], b[6], b[7]);
    assert(x == ((b0 as u64) << 56u64) | ((b1 as u64) << 48u64) | ((b2 as u64) << 40u64) | ((b3 as u64)
        << 32u64) | ((b4 as u64) << 24u64) | ((b5 as u64) << 16u64) | ((b6 as u64) << 8u64) | (b7 as u64));
    assert((x >> 56u64) as u8 == b0 && (x >> 48u64) as u8 == b1 && (x >> 40u64) as u8 == b2 && (x
        >> 32u64) as u8 == b3 && (x >> 24u64) as u8 == b4 && (x >> 16u64) as u8 == b5 && (x
        >> 8u64) as u8 == b6 && x as u8 == b7) by (bit_vector)
        requires
            x == ((b0 as u64) << 56u64) | ((b1 as u64) << 48u64) | ((b2 as u64) << 40u64) | ((
            b3 as u64) << 32u64) | ((b4 as u64) << 24u64) | ((b5 as u64) << 16u64) | ((b6 as u64)
                << 8u64) | (b7 as u64),
    ;
    assert(be_u64(x) =~= b);
}

/// The index key of `data` under the given case policy; fails with
/// `InvalidUtf8` when case folding is asked of bytes that are not UTF-8.
pub fn make_index_key(data: &[u8], case_sensitivity: CaseSensitivity) -> (r: Result<
    Vec<u8>,
    Error,
>)
    ensures
        match r {
            Ok(k) => index_key_spec(data@, case_sensitivity) == Some(k@),
            Err(e) => index_key_spec(data@, case_sensitivity) is None && e is InvalidUtf8,
        },
{
    let mut key: Vec<u8> = Vec::new();
    key.push(TAG_INDEX);
    match case_sensitivity {
        CaseSensitivity::Insensitive => {
            let text = match str_from_utf8(data) {
                Ok(s) => s,
                Err(e) => {
                    return Err(Error::InvalidUtf8(e));
                },
            };
            let lowercase = str_to_lowercase(text);
            let mut folded = vstd::slice::slice_to_vec(lowercase.as_str().as_bytes());
            key.append(&mut folded);
        },
        CaseSensitivity::Sensitive => {
            let mut rest = vstd::slice::slice_to_vec(data);
            key.append(&mut rest);
        },
    }
    Ok(key)
}

/// The index key under which a case-insensitive search looks for `data`:
/// the query is folded to lower case before the key is made.
pub fn search_ci_key(data: &str) -> (r: Result<Vec<u8>, Error>)
    ensures
        match r {
            Ok(k) => index_key_spec(encode_utf8(lower_of(data@)), CaseSensitivity::Insensitive)
                == Some(k@),
            Err(e) => index_key_spec(encode_utf8(lower_of(data@)), CaseSensitivity::Insensitive) is None
                && e is InvalidUtf8,
        },
{
    let lowercase = str_to_lowercase(data);
    make_index_key(lowercase.as_str().as_bytes(), CaseSensitivity::Insensitive)
}

} // verus!
