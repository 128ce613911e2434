//! The aggregable value types and the fold that the storage engine's merge
//! step applies to them.
use crate::error::Error;
use vstd::prelude::*;

pub use crate::range::Range32;
pub use crate::set32::Set32;
pub use crate::set64::Set64;



verus! {

/// The view of optional bytes.
pub open spec fn opt_bytes(o: Option<&[u8]>) -> Option<Seq<u8>> {
    match o {
        Some(b) => Some(b@),
        None => None,
    }
}

/// The view of an optional owned byte vector.
pub open spec fn opt_vec(o: Option<Vec<u8>>) -> Option<Seq<u8>> {
    match o {
        Some(b) => Some(b@),
        None => None,
    }
}

/// The view of an optional value.
pub open spec fn opt_view<T: View>(o: &Option<T>) -> Option<T::V> {
    match o {
        Some(a) => Some(a@),
        None => None,
    }
}

/// The views of a sequence of byte slices.
pub open spec fn seq_bytes(s: Seq<&[u8]>) -> Seq<Seq<u8>> {
    s.map_values(|b: &[u8]| b@)
}

/// What a merge over byte strings comes to: the new encoded value (or none),
/// or the bytes that failed to decode together with the fallback value.
pub type MergeView = Result<Option<Seq<u8>>, (Seq<u8>, Option<Seq<u8>>)>;

/// A value type of the store: a fixed layout in bytes and a commutative,
/// associative `combine` that is idempotent on every value.
pub trait Value: Sized + View {
    /// Holds of the view of every value of the type.
    spec fn valid(v: Self::V) -> bool;

    /// Which byte lengths are layouts of a value.
    spec fn valid_length(n: nat) -> bool;

    /// The value that `bytes` decodes to, if any.
    spec fn decode_spec(bytes: Seq<u8>) -> Option<Self::V>;

    /// The layout of a value.
    spec fn encode_spec(v: Self::V) -> Seq<u8>;

    /// The combination of two values.
    spec fn combine_spec(a: Self::V, b: Self::V) -> Self::V;

    /// Decoding fails exactly on the lengths that are not layouts of a value,
    /// and gives a valid value otherwise.
    proof fn lemma_decode_length(bytes: Seq<u8>)
        ensures
            Self::decode_spec(bytes) is Some <==> Self::valid_length(bytes.len()),
            Self::decode_spec(bytes) is Some ==> Self::valid(Self::decode_spec(bytes)->0),
    ;

    /// Decoding the layout of a value gives the value back.
    proof fn lemma_round_trip(v: Self::V)
        requires
            Self::valid(v),
        ensures
            Self::decode_spec(Self::encode_spec(v)) == Some(v),
    ;

    /// Combining valid values gives a valid value.
    proof fn lemma_combine_valid(a: Self::V, b: Self::V)
        requires
            Self::valid(a),
            Self::valid(b),
        ensures
            Self::valid(Self::combine_spec(a, b)),
    ;

    /// The order of two operands does not matter.
    proof fn lemma_combine_commutative(a: Self::V, b: Self::V)
        requires
            Self::valid(a),
            Self::valid(b),
        ensures
            Self::combine_spec(a, b) == Self::combine_spec(b, a),
    ;

    /// The grouping of three operands does not matter.
    proof fn lemma_combine_associative(a: Self::V, b: Self::V, c: Self::V)
        requires
            Self::valid(a),
            Self::valid(b),
            Self::valid(c),
        ensures
            Self::combine_spec(Self::combine_spec(a, b), c) == Self::combine_spec(
                a,
                Self::combine_spec(b, c),
            ),
    ;

    /// Combining a value with itself leaves it unchanged.
    proof fn lemma_combine_idempotent(a: Self::V)
        requires
            Self::valid(a),
        ensures
            Self::combine_spec(a, a) == a,
    ;

    /// Reads a value from its layout.
    fn prepare(bytes: &[u8]) -> (r: Result<Self, Error>)
        ensures
            match r {
                Ok(v) => Self::decode_spec(bytes@) == Some(v@),
                Err(e) => Self::decode_spec(bytes@) is None && e.is_invalid_value(bytes@),
            },
    ;

    /// The layout of the value.
    fn encode(self) -> (r: Vec<u8>)
        ensures
            r@ == Self::encode_spec(self@),
    ;

    /// Combines two values.
    fn combine(self, other: Self) -> (r: Self)
        ensures
            r@ == Self::combine_spec(self@, other@),
    ;
}

/// Adds a decoded operand to an optional aggregate.
pub open spec fn join<V: Value>(acc: Option<V::V>, v: V::V) -> V::V {
    match acc {
        Some(a) => V::combine_spec(a, v),
        None => v,
    }
}

/// The layout of an optional aggregate.
pub open spec fn encode_opt<V: Value>(acc: Option<V::V>) -> Option<Seq<u8>> {
    match acc {
        Some(a) => Some(V::encode_spec(a)),
        None => None,
    }
}

/// Folds the operands, left to right, into `acc`; stops at the first operand
/// that does not decode. The fallback is then the aggregate so far, or the
/// last operand as it stands when nothing has been aggregated yet.
pub open spec fn fold_operands<V: Value>(acc: Option<V::V>, ops: Seq<Seq<u8>>) -> MergeView
    decreases ops.len(),
{
    if ops.len() == 0 {
        Ok(encode_opt::<V>(acc))
    } else {
        match V::decode_spec(ops[0]) {
            Some(v) => fold_operands::<V>(Some(join::<V>(acc, v)), ops.drop_first()),
            None => Err(
                (
                    ops[0],
                    match acc {
                        Some(a) => Some(V::encode_spec(a)),
                        None => Some(ops.last()),
                    },
                ),
            ),
        }
    }
}

/// The merge of an existing value with pending operands. An existing value
/// that does not decode fails at once, with the last operand as the fallback.
pub open spec fn merge_spec<V: Value>(existing: Option<Seq<u8>>, ops: Seq<Seq<u8>>) -> MergeView {
    match existing {
        Some(e) => match V::decode_spec(e) {
            Some(v) => fold_operands::<V>(Some(v), ops),
            None => Err((e, if ops.len() > 0 { Some(ops.last()) } else { None })),
        },
        None => fold_operands::<V>(None, ops),
    }
}

/// Every operand decodes.
pub open spec fn all_decode<V: Value>(ops: Seq<Seq<u8>>) -> bool {
    forall|i: int| 0 <= i < ops.len() ==> (#[trigger] V::decode_spec(ops[i])) is Some
}

/// The value that a successful merge leaves behind.
pub open spec fn merged_value(m: MergeView) -> Option<Seq<u8>> {
    match m {
        Ok(o) => o,
        Err(_) => None,
    }
}

proof fn lemma_fold_split<V: Value>(acc: Option<V::V>, ops1: Seq<Seq<u8>>, ops2: Seq<Seq<u8>>)
    requires
        acc matches Some(a) ==> V::valid(a),
        all_decode::<V>(ops1),
    ensures
        fold_operands::<V>(acc, ops1) is Ok,
        fold_operands::<V>(acc, ops1 + ops2) == fold_operands::<V>(
            match merged_value(fold_operands::<V>(acc, ops1)) {
                Some(b) => V::decode_spec(b),
                None => None,
            },
            ops2,
        ),
    decreases ops1.len(),
{
    if ops1.len() == 0 {
        assert(ops1 + ops2 =~= ops2);
        if let Some(a) = acc {
            V::lemma_round_trip(a);
        }
    } else {
        let v = V::decode_spec(ops1[0])->0;
        V::lemma_decode_length(ops1[0]);
        if let Some(a) = acc {
            V::lemma_combine_valid(a, v);
        }
        let rest = ops1.drop_first();
        assert forall|i: int| 0 <= i < rest.len() implies (#[trigger] V::decode_spec(rest[i])) is Some by {
            assert(rest[i] == ops1[i + 1]);
        }
        assert((ops1 + ops2)[0] == ops1[0]);
        assert((ops1 + ops2).drop_first() =~= rest + ops2);
        lemma_fold_split::<V>(Some(join::<V>(acc, v)), rest, ops2);
    }
}

/// Merging operands in two rounds, the second starting from what the first
/// left, gives what merging them all at once gives: the engine may apply
/// pending operands in any grouping.
pub proof fn lemma_merge_in_rounds<V: Value>(
    existing: Option<Seq<u8>>,
    ops1: Seq<Seq<u8>>,
    ops2: Seq<Seq<u8>>,
)
    requires
        existing matches Some(e) ==> V::decode_spec(e) is Some,
        all_decode::<V>(ops1),
    ensures
        merge_spec::<V>(existing, ops1) is Ok,
        merge_spec::<V>(existing, ops1 + ops2) == merge_spec::<V>(
            merged_value(merge_spec::<V>(existing, ops1)),
            ops2,
        ),
{
    let acc = match existing {
        Some(e) => V::decode_spec(e),
        None => None,
    };
    if let Some(e) = existing {
        V::lemma_decode_length(e);
    }
    lemma_fold_split::<V>(acc, ops1, ops2);
    lemma_fold_result_decodes::<V>(acc, ops1);
}

proof fn lemma_fold_result_decodes<V: Value>(acc: Option<V::V>, ops: Seq<Seq<u8>>)
    requires
        acc matches Some(a) ==> V::valid(a),
        all_decode::<V>(ops),
    ensures
        fold_operands::<V>(acc, ops) matches Ok(Some(b)) ==> V::decode_spec(b) is Some,
    decreases ops.len(),
{
    if ops.len() == 0 {
        if let Some(a) = acc {
            V::lemma_round_trip(a);
        }
    } else {
        let v = V::decode_spec(ops[0])->0;
        V::lemma_decode_length(ops[0]);
        if let Some(a) = acc {
            V::lemma_combine_valid(a, v);
        }
        let rest = ops.drop_first();
        assert forall|i: int| 0 <= i < rest.len() implies (#[trigger] V::decode_spec(rest[i])) is Some by {
            assert(rest[i] == ops[i + 1]);
        }
        lemma_fold_result_decodes::<V>(Some(join::<V>(acc, v)), rest);
    }
}

/// Whether an executable merge result is the one that `spec` describes.
pub open spec fn merge_result_is(
    r: Result<Option<Vec<u8>>, (Error, Option<Vec<u8>>)>,
    spec: MergeView,
) -> bool {
    match (r, spec) {
        (Ok(o), Ok(so)) => opt_vec(o) == so,
        (Err((e, fb)), Err((bad, sfb))) => e.is_invalid_value(bad) && opt_vec(fb) == sfb,
        _ => false,
    }
}

fn encode_option<V: Value>(acc: Option<V>) -> (r: Option<Vec<u8>>)
    ensures
        opt_vec(r) == encode_opt::<V>(opt_view(&acc)),
{
    match acc {
        Some(a) => Some(a.encode()),
        None => None,
    }
}

/// Decodes `existing` and each operand in order and folds them with
/// `combine`, returning the encoded aggregate. On a decode failure it returns
/// the error with the best value at hand: the aggregate so far, or the last
/// operand as it stands when nothing has been aggregated yet (no existing
/// value, or an unreadable one).
pub fn merge<V: Value>(existing: Option<&[u8]>, operands: &[&[u8]]) -> (r: Result<
    Option<Vec<u8>>,
    (Error, Option<Vec<u8>>),
>)
    ensures
        merge_result_is(r, merge_spec::<V>(opt_bytes(existing), seq_bytes(operands@))),
{
    let ghost ops = seq_bytes(operands@);
    let mut aggregated: Option<V> = match existing {
        Some(bytes) => match V::prepare(bytes) {
            Ok(v) => Some(v),
            Err(e) => {
                let n = operands.len();
                let fallback = if n > 0 {
                    Some(vstd::slice::slice_to_vec(operands[n - 1]))
                } else {
                    None
                };
                return Err((e, fallback));
            },
        },
        None => None,
    };
    assert(ops.subrange(0, ops.len() as int) =~= ops);
    let mut i: usize = 0;
    while i < operands.len()
        invariant
            0 <= i <= operands@.len(),
            ops == seq_bytes(operands@),
            merge_spec::<V>(opt_bytes(existing), ops) == fold_operands::<V>(
                opt_view(&aggregated),
                ops.subrange(i as int, ops.len() as int),
            ),
        decreases operands@.len() - i,
    {
        let ghost rest = ops.subrange(i as int, ops.len() as int);
        assert(rest[0] == operands@[i as int]@);
        assert(rest.drop_first() =~= ops.subrange(i + 1, ops.len() as int));
        let prepared = match V::prepare(operands[i]) {
            Ok(v) => v,
            Err(e) => {
                assert(ops.subrange(i as int, ops.len() as int).last() == ops.last());
                let fallback = match aggregated {
                    Some(a) => Some(a.encode()),
                    None => Some(vstd::slice::slice_to_vec(operands[operands.len() - 1])),
                };
                return Err((e, fallback));
            },
        };
        aggregated = match aggregated {
            Some(current) => Some(current.combine(prepared)),
            None => Some(prepared),
        };
        i = i + 1;
    }
    assert(ops.subrange(i as int, ops.len() as int).len() == 0);
    Ok(encode_option(aggregated))
}

} // verus!
