//! A closed interval of `u32`, typically of epoch seconds.
use crate::bytes::{be_u32, get_be_u32, lemma_u32_round_trip, push_be_u32, read_be_u32};
use crate::error::Error;
use crate::value::Value;
use vstd::prelude::*;

verus! {

/// The earliest and the latest of a set of observations.
#[derive(Debug, PartialEq, Eq, Structural)]
pub struct Range32 {
    first: u32,
    last: u32,
}

impl View for Range32 {
    type V = (u32, u32);

    closed spec fn view(&self) -> (u32, u32) {
        (self.first, self.last)
    }
}

/// The smaller of two integers.
pub open spec fn min_u32(a: u32, b: u32) -> u32 {
    if a <= b {
        a
    } else {
        b
    }
}

/// The larger of two integers.
pub open spec fn max_u32(a: u32, b: u32) -> u32 {
    if a >= b {
        a
    } else {
        b
    }
}

impl Range32 {
    pub fn new(first: u32, last: u32) -> (r: Self)
        ensures
            r@ == (first, last),
    {
        Range32 { first, last }
    }

    pub fn singleton(value: u32) -> (r: Self)
        ensures
            r@ == (value, value),
    {
        Self::new(value, value)
    }

    pub fn first(&self) -> (r: u32)
        ensures
            r == self@.0,
    {
        self.first
    }

    pub fn last(&self) -> (r: u32)
        ensures
            r == self@.1,
    {
        self.last
    }
}

impl From<(u32, u32)> for Range32 {
    fn from(input: (u32, u32)) -> (r: Self) {
        Self::new(input.0, input.1)
    }
}

impl vstd::std_specs::convert::FromSpecImpl<(u32, u32)> for Range32 {
    open spec fn obeys_from_spec() -> bool {
        true
    }

    closed spec fn from_spec(input: (u32, u32)) -> Range32 {
        Range32 { first: input.0, last: input.1 }
    }
}

impl From<u32> for Range32 {
    fn from(input: u32) -> (r: Self) {
        Self::singleton(input)
    }
}

impl vstd::std_specs::convert::FromSpecImpl<u32> for Range32 {
    open spec fn obeys_from_spec() -> bool {
        true
    }

    closed spec fn from_spec(input: u32) -> Range32 {
        Range32 { first: input, last: input }
    }
}

impl Value for Range32 {
    open spec fn valid(v: (u32, u32)) -> bool {
        true
    }

    open spec fn valid_length(n: nat) -> bool {
        n == 8
    }

    open spec fn decode_spec(bytes: Seq<u8>) -> Option<(u32, u32)> {
        if bytes.len() == 8 {
            Some((read_be_u32(bytes.subrange(0, 4)), read_be_u32(bytes.subrange(4, 8))))
        } else {
            None
        }
    }

    open spec fn encode_spec(v: (u32, u32)) -> Seq<u8> {
        be_u32(v.0) + be_u32(v.1)
    }

    open spec fn combine_spec(a: (u32, u32), b: (u32, u32)) -> (u32, u32) {
        (min_u32(a.0, b.0), max_u32(a.1, b.1))
    }

    proof fn lemma_decode_length(bytes: Seq<u8>) {
    }

    proof fn lemma_round_trip(v: (u32, u32)) {
        let b = Self::encode_spec(v);
        lemma_u32_round_trip(v.0);
        lemma_u32_round_trip(v.1);
        assert(b.subrange(0, 4) =~= be_u32(v.0));
        assert(b.subrange(4, 8) =~= be_u32(v.1));
    }

    proof fn lemma_combine_valid(a: (u32, u32), b: (u32, u32)) {
    }

    proof fn lemma_combine_commutative(a: (u32, u32), b: (u32, u32)) {
    }

    proof fn lemma_combine_associative(a: (u32, u32), b: (u32, u32), c: (u32, u32)) {
    }

    proof fn lemma_combine_idempotent(a: (u32, u32)) {
    }

    fn prepare(bytes: &[u8]) -> (r: Result<Self, Error>) {
        if bytes.len() == 8 {
            let first = get_be_u32(bytes, 0);
            let last = get_be_u32(bytes, 4);
            Ok(Range32 { first, last })
        } else {
            Err(Error::invalid_value(bytes))
        }
    }

    fn encode(self) -> (r: Vec<u8>) {
        let mut result: Vec<u8> = Vec::with_capacity(8);
        push_be_u32(&mut result, self.first);
        push_be_u32(&mut result, self.last);
        assert(result@ =~= be_u32(self.first) + be_u32(self.last));
        result
    }

    fn combine(self, other: Self) -> (r: Self) {
        let first = if self.first <= other.first {
            self.first
        } else {
            other.first
        };
        let last = if self.last >= other.last {
            self.last
        } else {
            other.last
        };
        Range32 { first, last }
    }
}

} // verus!
