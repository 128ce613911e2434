use vstd::prelude::*;

verus! {

#[verifier::external_type_specification]
#[verifier::external_body]
pub struct ExUtf8Error(std::str::Utf8Error);

/// The failures that decoding keys, values and labels can report.
#[derive(Debug)]
pub enum Error {
    /// A physical key does not have the layout of its namespace.
    InvalidKey(Vec<u8>),
    /// A stored value's length does not fit its type's encoding.
    InvalidValue(Vec<u8>),
    /// Bytes that had to be read as UTF-8 were not.
    InvalidUtf8(std::str::Utf8Error),
}

impl Error {
    pub open spec fn is_invalid_key(&self, bytes: Seq<u8>) -> bool {
        self matches Error::InvalidKey(b) && b@ == bytes
    }

    pub open spec fn is_invalid_value(&self, bytes: Seq<u8>) -> bool {
        self matches Error::InvalidValue(b) && b@ == bytes
    }

    pub fn invalid_value(value: &[u8]) -> (r: Self)
        ensures
            r.is_invalid_value(value@),
    {
        Error::InvalidValue(vstd::slice::slice_to_vec(value))
    }

    pub fn invalid_key(key: &[u8]) -> (r: Self)
        ensures
            r.is_invalid_key(key@),
    {
        Error::InvalidKey(vstd::slice::slice_to_vec(key))
    }
}

} // verus!
