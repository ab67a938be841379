//! What the library assumes of `bytes::Bytes`, the payload type of an entry.

use vstd::prelude::*;

verus! {

#[verifier::external_type_specification]
#[verifier::external_body]
pub struct ExBytes(bytes::Bytes);

/// The bytes that a `bytes::Bytes` handle refers to.
pub uninterp spec fn byte_content(b: bytes::Bytes) -> Seq<u8>;

/// Relies on `bytes::Bytes::len`: the number of bytes the handle refers to.
pub assume_specification[ bytes::Bytes::len ](b: &bytes::Bytes) -> (r: usize)
    ensures
        r == byte_content(*b).len(),
;

/// Relies on `<bytes::Bytes as Clone>::clone`: the new handle refers to the
/// same bytes (it shares the buffer).
pub assume_specification[ <bytes::Bytes as Clone>::clone ](b: &bytes::Bytes) -> (r: bytes::Bytes)
    ensures
        byte_content(r) == byte_content(*b),
;

} // verus!
