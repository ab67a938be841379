//! One cached item: a key and its payload.

use vstd::prelude::*;
use crate::payload::byte_content;

verus! {

/// A key and the payload stored under it. Neither changes once the entry exists.
#[derive(Clone, Debug)]
pub struct Entry {
    key: String,
    value: bytes::Bytes,
}

impl View for Entry {
    type V = (Seq<char>, Seq<u8>);

    closed spec fn view(&self) -> (Seq<char>, Seq<u8>) {
        (self.key@, byte_content(self.value))
    }
}

impl Entry {
    pub fn new(key: String, value: bytes::Bytes) -> (r: Self)
        ensures
            r@ == (key@, byte_content(value)),
    {
        Entry { key, value }
    }

    pub fn key(&self) -> (r: &str)
        ensures
            r@ == self@.0,
    {
        self.key.as_str()
    }

    pub fn value(&self) -> (r: &bytes::Bytes)
        ensures
            byte_content(*r) == self@.1,
    {
        &self.value
    }

    /// Whether this entry is stored under `key`.
    pub fn matches_key(&self, key: &String) -> (r: bool)
        ensures
            r == (self@.0 == key@),
    {
        self.key == *key
    }

    /// The number of payload bytes.
    pub fn size(&self) -> (r: usize)
        ensures
            r == self@.1.len(),
    {
        self.value.len()
    }
}

} // verus!
