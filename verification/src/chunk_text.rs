//! The fixed-capacity string that holds a chunk's text.
use vstd::prelude::*;
use vstd::string::StringSliceAdditionalSpecFns;

verus! {

/// The text of a chunk: a `heapless::String` of at most 128 bytes with a one-byte length.
#[verifier::external_body]
#[derive(Debug)]
pub struct ChunkText {
    inner: heapless::String<128, u8>,
}

/// The UTF-8 bytes that a chunk text holds.
pub uninterp spec fn chunk_text_bytes(t: ChunkText) -> Seq<u8>;

impl ChunkText {
    /// `heapless::String::new`: an empty string.
    #[verifier::external_body]
    pub(crate) fn new() -> (r: Self)
        ensures
            chunk_text_bytes(r) == Seq::<u8>::empty(),
    {
        ChunkText { inner: heapless::String::new() }
    }

    /// `heapless::String::try_from(&str)`, which fails only when the text is longer than
    /// the capacity of 128 bytes.
    #[verifier::external_body]
    pub(crate) fn from_str(s: &str) -> (r: Self)
        requires
            s.spec_bytes().len() <= 128,
        ensures
            chunk_text_bytes(r) == s.spec_bytes(),
    {
        ChunkText { inner: heapless::String::try_from(s).unwrap() }
    }

    /// `heapless::String::as_str`: the held text.
    #[verifier::external_body]
    pub(crate) fn as_str(&self) -> (r: &str)
        ensures
            r.spec_bytes() == chunk_text_bytes(*self),
    {
        self.inner.as_str()
    }

    /// `heapless::String::clone`: a copy holding the same text.
    #[verifier::external_body]
    pub(crate) fn copy(&self) -> (r: Self)
        ensures
            chunk_text_bytes(r) == chunk_text_bytes(*self),
    {
        ChunkText { inner: self.inner.clone() }
    }
}

} // verus!
