//! Message bodies.

use vstd::prelude::*;

verus! {

/// The payload of a request or a response: bytes of known length that are
/// never interpreted.
#[derive(Debug)]
pub struct HttpBody {
    bytes: Vec<u8>,
}

impl View for HttpBody {
    type V = Seq<u8>;

    closed spec fn view(&self) -> Seq<u8> {
        self.bytes@
    }
}

/// The bytes of a body that may be absent.
pub open spec fn body_view(body: Option<HttpBody>) -> Option<Seq<u8>> {
    match body {
        Some(body) => Some(body@),
        None => None,
    }
}

impl Clone for HttpBody {
    fn clone(&self) -> (r: Self)
        ensures
            r@ == self@,
    {
        HttpBody { bytes: self.bytes.clone() }
    }
}

impl HttpBody {
    /// Wraps `bytes` as a body.
    pub fn new(bytes: Vec<u8>) -> (r: HttpBody)
        ensures
            r@ == bytes@,
    {
        HttpBody { bytes }
    }

    /// A copy of the payload.
    pub fn as_bytes(&self) -> (r: Vec<u8>)
        ensures
            r@ == self@,
    {
        self.bytes.clone()
    }

    /// The number of bytes in the payload.
    pub fn len(&self) -> (r: usize)
        ensures
            r == self@.len(),
    {
        self.bytes.len()
    }
}

} // verus!
