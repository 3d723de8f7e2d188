//! The message: an already-framed argument buffer and its signature.

use vstd::prelude::*;

use crate::signature::Signature;
use crate::signature::WireTypeV;

verus! {

/// The decoded arguments of one message: the encoded body and the signature
/// describing the types of its top-level arguments.  The transport layer
/// builds one of these; the core only ever reads it.
pub struct Message {
    body: Vec<u8>,
    signature: Signature,
}

impl Message {
    /// The body bytes.
    pub closed spec fn spec_body(self) -> Seq<u8> {
        self.body@
    }

    /// The types of the top-level arguments.
    pub closed spec fn spec_types(self) -> Seq<WireTypeV> {
        self.signature@
    }

    /// A message over the given body, whose arguments are described by the
    /// given signature.
    pub fn new(body: Vec<u8>, signature: Signature) -> (r: Message)
        ensures
            r.spec_body() == body@,
            r.spec_types() == signature@,
    {
        Message { body, signature }
    }

    /// The encoded argument bytes.
    pub fn body(&self) -> (r: &Vec<u8>)
        ensures
            r@ == self.spec_body(),
    {
        &self.body
    }

    /// The signature of the top-level arguments.
    pub fn signature(&self) -> (r: &Signature)
        ensures
            r@ == self.spec_types(),
    {
        &self.signature
    }
}

} // verus!
