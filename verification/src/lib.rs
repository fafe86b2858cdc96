//! A SIP message codec: a zero-copy tokenizer that splits a raw byte buffer
//! into borrowed spans per grammar production, and a typed conversion layer
//! that turns those spans into owned, semantically validated values.
//! Rendering turns owned values back into wire-format bytes.

pub mod error;
pub mod header;
pub mod param;
pub mod response;
pub mod scan;
pub mod status_code;
pub mod uri;
pub mod version;
pub mod via;

use vstd::prelude::*;

verus! {

use crate::response::Response;

/// A parsed SIP message: one wire format, two top-level shapes, told apart
/// only by the first line.  Narrowing to one variant is fallible.
#[derive(Debug, Clone, PartialEq, Eq)]
pub enum SipMessage {
    Request(Request),
    Response(Response),
}

/// A SIP request: the same shape as a response with a method and URI in the
/// start line.  Requests are outside the tokenized core here, so the
/// start-line fields stay raw bytes.
#[derive(Debug, Clone, PartialEq, Eq)]
pub struct Request {
    pub method: Vec<u8>,
    pub uri: Vec<u8>,
    pub version: crate::version::Version,
    pub headers: crate::header::Headers,
    pub body: Vec<u8>,
}

} // verus!
