//! The HTTP replies that the services give, as plain values.

use vstd::prelude::*;

verus! {

/// A reply: its status code, its content type if it sets one, its body.
pub struct HttpReply {
    pub status: u16,
    pub content_type: Option<String>,
    pub body: String,
}

} // verus!
