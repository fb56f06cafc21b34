//! Streaming chat relay core: a session-scoped conversation store with a
//! verified persistence codec, prompt rendering, a paced flush scheduler with
//! cooperative cancellation, and the outward event framing around them.

use vstd::prelude::*;

pub mod codec;
pub mod config;
pub mod emitter;
pub mod history;
pub mod scheduler;
pub mod session;
pub mod store;
pub mod text;

verus! {

/// Form payload of one chat submission: a single text field.
pub struct ChatForm {
    pub message: String,
}

/// Greeting served at the root route.
pub fn index() -> (r: &'static str)
    ensures
        r@ == "Hello, Kindle AI Chat!"@,
{
    "Hello, Kindle AI Chat!"
}

} // verus!
