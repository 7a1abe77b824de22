//! A typed client library for a chat-completion HTTP API.
//!
//! The heart of the crate is the streaming path: the remote service pushes a
//! server-sent-event stream of incremental JSON deltas, and this library
//! decodes each payload into a typed [`chat::ChatCompletionEvent`], recognises
//! the literal end-of-stream sentinel, and lets a consumer reassemble the
//! per-candidate message text.  The wire grammar, the decoder, the encoder and
//! the reassembly rules all carry machine-checked contracts.

use vstd::prelude::*;

pub mod chat;
pub mod codec;
pub mod encode;
pub mod json;
pub mod models;
pub mod stream;

verus! {

/// Token-usage accounting attached to a completed (non-streaming) response.
#[derive(Clone, Copy, Debug, PartialEq, Eq, Structural)]
pub struct Usage {
    pub prompt_tokens: u32,
    pub completion_tokens: u32,
    pub total_tokens: u32,
}

impl Usage {
    /// Total tokens are the prompt and the completion together; the wire value
    /// is kept as received, this only states the expected relation.
    pub fn is_consistent(&self) -> (r: bool)
        ensures
            r == (self.prompt_tokens + self.completion_tokens == self.total_tokens),
    {
        self.prompt_tokens as u64 + self.completion_tokens as u64 == self.total_tokens as u64
    }
}

} // verus!
