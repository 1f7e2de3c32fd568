//! Data model of the streaming-generation command. The stream itself —
//! chunked HTTP and event forwarding — is driver work.

use vstd::prelude::*;

verus! {

/// What a caller passes to start a streaming generation.
pub struct LemonStreamParams {
    pub base_url: String,
    pub api_key: String,
    pub model: String,
    pub prompt: String,
    pub input_images: Option<Vec<String>>,
    pub channel_id: String,
}

} // verus!
