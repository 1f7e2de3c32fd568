//! Data model of the chat-completion proxy commands. The commands
//! themselves are uniform request/response forwarding over two vendor
//! protocols and live in the driver.

use vstd::prelude::*;

verus! {

/// A file attached to a chat request.
pub struct FileData {
    pub data: String,
    pub mime_type: String,
    pub file_name: Option<String>,
}

/// What a chat-completion command hands back.
pub struct LLMResult {
    pub success: bool,
    pub content: Option<String>,
    pub error: Option<String>,
}

} // verus!
