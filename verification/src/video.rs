//! Data model of the video-generation proxy commands: create a task,
//! poll its status, fetch its content. The polling and transfer are
//! driver work.

use vstd::prelude::*;

verus! {

/// What a caller passes to create a video task.
pub struct VideoCreateParams {
    pub base_url: String,
    pub api_key: String,
    pub model: String,
    pub prompt: String,
    pub seconds: Option<String>,
    pub size: Option<String>,
    pub input_image: Option<String>,
}

/// The state of a video task.
pub struct VideoTaskResult {
    pub success: bool,
    pub task_id: Option<String>,
    pub status: Option<String>,
    pub progress: Option<i32>,
    pub error: Option<String>,
}

/// The finished video, base64-encoded.
pub struct VideoContentResult {
    pub success: bool,
    pub video_data: Option<String>,
    pub error: Option<String>,
}

/// What a caller passes to poll or fetch a task.
pub struct VideoStatusParams {
    pub base_url: String,
    pub api_key: String,
    pub task_id: String,
}

} // verus!
