//! Data model of the local image-storage commands. The commands
//! themselves are file I/O and live in the driver.

use vstd::prelude::*;

verus! {

/// How an image entered storage.
pub enum ImageType {
    Input,
    Generated,
}

/// A stored image.
pub struct ImageInfo {
    pub id: String,
    pub filename: String,
    pub path: String,
    pub size: u64,
    pub created_at: i64,
    pub canvas_id: Option<String>,
    pub node_id: Option<String>,
    pub image_type: Option<ImageType>,
}

/// Persisted metadata of a stored image.
pub struct ImageMetadata {
    pub prompt: Option<String>,
    pub input_images: Vec<InputImageInfo>,
    pub node_id: Option<String>,
    pub canvas_id: Option<String>,
    pub created_at: i64,
}

/// One input image recorded in metadata.
pub struct InputImageInfo {
    pub path: Option<String>,
    pub label: String,
}

/// A stored image together with its metadata.
pub struct ImageInfoWithMetadata {
    pub id: String,
    pub filename: String,
    pub path: String,
    pub size: u64,
    pub created_at: i64,
    pub canvas_id: Option<String>,
    pub node_id: Option<String>,
    pub image_type: Option<ImageType>,
    pub metadata: Option<ImageMetadata>,
}

/// Totals over the image store.
pub struct StorageStats {
    pub total_size: u64,
    pub image_count: usize,
    pub cache_size: u64,
    pub images_by_canvas: Vec<CanvasImageStats>,
}

/// Totals for one canvas.
pub struct CanvasImageStats {
    pub canvas_id: String,
    pub image_count: usize,
    pub total_size: u64,
}

} // verus!
