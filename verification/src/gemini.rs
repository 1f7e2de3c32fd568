//! Data model of the Gemini content-generation commands.
//!
//! The wire format and request assembly live here; the HTTP call itself
//! is driver work. Building the request parts and picking the payload
//! out of a response are verified.

use vstd::prelude::*;

verus! {

/// A full generation request: the conversation contents and an optional
/// generation configuration.
pub struct GeminiRequest {
    pub contents: Vec<Content>,
    pub generation_config: Option<GenerationConfig>,
}

/// One conversation turn: a list of parts.
pub struct Content {
    pub parts: Vec<Part>,
}

/// One request part: plain text, or inline binary data.
pub enum Part {
    Text { text: String },
    InlineData { inline_data: InlineData },
}

/// Inline binary data: a media type and base64-encoded bytes.
pub struct InlineData {
    pub mime_type: String,
    pub data: String,
}

/// Generation options: requested response modalities and image shape.
pub struct GenerationConfig {
    pub response_modalities: Option<Vec<String>>,
    pub image_config: Option<ImageConfig>,
}

/// Requested image shape.
pub struct ImageConfig {
    pub aspect_ratio: Option<String>,
    pub image_size: Option<String>,
}

/// A generation response: candidates, or a service error.
pub struct GeminiResponse {
    pub candidates: Option<Vec<Candidate>>,
    pub error: Option<GeminiError>,
}

/// One response candidate.
pub struct Candidate {
    pub content: Option<CandidateContent>,
}

/// The content of a candidate.
pub struct CandidateContent {
    pub parts: Option<Vec<ResponsePart>>,
}

/// One response part: text, inline data, either or both may be absent.
pub struct ResponsePart {
    pub text: Option<String>,
    pub inline_data: Option<InlineData>,
}

/// A service-reported error.
pub struct GeminiError {
    pub message: String,
    pub code: Option<i32>,
}

/// What a caller passes to the image-generation command.
pub struct GeminiRequestParams {
    pub base_url: String,
    pub api_key: String,
    pub model: String,
    pub prompt: String,
    pub input_images: Option<Vec<String>>,
    pub aspect_ratio: Option<String>,
    pub image_size: Option<String>,
}

/// What the image-generation command hands back.
pub struct GeminiResult {
    pub success: bool,
    pub image_data: Option<String>,
    pub text: Option<String>,
    pub error: Option<String>,
}

/// A file attached to a text-generation request.
pub struct FileData {
    pub data: String,
    pub mime_type: String,
    pub file_name: Option<String>,
}

/// What the text-generation command hands back.
pub struct LLMResult {
    pub success: bool,
    pub content: Option<String>,
    pub error: Option<String>,
}

/// Assembles the parts of an image-generation request: the prompt
/// first, then one inline PNG part per input image, in order.
pub fn image_request_parts(prompt: String, input_images: Vec<String>) -> (r: Vec<Part>)
    ensures
        r@.len() == 1 + input_images@.len(),
        r@[0] matches Part::Text { text } && text == prompt,
        forall|i: int|
            0 <= i < input_images@.len() ==> (#[trigger] r@[i + 1] matches Part::InlineData {
                inline_data,
            } && inline_data.data == input_images@[i] && inline_data.mime_type@ == "image/png"@),
{
    let mut parts: Vec<Part> = Vec::new();
    parts.push(Part::Text { text: prompt });
    let ghost images = input_images@;
    let mut rem = input_images;
    let ghost mut taken: int = 0;
    proof {
        assert(images.skip(0) =~= images);
    }
    while rem.len() > 0
        invariant
            0 <= taken <= images.len(),
            rem@ == images.skip(taken),
            parts@.len() == 1 + taken,
            parts@[0] matches Part::Text { text } && text == prompt,
            forall|i: int|
                0 <= i < taken ==> (#[trigger] parts@[i + 1] matches Part::InlineData {
                    inline_data,
                } && inline_data.data == images[i] && inline_data.mime_type@ == "image/png"@),
        decreases rem@.len(),
    {
        let image_data = rem.remove(0);
        proof {
            assert(image_data == images[taken]);
            assert(rem@ =~= images.skip(taken + 1));
        }
        parts.push(
            Part::InlineData {
                inline_data: InlineData {
                    mime_type: String::from_str("image/png"),
                    data: image_data,
                },
            },
        );
        proof {
            taken = taken + 1;
        }
    }
    parts
}

/// The base64 payload of the last response part that carries inline
/// data, at view level.
pub open spec fn last_inline_data(parts: Seq<ResponsePart>) -> Option<Seq<char>>
    decreases parts.len(),
{
    if parts.len() == 0 {
        None
    } else {
        match parts.last().inline_data {
            Some(d) => Some(d.data@),
            None => last_inline_data(parts.drop_last()),
        }
    }
}

/// The text of the last response part that carries text, at view
/// level.
pub open spec fn last_part_text(parts: Seq<ResponsePart>) -> Option<Seq<char>>
    decreases parts.len(),
{
    if parts.len() == 0 {
        None
    } else {
        match parts.last().text {
            Some(t) => Some(t@),
            None => last_part_text(parts.drop_last()),
        }
    }
}

/// Picks the payload out of a candidate's parts the way the command
/// reports it: the last inline data and the last text win.
pub fn pick_payload(parts: &Vec<ResponsePart>) -> (r: (Option<String>, Option<String>))
    ensures
        match r.0 {
            Some(d) => last_inline_data(parts@) matches Some(v) && d@ == v,
            None => last_inline_data(parts@) is None,
        },
        match r.1 {
            Some(t) => last_part_text(parts@) matches Some(v) && t@ == v,
            None => last_part_text(parts@) is None,
        },
{
    let mut image_data: Option<String> = None;
    let mut text: Option<String> = None;
    let n = parts.len();
    for i in 0..n
        invariant
            n == parts@.len(),
            match image_data {
                Some(d) => last_inline_data(parts@.take(i as int)) matches Some(v) && d@ == v,
                None => last_inline_data(parts@.take(i as int)) is None,
            },
            match text {
                Some(t) => last_part_text(parts@.take(i as int)) matches Some(v) && t@ == v,
                None => last_part_text(parts@.take(i as int)) is None,
            },
    {
        proof {
            assert(parts@.take(i + 1).drop_last() =~= parts@.take(i as int));
            assert(parts@.take(i + 1).last() == parts@[i as int]);
        }
        match &parts[i].inline_data {
            Some(d) => {
                image_data = Some(d.data.clone());
            },
            None => {},
        }
        match &parts[i].text {
            Some(t) => {
                text = Some(t.clone());
            },
            None => {},
        }
    }
    proof {
        assert(parts@.take(n as int) =~= parts@);
    }
    (image_data, text)
}

} // verus!
