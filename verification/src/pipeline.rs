//! The page pipeline: decode the source image, run text detection,
//! extract and order the boxes, short-circuit when nothing was found,
//! render the erase mask, run inpainting, and assemble the result.
//!
//! The pipeline owns all partial-failure policy. The two network calls
//! are made by an unverified driver; every decision between them is a
//! verified function here, so a driver that feeds outcomes through
//! `decode_source`, `plan_after_ocr` and `finish_after_inpaint` gets
//! exactly the behaviour these contracts state. No stage is retried and
//! no state is revisited: one image in, one result out.

use vstd::prelude::*;
use vstd::string::StringExecFns;
use vstd::string::StrSliceExecFns;
use crate::codec::b64_decoded;
use crate::codec::b64_encode;
use crate::codec::b64_of;
use crate::codec::b64_decode;
use crate::codec::image_dims_of;
use crate::codec::png_encode_gray;
use crate::codec::png_gray_of;
use crate::codec::probe_image_dims;
use crate::geometry::DetectedPolygon;
use crate::geometry::PolyPoint;
use crate::geometry::TextBoxData;
use crate::geometry::TextBoxView;
use crate::geometry::box_in_range;
use crate::geometry::box_well_formed;
use crate::geometry::extract_all_spec;
use crate::geometry::extract_text_boxes;
use crate::geometry::lemma_extract_all_well_formed;
use crate::geometry::poly_views;
use crate::geometry::polygon_in_range;
use crate::geometry::text_views;
use crate::geometry::views_of;
use crate::mask::mask_spec;
use crate::mask::rasterize_mask;
use crate::reading_order::lemma_sort_views_membership;
use crate::reading_order::sort_reading_order;
use crate::reading_order::sort_views;

verus! {

/// A caller's request: the base64-encoded source image, the two service
/// endpoints, and how far the erase mask extends past each box, in
/// pixels.
pub struct ProcessPageParams {
    pub image_data: String,
    pub ocr_api_url: String,
    pub inpaint_api_url: String,
    pub mask_padding: u32,
}

/// The mask padding used when a request does not name one.
pub fn default_mask_padding() -> (p: u32)
    ensures
        p == 5,
{
    5
}

/// What a pipeline run hands back: exactly one success or error state,
/// the cleaned background when inpainting ran, and the detected boxes —
/// which are kept even when inpainting failed, so callers can still
/// recover the text.
pub struct ProcessPageResult {
    pub success: bool,
    pub background_image: Option<String>,
    pub text_boxes: Vec<TextBoxData>,
    pub error: Option<String>,
}

/// Width and height of the decoded source image; authoritative for all
/// downstream clamping.
#[derive(Clone, Copy, Debug)]
pub struct ImageDims {
    pub width: u32,
    pub height: u32,
}

/// What came back from the detection service, already translated to
/// plain values by the adapter: the polygons with their aligned
/// recognized strings, or the failure text.
pub enum OcrOutcome {
    Detected { polygons: Vec<DetectedPolygon>, texts: Vec<String> },
    Failed { detail: String },
}

/// What came back from the inpainting service: the cleaned image bytes,
/// or the failure text.
pub enum InpaintOutcome {
    Cleaned { image: Vec<u8> },
    Failed { detail: String },
}

/// What the driver must do after detection: hand a finished result to
/// the caller, or call the inpainting service with the rendered mask.
pub enum AfterOcr {
    Finished(ProcessPageResult),
    NeedInpaint { mask_png_base64: String, boxes: Vec<TextBoxData> },
}

/// A request to check that a service endpoint answers; the ping itself
/// is driver work.
pub struct TestConnectionParams {
    pub url: String,
}

/// The outcome of an endpoint check.
pub struct TestConnectionResult {
    pub success: bool,
    pub message: String,
}

/// The boxes a detection response yields, in reading order.
pub open spec fn ordered_boxes_spec(polys: Seq<Seq<PolyPoint>>, texts: Seq<Seq<char>>) -> Seq<
    TextBoxView,
> {
    sort_views(extract_all_spec(polys, texts))
}

/// Decodes the source image far enough to learn its dimensions. A
/// malformed image is fatal: the pipeline cannot clamp or rasterize
/// without the true width and height.
pub fn decode_source(image_data: &str) -> (r: Result<ImageDims, String>)
    ensures
        match b64_decoded(image_data@) {
            Option::None => r matches Err(e) && e@ == "invalid image data: not valid base64"@,
            Option::Some(bytes) => match image_dims_of(bytes) {
                Option::None => r matches Err(e) && e@
                    == "invalid image data: not a decodable image"@,
                Option::Some(d) => r matches Ok(dims) && dims.width == d.0 && dims.height == d.1,
            },
        },
{
    let bytes = match b64_decode(image_data) {
        Ok(v) => v,
        Err(_) => {
            return Err(String::from_str("invalid image data: not valid base64"));
        },
    };
    match probe_image_dims(bytes.as_slice()) {
        Ok(d) => Ok(ImageDims { width: d.0, height: d.1 }),
        Err(_) => Err(String::from_str("invalid image data: not a decodable image")),
    }
}

/// A fatal detection-stage failure: no background, no boxes, only the
/// failure text behind a fixed prefix.
pub fn detection_failure(detail: &str) -> (r: ProcessPageResult)
    ensures
        !r.success,
        r.background_image is None,
        r.text_boxes@.len() == 0,
        r.error matches Some(m) && m@ == "text detection failed: "@ + detail@,
{
    ProcessPageResult {
        success: false,
        background_image: None,
        text_boxes: Vec::new(),
        error: Some(String::from_str("text detection failed: ").concat(detail)),
    }
}

/// The short-circuit when no text was found: success, with the
/// original, unmodified image bytes as background and no boxes. No
/// inpaint call is made when there is nothing to erase.
pub fn no_text_result(image_data: &str) -> (r: ProcessPageResult)
    ensures
        r.success,
        r.background_image matches Some(bg) && bg@ == image_data@,
        r.text_boxes@.len() == 0,
        r.error is None,
{
    ProcessPageResult {
        success: true,
        background_image: Some(image_data.to_owned()),
        text_boxes: Vec::new(),
        error: None,
    }
}

/// A partial failure: inpainting broke down, but the detected boxes are
/// still handed back.
pub fn inpaint_failure(boxes: Vec<TextBoxData>, detail: &str) -> (r: ProcessPageResult)
    ensures
        !r.success,
        r.background_image is None,
        r.text_boxes == boxes,
        r.error matches Some(m) && m@ == "inpainting failed: "@ + detail@,
{
    ProcessPageResult {
        success: false,
        background_image: None,
        text_boxes: boxes,
        error: Some(String::from_str("inpainting failed: ").concat(detail)),
    }
}

/// The full success: cleaned background and ordered boxes.
pub fn success_result(background_b64: String, boxes: Vec<TextBoxData>) -> (r: ProcessPageResult)
    ensures
        r.success,
        r.background_image matches Some(bg) && bg == background_b64,
        r.text_boxes == boxes,
        r.error is None,
{
    ProcessPageResult {
        success: true,
        background_image: Some(background_b64),
        text_boxes: boxes,
        error: None,
    }
}

/// Extracts the text boxes of a detection response and puts them in
/// reading order.
pub fn boxes_from_detections(polygons: &Vec<DetectedPolygon>, texts: &Vec<String>) -> (r: Vec<
    TextBoxData,
>)
    requires
        forall|i: int|
            0 <= i < polygons@.len() ==> polygon_in_range((#[trigger] polygons@[i]).points@),
    ensures
        views_of(r@) == ordered_boxes_spec(poly_views(polygons@), text_views(texts@)),
        forall|i: int|
            0 <= i < r@.len() ==> box_well_formed((#[trigger] r@[i])@) && box_in_range(r@[i]@),
{
    let extracted = extract_text_boxes(polygons, texts);
    proof {
        lemma_extract_all_well_formed(poly_views(polygons@), text_views(texts@));
        assert forall|i: int|
            0 <= i < extracted@.len() implies (#[trigger] extracted@[i]).y >= 0 by {
            assert(views_of(extracted@)[i] == extracted@[i]@);
        }
    }
    let ordered = sort_reading_order(extracted);
    proof {
        lemma_ordered_boxes_well_formed(poly_views(polygons@), text_views(texts@));
        assert forall|i: int|
            0 <= i < ordered@.len() implies box_well_formed((#[trigger] ordered@[i])@)
            && box_in_range(ordered@[i]@) by {
            assert(views_of(ordered@)[i] == ordered@[i]@);
            assert(views_of(ordered@)[i] == ordered_boxes_spec(
                poly_views(polygons@),
                text_views(texts@),
            )[i]);
        }
    }
    ordered
}

/// Every box a detection response yields, after ordering, is well
/// formed and in range.
pub proof fn lemma_ordered_boxes_well_formed(polys: Seq<Seq<PolyPoint>>, texts: Seq<Seq<char>>)
    requires
        forall|i: int| 0 <= i < polys.len() ==> polygon_in_range(#[trigger] polys[i]),
    ensures
        forall|j: int|
            0 <= j < ordered_boxes_spec(polys, texts).len() ==> box_well_formed(
                #[trigger] ordered_boxes_spec(polys, texts)[j],
            ) && box_in_range(ordered_boxes_spec(polys, texts)[j]),
{
    lemma_extract_all_well_formed(polys, texts);
    let ex = extract_all_spec(polys, texts);
    let obs = ordered_boxes_spec(polys, texts);
    assert forall|j: int| 0 <= j < obs.len() implies box_well_formed(#[trigger] obs[j])
        && box_in_range(obs[j]) by {
        lemma_sort_views_membership(ex, j);
        let t = choose|t: int| 0 <= t < ex.len() && obs[j] == ex[t];
        assert(box_well_formed(ex[t]));
    }
}

/// Renders the erase mask for the given boxes and encodes it as a
/// base64 PNG. Success follows the PNG encoding alone: owed whenever
/// both dimensions are nonzero, refused exactly when the encoding is.
pub fn render_mask_png(width: u32, height: u32, boxes: &Vec<TextBoxData>, padding: u32) -> (r:
    Result<String, String>)
    requires
        width * height <= usize::MAX,
        forall|i: int| 0 <= i < boxes@.len() ==> box_in_range((#[trigger] boxes@[i])@),
    ensures
        match r {
            Ok(s) => png_gray_of(
                width,
                height,
                mask_spec(width, height, views_of(boxes@), padding),
            ) matches Some(png) && s@ == b64_of(png),
            Err(_) => png_gray_of(
                width,
                height,
                mask_spec(width, height, views_of(boxes@), padding),
            ) is None,
        },
        width > 0 && height > 0 ==> r is Ok,
{
    let raster = rasterize_mask(width, height, boxes, padding);
    match png_encode_gray(width, height, raster) {
        Ok(png) => Ok(b64_encode(png.as_slice())),
        Err(e) => Err(e),
    }
}

/// Decides everything between the two service calls. A detection
/// failure is fatal. An empty box list short-circuits to success with
/// the original image. Otherwise the mask is rendered and the driver is
/// told to call the inpainting service; if the mask cannot be encoded,
/// the boxes are still returned as a partial failure.
pub fn plan_after_ocr(
    image_data: &str,
    width: u32,
    height: u32,
    padding: u32,
    outcome: OcrOutcome,
) -> (p: AfterOcr)
    requires
        width * height <= usize::MAX,
        outcome matches OcrOutcome::Detected { polygons, texts } ==> forall|i: int|
            0 <= i < polygons@.len() ==> polygon_in_range((#[trigger] polygons@[i]).points@),
    ensures
        match outcome {
            OcrOutcome::Failed { detail } => p matches AfterOcr::Finished(r) && !r.success
                && r.background_image is None && r.text_boxes@.len() == 0 && (r.error matches Some(
                m,
            ) && m@ == "text detection failed: "@ + detail@),
            OcrOutcome::Detected { polygons, texts } => {
                let obs = ordered_boxes_spec(poly_views(polygons@), text_views(texts@));
                if obs.len() == 0 {
                    p matches AfterOcr::Finished(r) && r.success && (
                    r.background_image matches Some(bg) && bg@ == image_data@)
                        && r.text_boxes@.len() == 0 && r.error is None
                } else {
                    let png = png_gray_of(width, height, mask_spec(width, height, obs, padding));
                    (match p {
                        AfterOcr::NeedInpaint { mask_png_base64, boxes } => png matches Some(bytes)
                            && views_of(boxes@) == obs && mask_png_base64@ == b64_of(bytes),
                        AfterOcr::Finished(r) => png is None && !r.success
                            && r.background_image is None && views_of(r.text_boxes@) == obs && (
                        r.error matches Some(m) && m@ == "inpainting failed: "@
                            + "mask rendering failed"@),
                    }) && (width > 0 && height > 0 ==> p is NeedInpaint)
                }
            },
        },
{
    match outcome {
        OcrOutcome::Failed { detail } => AfterOcr::Finished(detection_failure(detail.as_str())),
        OcrOutcome::Detected { polygons, texts } => {
            let boxes = boxes_from_detections(&polygons, &texts);
            if boxes.len() == 0 {
                AfterOcr::Finished(no_text_result(image_data))
            } else {
                match render_mask_png(width, height, &boxes, padding) {
                    Ok(mask_png_base64) => AfterOcr::NeedInpaint { mask_png_base64, boxes },
                    Err(_) => AfterOcr::Finished(inpaint_failure(boxes, "mask rendering failed")),
                }
            }
        },
    }
}

/// Finishes the pipeline once the inpainting call came back: the
/// cleaned bytes become the base64 background on success; on failure
/// the boxes survive as a partial result.
pub fn finish_after_inpaint(boxes: Vec<TextBoxData>, outcome: InpaintOutcome) -> (r:
    ProcessPageResult)
    ensures
        match outcome {
            InpaintOutcome::Cleaned { image } => r.success && (r.background_image matches Some(bg)
                && bg@ == b64_of(image@)) && r.text_boxes == boxes && r.error is None,
            InpaintOutcome::Failed { detail } => !r.success && r.background_image is None
                && r.text_boxes == boxes && (r.error matches Some(m) && m@
                == "inpainting failed: "@ + detail@),
        },
{
    match outcome {
        InpaintOutcome::Cleaned { image } => {
            let bg = b64_encode(image.as_slice());
            success_result(bg, boxes)
        },
        InpaintOutcome::Failed { detail } => inpaint_failure(boxes, detail.as_str()),
    }
}

/// Law: one detection answer determines the pipeline's output. With the
/// same polygons, strings, dimensions and padding — as with a
/// deterministic detector stub run twice on one image — the ordered
/// boxes, the mask bytes and the encoded mask are identical, because
/// all of them are functions of these inputs alone; and since
/// `plan_after_ocr` ties its branch and every field to these same
/// functions, two such runs produce identical results throughout.
pub proof fn lemma_pipeline_deterministic(
    polys_a: Seq<Seq<PolyPoint>>,
    texts_a: Seq<Seq<char>>,
    width_a: u32,
    height_a: u32,
    padding_a: u32,
    polys_b: Seq<Seq<PolyPoint>>,
    texts_b: Seq<Seq<char>>,
    width_b: u32,
    height_b: u32,
    padding_b: u32,
)
    requires
        polys_a == polys_b,
        texts_a == texts_b,
        width_a == width_b,
        height_a == height_b,
        padding_a == padding_b,
    ensures
        ordered_boxes_spec(polys_a, texts_a) == ordered_boxes_spec(polys_b, texts_b),
        mask_spec(width_a, height_a, ordered_boxes_spec(polys_a, texts_a), padding_a) == mask_spec(
            width_b,
            height_b,
            ordered_boxes_spec(polys_b, texts_b),
            padding_b,
        ),
        png_gray_of(
            width_a,
            height_a,
            mask_spec(width_a, height_a, ordered_boxes_spec(polys_a, texts_a), padding_a),
        ) == png_gray_of(
            width_b,
            height_b,
            mask_spec(width_b, height_b, ordered_boxes_spec(polys_b, texts_b), padding_b),
        ),
{
}

/// A character folded to lower case, for the ASCII letters; everything
/// else is left alone.
pub open spec fn lower_char(c: char) -> char {
    if 65 <= c as u32 <= 90 {
        (c as u32 + 32) as char
    } else {
        c
    }
}

/// A text folded to lower case, ASCII letter by ASCII letter.
pub open spec fn lower_seq(s: Seq<char>) -> Seq<char> {
    s.map_values(|c: char| lower_char(c))
}

/// The detection service's success sentinels: the literal status "000",
/// or "success" in any ASCII case. Every other status is an error.
pub open spec fn status_accepted(s: Seq<char>) -> bool {
    s == "000"@ || lower_seq(s) == "success"@
}

/// Whether a detection-service status text counts as success, exactly
/// as `status_accepted` describes.
pub fn ocr_status_accepts(status: &str) -> (r: bool)
    ensures
        r == status_accepted(status@),
{
    proof {
        reveal_strlit("000");
        reveal_strlit("success");
    }
    let n = status.unicode_len();
    if n == 3 && status.get_char(0) == '0' && status.get_char(1) == '0' && status.get_char(2)
        == '0' {
        proof {
            assert(status@ =~= "000"@);
        }
        return true;
    }
    if n == 7 {
        let folded = char_folds_to(status.get_char(0), 's') && char_folds_to(
            status.get_char(1),
            'u',
        ) && char_folds_to(status.get_char(2), 'c') && char_folds_to(status.get_char(3), 'c')
            && char_folds_to(status.get_char(4), 'e') && char_folds_to(status.get_char(5), 's')
            && char_folds_to(status.get_char(6), 's');
        if folded {
            proof {
                assert(lower_seq(status@) =~= "success"@);
            }
            return true;
        }
        proof {
            if lower_seq(status@) == "success"@ {
                assert(lower_seq(status@)[0] == lower_char(status@[0]));
                assert(lower_seq(status@)[1] == lower_char(status@[1]));
                assert(lower_seq(status@)[2] == lower_char(status@[2]));
                assert(lower_seq(status@)[3] == lower_char(status@[3]));
                assert(lower_seq(status@)[4] == lower_char(status@[4]));
                assert(lower_seq(status@)[5] == lower_char(status@[5]));
                assert(lower_seq(status@)[6] == lower_char(status@[6]));
            }
        }
        return false;
    }
    proof {
        assert(status@ != "000"@);
        assert(lower_seq(status@).len() == status@.len());
        assert(lower_seq(status@) != "success"@);
    }
    false
}

/// Whether `c` lower-cases to the (already lower-case) `expect`.
fn char_folds_to(c: char, expect: char) -> (r: bool)
    ensures
        r == (lower_char(c) == expect),
{
    let u = c as u32;
    let folded: u32 = if 65 <= u && u <= 90 {
        u + 32
    } else {
        u
    };
    folded == expect as u32
}

} // verus!
