use base64::Engine;
use base64::engine::general_purpose::STANDARD;
use textwipe::geometry::DetectedPolygon;
use textwipe::geometry::PolyPoint;
use textwipe::pipeline::AfterOcr;
use textwipe::pipeline::InpaintOutcome;
use textwipe::pipeline::OcrOutcome;
use textwipe::pipeline::decode_source;
use textwipe::pipeline::default_mask_padding;
use textwipe::pipeline::finish_after_inpaint;
use textwipe::pipeline::ocr_status_accepts;
use textwipe::pipeline::plan_after_ocr;
use textwipe::pipeline::render_mask_png;
use textwipe::mask::rasterize_mask;

fn pt(x: i64, y: i64) -> PolyPoint {
    PolyPoint { x: x * 1000, y: y * 1000 }
}

fn rect_poly(x1: i64, y1: i64, x2: i64, y2: i64) -> DetectedPolygon {
    DetectedPolygon { points: vec![pt(x1, y1), pt(x2, y1), pt(x2, y2), pt(x1, y2)] }
}

/// A real PNG of the given size, base64-encoded, as a caller would send.
fn sample_page_base64(width: u32, height: u32) -> String {
    let img: image::ImageBuffer<image::Luma<u8>, Vec<u8>> =
        image::ImageBuffer::from_pixel(width, height, image::Luma([200u8]));
    let mut cursor = std::io::Cursor::new(Vec::new());
    img.write_to(&mut cursor, image::ImageFormat::Png).expect("png encode");
    STANDARD.encode(cursor.into_inner())
}

#[test]
fn padding_defaults_to_five() {
    assert_eq!(default_mask_padding(), 5);
}

#[test]
fn decode_source_reads_real_dimensions() {
    let data = sample_page_base64(37, 21);
    let dims = decode_source(&data).expect("valid image");
    assert_eq!((dims.width, dims.height), (37, 21));
}

#[test]
fn decode_source_rejects_bad_base64() {
    let e = decode_source("!!!not base64!!!").unwrap_err();
    assert_eq!(e, "invalid image data: not valid base64");
}

#[test]
fn decode_source_rejects_non_image_bytes() {
    let data = STANDARD.encode(b"plain text, not an image");
    let e = decode_source(&data).unwrap_err();
    assert_eq!(e, "invalid image data: not a decodable image");
}

#[test]
fn no_detections_short_circuits_to_the_original() {
    // scenario: zero detected polygons -> success, original bytes back,
    // no boxes, no inpaint call needed
    let data = sample_page_base64(100, 50);
    let outcome = OcrOutcome::Detected { polygons: vec![], texts: vec![] };
    match plan_after_ocr(&data, 100, 50, 5, outcome) {
        AfterOcr::Finished(r) => {
            assert!(r.success);
            assert_eq!(r.background_image.as_deref(), Some(data.as_str()));
            assert!(r.text_boxes.is_empty());
            assert!(r.error.is_none());
        }
        AfterOcr::NeedInpaint { .. } => panic!("no inpaint call expected"),
    }
}

#[test]
fn only_undersized_detection_behaves_like_no_detection() {
    // scenario: a single polygon of width 8 is dropped, so the pipeline
    // behaves exactly as if nothing was detected
    let data = sample_page_base64(100, 50);
    let outcome = OcrOutcome::Detected {
        polygons: vec![rect_poly(10, 10, 18, 30)],
        texts: vec![String::from("tiny")],
    };
    match plan_after_ocr(&data, 100, 50, 5, outcome) {
        AfterOcr::Finished(r) => {
            assert!(r.success);
            assert_eq!(r.background_image.as_deref(), Some(data.as_str()));
            assert!(r.text_boxes.is_empty());
            assert!(r.error.is_none());
        }
        AfterOcr::NeedInpaint { .. } => panic!("no inpaint call expected"),
    }
}

#[test]
fn detection_failure_is_fatal_with_message() {
    // scenario: the detection call timed out
    let data = sample_page_base64(100, 50);
    let outcome = OcrOutcome::Failed { detail: String::from("request timed out") };
    match plan_after_ocr(&data, 100, 50, 5, outcome) {
        AfterOcr::Finished(r) => {
            assert!(!r.success);
            assert!(r.background_image.is_none());
            assert!(r.text_boxes.is_empty());
            assert_eq!(r.error.as_deref(), Some("text detection failed: request timed out"));
        }
        AfterOcr::NeedInpaint { .. } => panic!("no inpaint call expected"),
    }
}

#[test]
fn one_box_flows_through_to_the_inpaint_request() {
    // scenario B: one polygon [(10,10),(50,10),(50,30),(10,30)], "Hi",
    // padding 5
    let data = sample_page_base64(100, 50);
    let outcome = OcrOutcome::Detected {
        polygons: vec![rect_poly(10, 10, 50, 30)],
        texts: vec![String::from("Hi")],
    };
    match plan_after_ocr(&data, 100, 50, 5, outcome) {
        AfterOcr::NeedInpaint { mask_png_base64, boxes } => {
            assert_eq!(boxes.len(), 1);
            let b = &boxes[0];
            assert_eq!((b.x, b.y, b.width, b.height), (10_000, 10_000, 40_000, 20_000));
            assert_eq!(b.text, "Hi");
            assert_eq!(b.font_size, 10_500);

            // the mask travels as a base64 PNG; decode it back and hold
            // it against the raw raster
            let png = STANDARD.decode(&mask_png_base64).expect("mask is base64");
            let decoded = image::load_from_memory(&png).expect("mask is a PNG");
            assert_eq!((decoded.width(), decoded.height()), (100, 50));
            let gray = decoded.to_luma8();
            let raster = rasterize_mask(100, 50, &boxes, 5);
            for py in 0..50u32 {
                for px in 0..100u32 {
                    let expect = px >= 5 && px < 55 && py >= 5 && py < 35;
                    let from_png = gray.get_pixel(px, py).0[0];
                    assert_eq!(from_png == 255, expect, "png pixel ({px},{py})");
                    assert_eq!(raster[(py * 100 + px) as usize], from_png);
                }
            }
        }
        AfterOcr::Finished(_) => panic!("inpaint call expected"),
    }
}

#[test]
fn inpaint_failure_keeps_the_boxes() {
    // scenario: detection found one box, the inpaint call answered
    // HTTP 500 -> partial failure, boxes preserved
    let data = sample_page_base64(100, 50);
    let outcome = OcrOutcome::Detected {
        polygons: vec![rect_poly(10, 10, 50, 30)],
        texts: vec![String::from("Hi")],
    };
    let boxes = match plan_after_ocr(&data, 100, 50, 5, outcome) {
        AfterOcr::NeedInpaint { boxes, .. } => boxes,
        AfterOcr::Finished(_) => panic!("inpaint call expected"),
    };
    let r = finish_after_inpaint(
        boxes,
        InpaintOutcome::Failed { detail: String::from("service answered status 500") },
    );
    assert!(!r.success);
    assert!(r.background_image.is_none());
    assert_eq!(r.text_boxes.len(), 1);
    assert_eq!(r.text_boxes[0].text, "Hi");
    assert_eq!(r.error.as_deref(), Some("inpainting failed: service answered status 500"));
}

#[test]
fn inpaint_success_returns_base64_background() {
    let r = finish_after_inpaint(
        vec![],
        InpaintOutcome::Cleaned { image: vec![72u8, 105u8] },
    );
    assert!(r.success);
    // "Hi" in standard base64: proves the bytes were really encoded
    assert_eq!(r.background_image.as_deref(), Some("SGk="));
    assert!(r.error.is_none());
}

#[test]
fn pipeline_is_deterministic_for_equal_inputs() {
    // a deterministic detector stub answering twice with the same
    // polygons must yield identical boxes and identical mask bytes
    let data = sample_page_base64(100, 50);
    let make_outcome = || OcrOutcome::Detected {
        polygons: vec![rect_poly(10, 10, 50, 30), rect_poly(12, 36, 80, 48)],
        texts: vec![String::from("Hi"), String::from("there")],
    };
    let first = plan_after_ocr(&data, 100, 50, 5, make_outcome());
    let second = plan_after_ocr(&data, 100, 50, 5, make_outcome());
    match (first, second) {
        (
            AfterOcr::NeedInpaint { mask_png_base64: m1, boxes: b1 },
            AfterOcr::NeedInpaint { mask_png_base64: m2, boxes: b2 },
        ) => {
            assert_eq!(m1, m2);
            assert_eq!(b1.len(), b2.len());
            for (a, b) in b1.iter().zip(b2.iter()) {
                assert_eq!((a.x, a.y, a.width, a.height, a.font_size), (b.x, b.y, b.width, b.height, b.font_size));
                assert_eq!(a.text, b.text);
            }
        }
        _ => panic!("both passes must ask for inpainting"),
    }
}

#[test]
fn boxes_reach_the_driver_in_reading_order() {
    let data = sample_page_base64(200, 100);
    let outcome = OcrOutcome::Detected {
        polygons: vec![
            rect_poly(10, 60, 60, 80),
            rect_poly(100, 5, 150, 25),
            rect_poly(10, 8, 60, 28),
        ],
        texts: vec![String::from("low"), String::from("top-right"), String::from("top-left")],
    };
    match plan_after_ocr(&data, 200, 100, 5, outcome) {
        AfterOcr::NeedInpaint { boxes, .. } => {
            let order: Vec<&str> = boxes.iter().map(|b| b.text.as_str()).collect();
            assert_eq!(order, ["top-left", "top-right", "low"]);
        }
        AfterOcr::Finished(_) => panic!("inpaint call expected"),
    }
}

#[test]
fn render_mask_png_round_trips() {
    let boxes = vec![textwipe::geometry::TextBoxData {
        x: 3_000,
        y: 2_000,
        width: 11_000,
        height: 10_000,
        text: String::new(),
        font_size: 8_000,
    }];
    let encoded = render_mask_png(30, 20, &boxes, 2).expect("mask encodes");
    let png = STANDARD.decode(&encoded).expect("base64");
    let decoded = image::load_from_memory(&png).expect("png");
    assert_eq!((decoded.width(), decoded.height()), (30, 20));
    let gray = decoded.to_luma8();
    // padded rectangle: x in [1, 16), y in [0, 14)
    for py in 0..20u32 {
        for px in 0..30u32 {
            let expect = px >= 1 && px < 16 && py < 14;
            assert_eq!(gray.get_pixel(px, py).0[0] == 255, expect, "pixel ({px},{py})");
        }
    }
}

#[test]
fn unencodable_mask_degrades_to_partial_failure() {
    // a zero-sized raster cannot be written as a PNG; the boxes must
    // still come back, as they do when inpainting itself fails
    let data = sample_page_base64(100, 50);
    let outcome = OcrOutcome::Detected {
        polygons: vec![rect_poly(10, 10, 50, 30)],
        texts: vec![String::from("Hi")],
    };
    match plan_after_ocr(&data, 0, 0, 5, outcome) {
        AfterOcr::Finished(r) => {
            assert!(!r.success);
            assert!(r.background_image.is_none());
            assert_eq!(r.text_boxes.len(), 1);
            assert_eq!(r.text_boxes[0].text, "Hi");
            assert_eq!(r.error.as_deref(), Some("inpainting failed: mask rendering failed"));
        }
        AfterOcr::NeedInpaint { .. } => panic!("a zero-sized mask must not be sent on"),
    }
}

#[test]
fn status_sentinels() {
    assert!(ocr_status_accepts("000"));
    assert!(ocr_status_accepts("success"));
    assert!(ocr_status_accepts("SUCCESS"));
    assert!(ocr_status_accepts("Success"));
    assert!(!ocr_status_accepts("001"));
    assert!(!ocr_status_accepts("0000"));
    assert!(!ocr_status_accepts("failure"));
    assert!(!ocr_status_accepts("successs"));
    assert!(!ocr_status_accepts(""));
}
