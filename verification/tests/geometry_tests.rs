use textwipe::geometry::DetectedPolygon;
use textwipe::geometry::PolyPoint;
use textwipe::geometry::extract_text_box;
use textwipe::geometry::extract_text_boxes;

fn pt(x: i64, y: i64) -> PolyPoint {
    // coordinates in whole pixels; the library works in thousandths
    PolyPoint { x: x * 1000, y: y * 1000 }
}

fn rect_poly(x1: i64, y1: i64, x2: i64, y2: i64) -> DetectedPolygon {
    DetectedPolygon { points: vec![pt(x1, y1), pt(x2, y1), pt(x2, y2), pt(x1, y2)] }
}

#[test]
fn short_polygon_yields_no_box() {
    let poly = DetectedPolygon { points: vec![pt(0, 0), pt(50, 0), pt(50, 50)] };
    assert!(extract_text_box(&poly, "abc").is_none());
}

#[test]
fn empty_polygon_yields_no_box() {
    let poly = DetectedPolygon { points: vec![] };
    assert!(extract_text_box(&poly, "abc").is_none());
}

#[test]
fn basic_box_bounds_and_font_size() {
    // the polygon of scenario B: [(10,10),(50,10),(50,30),(10,30)], text "Hi"
    let poly = rect_poly(10, 10, 50, 30);
    let b = extract_text_box(&poly, "Hi").expect("box expected");
    assert_eq!(b.x, 10_000);
    assert_eq!(b.y, 10_000);
    assert_eq!(b.width, 40_000);
    assert_eq!(b.height, 20_000);
    assert_eq!(b.text, "Hi");
    // fontSize = clamp(20 * 0.7 * 72 / 96, 8, 72) = 10.5 points
    assert_eq!(b.font_size, 10_500);
}

#[test]
fn narrow_box_is_dropped() {
    // width 8 pixels: below the 10-pixel threshold
    let poly = rect_poly(10, 10, 18, 30);
    assert!(extract_text_box(&poly, "x").is_none());
}

#[test]
fn short_box_is_dropped() {
    // height 9 pixels: below the 10-pixel threshold
    let poly = rect_poly(10, 10, 50, 19);
    assert!(extract_text_box(&poly, "x").is_none());
}

#[test]
fn negative_origin_is_clamped_to_zero() {
    let poly = rect_poly(-20, -15, 30, 25);
    let b = extract_text_box(&poly, "t").expect("box expected");
    assert_eq!(b.x, 0);
    assert_eq!(b.y, 0);
    // width and height keep the full polygon extent
    assert_eq!(b.width, 50_000);
    assert_eq!(b.height, 40_000);
}

#[test]
fn font_size_clamped_below() {
    // height 10 px -> raw 7.35 pt, clamped up to 8 pt
    let poly = rect_poly(0, 0, 100, 10);
    let b = extract_text_box(&poly, "").expect("box expected");
    assert_eq!(b.font_size, 8_000);
}

#[test]
fn font_size_clamped_above() {
    // height 200 px -> raw 105 pt, clamped down to 72 pt
    let poly = rect_poly(0, 0, 100, 200);
    let b = extract_text_box(&poly, "").expect("box expected");
    assert_eq!(b.font_size, 72_000);
}

#[test]
fn font_size_within_range_for_many_heights() {
    for h in [10_i64, 11, 15, 29, 30, 31, 97, 137, 500, 10_000] {
        let poly = rect_poly(0, 0, 100, h);
        let b = extract_text_box(&poly, "").expect("box expected");
        assert!(b.font_size >= 8_000, "font too small for height {h}");
        assert!(b.font_size <= 72_000, "font too large for height {h}");
        assert!(b.x >= 0 && b.y >= 0);
        assert!(b.width >= 10_000 && b.height >= 10_000);
    }
}

#[test]
fn irregular_polygon_uses_extremes() {
    let poly = DetectedPolygon {
        points: vec![pt(5, 40), pt(90, 12), pt(60, 70), pt(20, 55), pt(33, 18)],
    };
    let b = extract_text_box(&poly, "zig").expect("box expected");
    assert_eq!(b.x, 5_000);
    assert_eq!(b.y, 12_000);
    assert_eq!(b.width, 85_000);
    assert_eq!(b.height, 58_000);
}

#[test]
fn missing_text_becomes_empty_string() {
    let polys = vec![rect_poly(0, 0, 50, 20), rect_poly(0, 40, 50, 60)];
    let texts = vec![String::from("only one")];
    let boxes = extract_text_boxes(&polys, &texts);
    assert_eq!(boxes.len(), 2);
    assert_eq!(boxes[0].text, "only one");
    assert_eq!(boxes[1].text, "");
}

#[test]
fn rejected_polygons_do_not_consume_their_text() {
    // texts stay aligned by polygon index, not by surviving box index
    let polys = vec![
        rect_poly(0, 0, 5, 5),     // too small: dropped
        rect_poly(0, 40, 50, 60),  // kept, takes text index 1
    ];
    let texts = vec![String::from("dropped"), String::from("kept")];
    let boxes = extract_text_boxes(&polys, &texts);
    assert_eq!(boxes.len(), 1);
    assert_eq!(boxes[0].text, "kept");
}
