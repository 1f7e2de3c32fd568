use textwipe::geometry::TextBoxData;
use textwipe::mask::rasterize_mask;

fn tb(x_px: i64, y_px: i64, w_px: i64, h_px: i64) -> TextBoxData {
    TextBoxData {
        x: x_px * 1000,
        y: y_px * 1000,
        width: w_px * 1000,
        height: h_px * 1000,
        text: String::new(),
        font_size: 9_000,
    }
}

#[test]
fn mask_has_source_dimensions() {
    let m = rasterize_mask(100, 50, &vec![tb(10, 10, 40, 20)], 5);
    assert_eq!(m.len(), 100 * 50);
    let empty = rasterize_mask(33, 7, &vec![], 5);
    assert_eq!(empty.len(), 33 * 7);
    assert!(empty.iter().all(|&p| p == 0));
}

#[test]
fn padded_rectangle_of_scenario_box() {
    // box {x:10, y:10, w:40, h:20}, padding 5:
    // x1 = 10-5, x2 = (10+40)+5, y1 = 10-5, y2 = (10+20)+5,
    // so 255 over x in [5,55), y in [5,35), 0 elsewhere
    let m = rasterize_mask(100, 50, &vec![tb(10, 10, 40, 20)], 5);
    for py in 0..50usize {
        for px in 0..100usize {
            let expect = px >= 5 && px < 55 && py >= 5 && py < 35;
            let got = m[py * 100 + px];
            assert_eq!(got == 255, expect, "pixel ({px},{py})");
            assert!(got == 0 || got == 255);
        }
    }
}

#[test]
fn padded_rectangle_is_clamped_to_the_image() {
    // box near the origin with a large padding: the rectangle is cut at
    // the image edges instead of wrapping or overflowing
    let m = rasterize_mask(20, 20, &vec![tb(1, 1, 12, 12)], 10);
    // x1 = max(0, 1-10) = 0, x2 = min(20, 13+10) = 20: everything painted
    for py in 0..20usize {
        for px in 0..20usize {
            assert_eq!(m[py * 20 + px], 255, "pixel ({px},{py})");
        }
    }
}

#[test]
fn painting_twice_changes_nothing() {
    let one = rasterize_mask(60, 40, &vec![tb(8, 6, 20, 15)], 3);
    let twice = rasterize_mask(60, 40, &vec![tb(8, 6, 20, 15), tb(8, 6, 20, 15)], 3);
    assert_eq!(one, twice);
}

#[test]
fn overlapping_boxes_paint_their_union() {
    // two horizontally overlapping boxes of the same height whose
    // geometric union is one rectangle: pixel-for-pixel identical masks
    let two = rasterize_mask(80, 40, &vec![tb(10, 10, 20, 10), tb(25, 10, 25, 10)], 0);
    let union = rasterize_mask(80, 40, &vec![tb(10, 10, 40, 10)], 0);
    assert_eq!(two, union);
}

#[test]
fn disjoint_boxes_leave_the_gap_clear() {
    let m = rasterize_mask(100, 30, &vec![tb(0, 0, 10, 10), tb(50, 0, 10, 10)], 0);
    // inside the first box
    assert_eq!(m[5 * 100 + 5], 255);
    // in the gap
    assert_eq!(m[5 * 100 + 30], 0);
    // inside the second box
    assert_eq!(m[5 * 100 + 55], 255);
    // below both
    assert_eq!(m[20 * 100 + 5], 0);
}

#[test]
fn rounding_of_subpixel_edges() {
    // left edge 9.4 px rounds to 9; right edge 9.4+20.2 = 29.6 rounds to 30
    let b = TextBoxData {
        x: 9_400,
        y: 0,
        width: 20_200,
        height: 10_000,
        text: String::new(),
        font_size: 8_000,
    };
    let m = rasterize_mask(40, 12, &vec![b], 0);
    for px in 0..40usize {
        let expect = px >= 9 && px < 30;
        assert_eq!(m[px] == 255, expect, "pixel ({px},0)");
    }
}
