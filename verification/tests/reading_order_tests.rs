use textwipe::geometry::TextBoxData;
use textwipe::reading_order::sort_reading_order;

fn tb(x_px: i64, y_px: i64, label: &str) -> TextBoxData {
    TextBoxData {
        x: x_px * 1000,
        y: y_px * 1000,
        width: 20_000,
        height: 12_000,
        text: String::from(label),
        font_size: 9_000,
    }
}

fn labels(boxes: &[TextBoxData]) -> Vec<&str> {
    boxes.iter().map(|b| b.text.as_str()).collect()
}

#[test]
fn rows_come_top_to_bottom() {
    let sorted = sort_reading_order(vec![tb(0, 70, "c"), tb(0, 5, "a"), tb(0, 40, "b")]);
    assert_eq!(labels(&sorted), ["a", "b", "c"]);
}

#[test]
fn within_a_row_left_to_right() {
    // all three share row 0 (y < 30)
    let sorted = sort_reading_order(vec![tb(50, 2, "right"), tb(1, 9, "left"), tb(20, 25, "mid")]);
    assert_eq!(labels(&sorted), ["left", "mid", "right"]);
}

#[test]
fn row_bucket_beats_vertical_position() {
    // y = 29 and y = 31 land in different 30-pixel rows even though the
    // boxes nearly touch; y = 31 and y = 59 share a row, so x decides
    let sorted = sort_reading_order(vec![tb(0, 31, "b"), tb(90, 29, "a"), tb(40, 59, "c")]);
    assert_eq!(labels(&sorted), ["a", "b", "c"]);
    assert_eq!(sorted.len(), 3);
}

#[test]
fn equal_keys_keep_encounter_order() {
    // same row bucket and same x: stability keeps original order
    let sorted = sort_reading_order(vec![
        tb(10, 3, "first"),
        tb(10, 17, "second"),
        tb(10, 29, "third"),
    ]);
    assert_eq!(labels(&sorted), ["first", "second", "third"]);
}

#[test]
fn equal_keys_keep_order_among_mixed_boxes() {
    let sorted = sort_reading_order(vec![
        tb(10, 35, "later-row"),
        tb(5, 3, "tie-one"),
        tb(5, 19, "tie-two"),
        tb(2, 8, "leftmost"),
    ]);
    assert_eq!(labels(&sorted), ["leftmost", "tie-one", "tie-two", "later-row"]);
}

#[test]
fn empty_and_singleton_inputs() {
    assert_eq!(sort_reading_order(vec![]).len(), 0);
    let one = sort_reading_order(vec![tb(7, 7, "solo")]);
    assert_eq!(labels(&one), ["solo"]);
}
