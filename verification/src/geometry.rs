//! Axis-aligned text boxes extracted from detector polygons.
//!
//! All coordinates are integers in subpixel units: thousandths of a
//! source-image pixel. Font sizes are thousandths of a typographic point.
//! Working in fixed point keeps every quantity exact and lets the
//! contracts speak about the arithmetic directly.

use vstd::prelude::*;

verus! {

/// Subpixel units per source-image pixel, and per typographic point.
pub const SUBPIXEL: i64 = 1000;

/// Largest coordinate magnitude, in subpixel units, that the geometry
/// accepts. The bound keeps every intermediate product inside `i64`.
pub const COORD_LIMIT: i64 = 1_000_000_000_000;

/// Boxes narrower or shorter than this (10 pixels) are treated as
/// detector noise and dropped.
pub const MIN_BOX_SIDE: i64 = 10_000;

/// Lower clamp for the estimated font size (8 points).
pub const FONT_SIZE_MIN: i64 = 8_000;

/// Upper clamp for the estimated font size (72 points).
pub const FONT_SIZE_MAX: i64 = 72_000;

/// One vertex of a detected text polygon, in subpixel units.
#[derive(Clone, Copy, Debug)]
pub struct PolyPoint {
    pub x: i64,
    pub y: i64,
}

/// A detector polygon: the ordered vertices of one suspected text region,
/// in source-image space. Polygons with fewer than four vertices carry no
/// usable region and are skipped.
#[derive(Clone, Debug)]
pub struct DetectedPolygon {
    pub points: Vec<PolyPoint>,
}

/// An axis-aligned text box: position and size of a text region, the
/// recognized string, and an estimated display font size. Never mutated
/// after creation.
#[derive(Clone, Debug)]
pub struct TextBoxData {
    pub x: i64,
    pub y: i64,
    pub width: i64,
    pub height: i64,
    pub text: String,
    pub font_size: i64,
}

/// The mathematical content of a `TextBoxData`.
pub struct TextBoxView {
    pub x: int,
    pub y: int,
    pub width: int,
    pub height: int,
    pub text: Seq<char>,
    pub font_size: int,
}

impl View for TextBoxData {
    type V = TextBoxView;

    open spec fn view(&self) -> TextBoxView {
        TextBoxView {
            x: self.x as int,
            y: self.y as int,
            width: self.width as int,
            height: self.height as int,
            text: self.text@,
            font_size: self.font_size as int,
        }
    }
}

/// The views of a sequence of boxes.
pub open spec fn views_of(bs: Seq<TextBoxData>) -> Seq<TextBoxView> {
    bs.map_values(|b: TextBoxData| b@)
}

/// The vertex sequences of a sequence of polygons.
pub open spec fn poly_views(ps: Seq<DetectedPolygon>) -> Seq<Seq<PolyPoint>> {
    ps.map_values(|p: DetectedPolygon| p.points@)
}

/// The character sequences of a sequence of strings.
pub open spec fn text_views(ts: Seq<String>) -> Seq<Seq<char>> {
    ts.map_values(|t: String| t@)
}

/// Every vertex within `COORD_LIMIT` in both directions.
pub open spec fn polygon_in_range(ps: Seq<PolyPoint>) -> bool {
    forall|i: int|
        0 <= i < ps.len() ==> -COORD_LIMIT <= (#[trigger] ps[i]).x <= COORD_LIMIT
            && -COORD_LIMIT <= ps[i].y <= COORD_LIMIT
}

/// Smallest x coordinate over the vertices (unspecified on the empty
/// sequence, which extraction never reaches).
pub open spec fn min_x(ps: Seq<PolyPoint>) -> int
    decreases ps.len(),
{
    if ps.len() <= 1 {
        ps[0].x as int
    } else {
        let rest = min_x(ps.drop_last());
        if ps.last().x < rest {
            ps.last().x as int
        } else {
            rest
        }
    }
}

/// Largest x coordinate over the vertices.
pub open spec fn max_x(ps: Seq<PolyPoint>) -> int
    decreases ps.len(),
{
    if ps.len() <= 1 {
        ps[0].x as int
    } else {
        let rest = max_x(ps.drop_last());
        if ps.last().x > rest {
            ps.last().x as int
        } else {
            rest
        }
    }
}

/// Smallest y coordinate over the vertices.
pub open spec fn min_y(ps: Seq<PolyPoint>) -> int
    decreases ps.len(),
{
    if ps.len() <= 1 {
        ps[0].y as int
    } else {
        let rest = min_y(ps.drop_last());
        if ps.last().y < rest {
            ps.last().y as int
        } else {
            rest
        }
    }
}

/// Largest y coordinate over the vertices.
pub open spec fn max_y(ps: Seq<PolyPoint>) -> int
    decreases ps.len(),
{
    if ps.len() <= 1 {
        ps[0].y as int
    } else {
        let rest = max_y(ps.drop_last());
        if ps.last().y > rest {
            ps.last().y as int
        } else {
            rest
        }
    }
}

/// On an in-range polygon the four extremes are themselves in range, and
/// each minimum is at most the matching maximum.
pub proof fn lemma_extent_in_range(ps: Seq<PolyPoint>)
    requires
        ps.len() >= 1,
        polygon_in_range(ps),
    ensures
        -COORD_LIMIT <= min_x(ps) <= max_x(ps) <= COORD_LIMIT,
        -COORD_LIMIT <= min_y(ps) <= max_y(ps) <= COORD_LIMIT,
    decreases ps.len(),
{
    if ps.len() == 1 {
        assert(-COORD_LIMIT <= ps[0].x <= COORD_LIMIT);
        assert(-COORD_LIMIT <= ps[0].y <= COORD_LIMIT);
    } else {
        assert(polygon_in_range(ps.drop_last())) by {
            assert(forall|i: int| 0 <= i < ps.len() - 1 ==> ps.drop_last()[i] == ps[i]);
        }
        lemma_extent_in_range(ps.drop_last());
        assert(-COORD_LIMIT <= ps.last().x <= COORD_LIMIT);
        assert(-COORD_LIMIT <= ps.last().y <= COORD_LIMIT);
    }
}

/// Estimated display font size for a box of the given height: the height
/// scaled by 21/40 (the pixel-to-point heuristic 0.7 * 72 / 96, kept as a
/// tunable), clamped to `[FONT_SIZE_MIN, FONT_SIZE_MAX]`.
pub open spec fn font_size_spec(height: int) -> int {
    let raw = height * 21 / 40;
    if raw < FONT_SIZE_MIN {
        FONT_SIZE_MIN as int
    } else if raw > FONT_SIZE_MAX {
        FONT_SIZE_MAX as int
    } else {
        raw
    }
}

/// What extraction yields for one polygon and its aligned recognized
/// text: `None` for degenerate polygons (fewer than four vertices) and
/// for boxes smaller than `MIN_BOX_SIDE` in either direction; otherwise
/// the bounding box with its position clamped to be nonnegative.
pub open spec fn extract_spec(ps: Seq<PolyPoint>, text: Seq<char>) -> Option<TextBoxView> {
    if ps.len() < 4 {
        None
    } else {
        let w = max_x(ps) - min_x(ps);
        let h = max_y(ps) - min_y(ps);
        if w < MIN_BOX_SIDE || h < MIN_BOX_SIDE {
            None
        } else {
            Some(
                TextBoxView {
                    x: if min_x(ps) < 0 { 0 } else { min_x(ps) },
                    y: if min_y(ps) < 0 { 0 } else { min_y(ps) },
                    width: w,
                    height: h,
                    text: text,
                    font_size: font_size_spec(h),
                },
            )
        }
    }
}

/// A box satisfying the published invariants: nonnegative position, both
/// sides at least `MIN_BOX_SIDE`, and a font size inside the clamps.
pub open spec fn box_well_formed(b: TextBoxView) -> bool {
    b.x >= 0 && b.y >= 0 && b.width >= MIN_BOX_SIDE && b.height >= MIN_BOX_SIDE
        && FONT_SIZE_MIN <= b.font_size <= FONT_SIZE_MAX
}

/// A box whose coordinates are small enough for the downstream raster
/// arithmetic.
pub open spec fn box_in_range(b: TextBoxView) -> bool {
    0 <= b.x <= COORD_LIMIT && 0 <= b.y <= COORD_LIMIT && 0 <= b.width <= 2 * COORD_LIMIT && 0
        <= b.height <= 2 * COORD_LIMIT
}

/// Law: a polygon with fewer than four vertices yields no text box.
pub proof fn lemma_short_polygon_yields_nothing(ps: Seq<PolyPoint>, text: Seq<char>)
    requires
        ps.len() < 4,
    ensures
        extract_spec(ps, text) is None,
{
}

/// Law: every box that extraction emits has nonnegative position, both
/// sides at least `MIN_BOX_SIDE`, and a font size within the clamps; its
/// coordinates stay within range of the raster arithmetic.
pub proof fn lemma_extracted_box_well_formed(ps: Seq<PolyPoint>, text: Seq<char>)
    requires
        polygon_in_range(ps),
        extract_spec(ps, text) is Some,
    ensures
        extract_spec(ps, text) matches Some(b) ==> box_well_formed(b) && box_in_range(b),
{
    lemma_extent_in_range(ps);
}

/// Extracts one text box from a polygon and its recognized text, exactly
/// as `extract_spec` describes.
pub fn extract_text_box(poly: &DetectedPolygon, text: &str) -> (r: Option<TextBoxData>)
    requires
        polygon_in_range(poly.points@),
    ensures
        match r {
            Some(b) => extract_spec(poly.points@, text@) == Some(b@),
            None => extract_spec(poly.points@, text@) is None,
        },
{
    if poly.points.len() < 4 {
        return None;
    }
    let (x0, x1, y0, y1) = polygon_extent(&poly.points);
    proof {
        lemma_extent_in_range(poly.points@);
    }
    let width = x1 - x0;
    let height = y1 - y0;
    if width < MIN_BOX_SIDE || height < MIN_BOX_SIDE {
        return None;
    }
    let bx = if x0 < 0 { 0 } else { x0 };
    let by = if y0 < 0 { 0 } else { y0 };
    let font_size = font_size_for_height(height);
    Some(
        TextBoxData {
            x: bx,
            y: by,
            width,
            height,
            text: text.to_owned(),
            font_size,
        },
    )
}

/// Minima and maxima of the vertex coordinates: `(min x, max x, min y, max y)`.
fn polygon_extent(ps: &Vec<PolyPoint>) -> (e: (i64, i64, i64, i64))
    requires
        ps@.len() >= 1,
    ensures
        e.0 == min_x(ps@),
        e.1 == max_x(ps@),
        e.2 == min_y(ps@),
        e.3 == max_y(ps@),
{
    let mut x0: i64 = ps[0].x;
    let mut x1: i64 = ps[0].x;
    let mut y0: i64 = ps[0].y;
    let mut y1: i64 = ps[0].y;
    let n = ps.len();
    for i in 1..n
        invariant
            1 <= i <= n,
            n == ps@.len(),
            x0 == min_x(ps@.take(i as int)),
            x1 == max_x(ps@.take(i as int)),
            y0 == min_y(ps@.take(i as int)),
            y1 == max_y(ps@.take(i as int)),
    {
        proof {
            assert(ps@.take(i + 1).drop_last() =~= ps@.take(i as int));
            assert(ps@.take(i + 1).last() == ps@[i as int]);
        }
        let p = ps[i];
        if p.x < x0 {
            x0 = p.x;
        }
        if p.x > x1 {
            x1 = p.x;
        }
        if p.y < y0 {
            y0 = p.y;
        }
        if p.y > y1 {
            y1 = p.y;
        }
    }
    proof {
        assert(ps@.take(n as int) =~= ps@);
    }
    (x0, x1, y0, y1)
}

/// Estimated font size for a box height, per `font_size_spec`.
fn font_size_for_height(h: i64) -> (f: i64)
    requires
        0 <= h <= 2 * COORD_LIMIT,
    ensures
        f == font_size_spec(h as int),
{
    let raw_wide: u64 = (h as u64) * 21 / 40;
    let raw = raw_wide as i64;
    if raw < FONT_SIZE_MIN {
        FONT_SIZE_MIN
    } else if raw > FONT_SIZE_MAX {
        FONT_SIZE_MAX
    } else {
        raw
    }
}

/// What extraction yields for a whole detection response: polygon `i` is
/// paired with recognized text `i`, or with the empty string when the
/// detector returned fewer strings than polygons.
pub open spec fn extract_all_spec(polys: Seq<Seq<PolyPoint>>, texts: Seq<Seq<char>>) -> Seq<
    TextBoxView,
>
    decreases polys.len(),
{
    if polys.len() == 0 {
        Seq::empty()
    } else {
        let prefix = extract_all_spec(polys.drop_last(), texts);
        let i = polys.len() - 1;
        let t = if i < texts.len() {
            texts[i as int]
        } else {
            Seq::empty()
        };
        match extract_spec(polys.last(), t) {
            Some(b) => prefix.push(b),
            None => prefix,
        }
    }
}

/// Law: every box in an extracted batch is well formed and in range.
pub proof fn lemma_extract_all_well_formed(polys: Seq<Seq<PolyPoint>>, texts: Seq<Seq<char>>)
    requires
        forall|i: int| 0 <= i < polys.len() ==> polygon_in_range(#[trigger] polys[i]),
    ensures
        forall|j: int|
            0 <= j < extract_all_spec(polys, texts).len() ==> box_well_formed(
                #[trigger] extract_all_spec(polys, texts)[j],
            ) && box_in_range(extract_all_spec(polys, texts)[j]),
    decreases polys.len(),
{
    if polys.len() > 0 {
        lemma_extract_all_well_formed(polys.drop_last(), texts);
        let i = polys.len() - 1;
        let t = if i < texts.len() {
            texts[i as int]
        } else {
            Seq::empty()
        };
        let all = extract_all_spec(polys, texts);
        let prefix = extract_all_spec(polys.drop_last(), texts);
        match extract_spec(polys.last(), t) {
            Some(b) => {
                lemma_extracted_box_well_formed(polys.last(), t);
                assert(all == prefix.push(b));
                assert forall|j: int| 0 <= j < all.len() implies box_well_formed(
                    #[trigger] all[j],
                ) && box_in_range(all[j]) by {
                    if j < prefix.len() {
                        assert(all[j] == prefix[j]);
                    } else {
                        assert(all[j] == b);
                    }
                }
            },
            None => {
                assert(all == prefix);
            },
        }
    }
}

/// Extracts the text boxes of a whole detection response, exactly as
/// `extract_all_spec` describes. Polygons and recognized strings are
/// aligned by index; a missing string becomes the empty string, never an
/// error.
pub fn extract_text_boxes(polys: &Vec<DetectedPolygon>, texts: &Vec<String>) -> (r: Vec<
    TextBoxData,
>)
    requires
        forall|i: int|
            0 <= i < polys@.len() ==> polygon_in_range((#[trigger] polys@[i]).points@),
    ensures
        views_of(r@) == extract_all_spec(poly_views(polys@), text_views(texts@)),
{
    let mut out: Vec<TextBoxData> = Vec::new();
    let n = polys.len();
    for i in 0..n
        invariant
            n == polys@.len(),
            forall|k: int|
                0 <= k < polys@.len() ==> polygon_in_range((#[trigger] polys@[k]).points@),
            views_of(out@) == extract_all_spec(
                poly_views(polys@).take(i as int),
                text_views(texts@),
            ),
    {
        let t: &str = if i < texts.len() {
            texts[i].as_str()
        } else {
            ""
        };
        proof {
            reveal_strlit("");
            assert(t@ == if (i as int) < texts@.len() {
                text_views(texts@)[i as int]
            } else {
                Seq::<char>::empty()
            });
        }
        let b = extract_text_box(&polys[i], t);
        proof {
            assert(poly_views(polys@).take(i + 1).drop_last() =~= poly_views(polys@).take(
                i as int,
            ));
            assert(poly_views(polys@).take(i + 1).last() == polys@[i as int].points@);
        }
        match b {
            Some(bd) => {
                out.push(bd);
                proof {
                    assert(views_of(out@) =~= extract_all_spec(
                        poly_views(polys@).take(i + 1),
                        text_views(texts@),
                    ));
                }
            },
            None => {
                proof {
                    assert(views_of(out@) =~= extract_all_spec(
                        poly_views(polys@).take(i + 1),
                        text_views(texts@),
                    ));
                }
            },
        }
    }
    proof {
        assert(poly_views(polys@).take(n as int) =~= poly_views(polys@));
    }
    out
}

} // verus!
