//! The erase mask: a single-channel raster, the size of the source
//! image, with 255 over every padded text rectangle and 0 everywhere
//! else.
//!
//! The raster is row-major: pixel `(px, py)` sits at index
//! `py * width + px`. Overlapping rectangles simply merge: a pixel is
//! 255 exactly when some box's padded rectangle covers it, so painting a
//! region twice changes nothing.

use vstd::prelude::*;
use vstd::pervasive::VecAdditionalExecFns;
use vstd::arithmetic::div_mod::lemma_fundamental_div_mod;
use vstd::arithmetic::div_mod::lemma_fundamental_div_mod_converse;
use vstd::arithmetic::div_mod::lemma_mod_bound;
use crate::geometry::COORD_LIMIT;
use crate::geometry::SUBPIXEL;
use crate::geometry::TextBoxData;
use crate::geometry::TextBoxView;
use crate::geometry::box_in_range;
use crate::geometry::views_of;

verus! {

/// The whole pixel nearest a subpixel coordinate (half rounds up).
pub open spec fn round_px(v: int) -> int {
    (v + SUBPIXEL / 2) / (SUBPIXEL as int)
}

/// Left edge of the padded rectangle of a box, clamped at 0.
pub open spec fn rect_x1(b: TextBoxView, padding: u32) -> int {
    let v = round_px(b.x) - padding;
    if v < 0 {
        0
    } else {
        v
    }
}

/// Top edge of the padded rectangle of a box, clamped at 0.
pub open spec fn rect_y1(b: TextBoxView, padding: u32) -> int {
    let v = round_px(b.y) - padding;
    if v < 0 {
        0
    } else {
        v
    }
}

/// Right edge (exclusive) of the padded rectangle, clamped at the image
/// width.
pub open spec fn rect_x2(b: TextBoxView, padding: u32, width: u32) -> int {
    let v = round_px(b.x + b.width) + padding;
    if v > width {
        width as int
    } else {
        v
    }
}

/// Bottom edge (exclusive) of the padded rectangle, clamped at the image
/// height.
pub open spec fn rect_y2(b: TextBoxView, padding: u32, height: u32) -> int {
    let v = round_px(b.y + b.height) + padding;
    if v > height {
        height as int
    } else {
        v
    }
}

/// Whether the padded rectangle of box `b` covers pixel `(px, py)`.
pub open spec fn box_covers(
    b: TextBoxView,
    padding: u32,
    width: u32,
    height: u32,
    px: int,
    py: int,
) -> bool {
    rect_x1(b, padding) <= px < rect_x2(b, padding, width) && rect_y1(b, padding) <= py < rect_y2(
        b,
        padding,
        height,
    )
}

/// Whether any box in the list covers pixel `(px, py)`.
pub open spec fn covered(
    boxes: Seq<TextBoxView>,
    padding: u32,
    width: u32,
    height: u32,
    px: int,
    py: int,
) -> bool {
    exists|i: int|
        0 <= i < boxes.len() && box_covers(#[trigger] boxes[i], padding, width, height, px, py)
}

/// The value of one mask pixel: 255 under some padded rectangle, 0
/// everywhere else.
pub open spec fn mask_pixel(
    boxes: Seq<TextBoxView>,
    padding: u32,
    width: u32,
    height: u32,
    px: int,
    py: int,
) -> u8 {
    if covered(boxes, padding, width, height, px, py) {
        255u8
    } else {
        0u8
    }
}

/// The whole mask as a row-major byte sequence.
pub open spec fn mask_spec(width: u32, height: u32, boxes: Seq<TextBoxView>, padding: u32) -> Seq<
    u8,
> {
    Seq::new(
        (width * height) as nat,
        |idx: int|
            mask_pixel(boxes, padding, width, height, idx % (width as int), idx / (width as int)),
    )
}

/// Taking one more box covers a pixel exactly when the shorter list did
/// or the new box does.
pub proof fn lemma_covered_take_step(
    boxes: Seq<TextBoxView>,
    k: int,
    padding: u32,
    width: u32,
    height: u32,
    px: int,
    py: int,
)
    requires
        0 <= k < boxes.len(),
    ensures
        covered(boxes.take(k + 1), padding, width, height, px, py) <==> covered(
            boxes.take(k),
            padding,
            width,
            height,
            px,
            py,
        ) || box_covers(boxes[k], padding, width, height, px, py),
{
    let long = boxes.take(k + 1);
    let short = boxes.take(k);
    if covered(long, padding, width, height, px, py) {
        let i = choose|i: int|
            0 <= i < long.len() && box_covers(#[trigger] long[i], padding, width, height, px, py);
        if i < k {
            assert(short[i] == long[i]);
        } else {
            assert(long[i] == boxes[k]);
        }
    }
    if covered(short, padding, width, height, px, py) {
        let i = choose|i: int|
            0 <= i < short.len() && box_covers(#[trigger] short[i], padding, width, height, px, py);
        assert(long[i] == short[i]);
    }
    if box_covers(boxes[k], padding, width, height, px, py) {
        assert(long[k] == boxes[k]);
    }
}

/// Law: concatenating two box lists paints the union of what each list
/// paints.
pub proof fn lemma_covered_concat(
    a: Seq<TextBoxView>,
    b: Seq<TextBoxView>,
    padding: u32,
    width: u32,
    height: u32,
    px: int,
    py: int,
)
    ensures
        covered(a + b, padding, width, height, px, py) <==> covered(
            a,
            padding,
            width,
            height,
            px,
            py,
        ) || covered(b, padding, width, height, px, py),
{
    let all = a + b;
    if covered(all, padding, width, height, px, py) {
        let i = choose|i: int|
            0 <= i < all.len() && box_covers(#[trigger] all[i], padding, width, height, px, py);
        if i < a.len() {
            assert(a[i] == all[i]);
        } else {
            assert(b[i - a.len()] == all[i]);
        }
    }
    if covered(a, padding, width, height, px, py) {
        let i = choose|i: int|
            0 <= i < a.len() && box_covers(#[trigger] a[i], padding, width, height, px, py);
        assert(all[i] == a[i]);
    }
    if covered(b, padding, width, height, px, py) {
        let i = choose|i: int|
            0 <= i < b.len() && box_covers(#[trigger] b[i], padding, width, height, px, py);
        assert(all[i + a.len()] == b[i]);
    }
}

/// Law: the mask depends on the boxes only through the pixels they
/// cover. Two box lists covering the same pixels — for instance two
/// overlapping boxes and their geometric union — rasterize to identical
/// bytes.
pub proof fn lemma_mask_coverage_only(
    width: u32,
    height: u32,
    a: Seq<TextBoxView>,
    b: Seq<TextBoxView>,
    padding: u32,
)
    requires
        forall|px: int, py: int|
            0 <= px < width && 0 <= py < height ==> (covered(a, padding, width, height, px, py)
                <==> covered(b, padding, width, height, px, py)),
    ensures
        mask_spec(width, height, a, padding) == mask_spec(width, height, b, padding),
{
    let ma = mask_spec(width, height, a, padding);
    let mb = mask_spec(width, height, b, padding);
    assert forall|idx: int| 0 <= idx < ma.len() implies ma[idx] == mb[idx] by {
        let w = width as int;
        lemma_fundamental_div_mod(idx, w);
        lemma_mod_bound(idx, w);
        let px = idx % w;
        let py = idx / w;
        assert(0 <= py < height) by (nonlinear_arith)
            requires
                0 <= idx < w * height,
                idx == w * py + px,
                0 <= px < w,
        ;
    }
    assert(ma =~= mb);
}

/// Law: the mask always has exactly the source image's dimensions, and
/// a pixel is 255 under some padded box and 0 everywhere else — stated
/// of `mask_spec` itself, for every size, box list and padding.
pub proof fn lemma_mask_spec_shape(width: u32, height: u32, boxes: Seq<TextBoxView>, padding: u32)
    ensures
        mask_spec(width, height, boxes, padding).len() == width * height,
        forall|px: int, py: int|
            0 <= px < width && 0 <= py < height ==> mask_spec(width, height, boxes, padding)[py
                * width + px] == #[trigger] mask_pixel(boxes, padding, width, height, px, py),
{
    let ms = mask_spec(width, height, boxes, padding);
    assert forall|px: int, py: int|
        0 <= px < width && 0 <= py < height implies ms[py * width + px] == #[trigger] mask_pixel(
        boxes,
        padding,
        width,
        height,
        px,
        py,
    ) by {
        lemma_index_bound(px, py, width as int, height as int);
        let idx = py * (width as int) + px;
        lemma_fundamental_div_mod_converse(idx, width as int, py, px);
        assert(ms[idx] == mask_pixel(boxes, padding, width, height, px, py));
    }
}

/// A pixel inside the image has an index inside the raster.
proof fn lemma_index_bound(px: int, py: int, width: int, height: int)
    requires
        0 <= px < width,
        0 <= py < height,
    ensures
        0 <= py * width + px < width * height,
{
    assert(0 <= py * width + px < width * height) by (nonlinear_arith)
        requires
            0 <= px < width,
            0 <= py < height,
    ;
}

/// Distinct pixels of the image have distinct raster indices.
proof fn lemma_index_injective(width: int, ax: int, ay: int, bx: int, qy: int)
    requires
        0 <= ax < width,
        0 <= bx < width,
        ay * width + ax == qy * width + bx,
    ensures
        ax == bx,
        ay == qy,
{
    assert(ax == bx && ay == qy) by (nonlinear_arith)
        requires
            0 <= ax < width,
            0 <= bx < width,
            ay * width + ax == qy * width + bx,
    ;
}


/// The byte of raster `m` at pixel `(qx, qy)` in row-major order.
pub open spec fn pix(m: Seq<u8>, width: u32, qx: int, qy: int) -> u8 {
    m[qy * width + qx]
}

/// The whole pixel nearest a subpixel coordinate.
fn round_to_pixel(v: i64) -> (r: i64)
    requires
        0 <= v <= 3 * COORD_LIMIT,
    ensures
        r == round_px(v as int),
        0 <= r,
{
    (((v as u64) + (SUBPIXEL as u64) / 2) / (SUBPIXEL as u64)) as i64
}

/// Sets every raster byte in `[x1, x2) x [y1, y2)` to 255 and leaves the
/// rest unchanged.
#[verifier::loop_isolation(false)]
fn paint_rect(m: &mut Vec<u8>, width: u32, height: u32, x1: usize, y1: usize, x2: usize, y2: usize)
    requires
        old(m)@.len() == width * height,
        width * height <= usize::MAX,
        x1 <= x2 <= width,
        y1 <= y2 <= height,
    ensures
        final(m)@.len() == width * height,
        forall|qx: int, qy: int|
            0 <= qx < width && 0 <= qy < height ==> #[trigger] pix(final(m)@, width, qx, qy) == (
            if x1 <= qx < x2 && y1 <= qy < y2 {
                255u8
            } else {
                pix(old(m)@, width, qx, qy)
            }),
{
    let ghost m0 = m@;
    let mut py: usize = y1;
    while py < y2
        invariant
            y1 <= py <= y2,
            m@.len() == width * height,
            forall|qx: int, qy: int|
                0 <= qx < width && 0 <= qy < height ==> #[trigger] pix(m@, width, qx, qy) == (if x1
                    <= qx < x2 && y1 <= qy < py {
                    255u8
                } else {
                    pix(m0, width, qx, qy)
                }),
        decreases y2 - py,
    {
        let mut px: usize = x1;
        while px < x2
            invariant
                x1 <= px <= x2,
                y1 <= py < y2,
                m@.len() == width * height,
                forall|qx: int, qy: int|
                    0 <= qx < width && 0 <= qy < height ==> #[trigger] pix(m@, width, qx, qy) == (
                    if (x1 <= qx < x2 && y1 <= qy < py) || (qy == py && x1 <= qx < px) {
                        255u8
                    } else {
                        pix(m0, width, qx, qy)
                    }),
            decreases x2 - px,
        {
            proof {
                lemma_index_bound(px as int, py as int, width as int, height as int);
            }
            let ghost mp = m@;
            let idx: usize = py * (width as usize) + px;
            m.set(idx, 255u8);
            proof {
                assert forall|qx: int, qy: int|
                    0 <= qx < width && 0 <= qy < height implies #[trigger] pix(m@, width, qx, qy)
                    == (if (x1 <= qx < x2 && y1 <= qy < py) || (qy == py && x1 <= qx < px + 1) {
                    255u8
                } else {
                    pix(m0, width, qx, qy)
                }) by {
                    assert(pix(mp, width, qx, qy) == (if (x1 <= qx < x2 && y1 <= qy < py) || (qy
                        == py && x1 <= qx < px) {
                        255u8
                    } else {
                        pix(m0, width, qx, qy)
                    }));
                    lemma_index_bound(qx, qy, width as int, height as int);
                    if qy * width + qx == py * width + px {
                        lemma_index_injective(width as int, qx, qy, px as int, py as int);
                    }
                }
            }
            px = px + 1;
        }
        py = py + 1;
    }
}

/// Renders the erase mask: a raster of exactly `width * height` bytes in
/// which a pixel is 255 exactly when some box's padded rectangle covers
/// it, and 0 everywhere else — pixels outside every padded box always
/// stay 0.
#[verifier::loop_isolation(false)]
pub fn rasterize_mask(width: u32, height: u32, boxes: &Vec<TextBoxData>, padding: u32) -> (m: Vec<
    u8,
>)
    requires
        width * height <= usize::MAX,
        forall|i: int| 0 <= i < boxes@.len() ==> box_in_range((#[trigger] boxes@[i])@),
    ensures
        m@.len() == width * height,
        forall|px: int, py: int|
            0 <= px < width && 0 <= py < height ==> m@[py * width + px] == mask_pixel(
                views_of(boxes@),
                padding,
                width,
                height,
                px,
                py,
            ),
        m@ == mask_spec(width, height, views_of(boxes@), padding),
{
    let ghost bviews = views_of(boxes@);
    let total: usize = (width as usize) * (height as usize);
    let mut m: Vec<u8> = Vec::new();
    while m.len() < total
        invariant
            m@.len() <= total,
            forall|j: int| 0 <= j < m@.len() ==> m@[j] == 0u8,
        decreases total - m@.len(),
    {
        m.push(0u8);
    }
    proof {
        assert forall|qx: int, qy: int|
            0 <= qx < width && 0 <= qy < height implies #[trigger] pix(m@, width, qx, qy)
            == mask_pixel(bviews.take(0), padding, width, height, qx, qy) by {
            lemma_index_bound(qx, qy, width as int, height as int);
        }
    }
    let n = boxes.len();
    let mut k: usize = 0;
    while k < n
        invariant
            0 <= k <= n,
            m@.len() == width * height,
            forall|qx: int, qy: int|
                0 <= qx < width && 0 <= qy < height ==> #[trigger] pix(m@, width, qx, qy)
                    == mask_pixel(bviews.take(k as int), padding, width, height, qx, qy),
        decreases n - k,
    {
        let b = &boxes[k];
        let ghost bk = boxes@[k as int]@;
        proof {
            assert(bviews[k as int] == bk);
        }
        let rx = round_to_pixel(b.x);
        let mut x1v: i64 = rx - (padding as i64);
        if x1v < 0 {
            x1v = 0;
        }
        let ry = round_to_pixel(b.y);
        let mut y1v: i64 = ry - (padding as i64);
        if y1v < 0 {
            y1v = 0;
        }
        let mut x2v: i64 = round_to_pixel(b.x + b.width) + (padding as i64);
        if x2v > width as i64 {
            x2v = width as i64;
        }
        let mut y2v: i64 = round_to_pixel(b.y + b.height) + (padding as i64);
        if y2v > height as i64 {
            y2v = height as i64;
        }
        proof {
            assert(x1v == rect_x1(bk, padding));
            assert(y1v == rect_y1(bk, padding));
            assert(x2v == rect_x2(bk, padding, width));
            assert(y2v == rect_y2(bk, padding, height));
        }
        if x1v < x2v && y1v < y2v {
            let x1u: usize = x1v as usize;
            let x2u: usize = x2v as usize;
            let y1u: usize = y1v as usize;
            let y2u: usize = y2v as usize;
            let ghost mb = m@;
            paint_rect(&mut m, width, height, x1u, y1u, x2u, y2u);
            proof {
                assert forall|qx: int, qy: int|
                    0 <= qx < width && 0 <= qy < height implies #[trigger] pix(m@, width, qx, qy)
                    == mask_pixel(bviews.take(k as int + 1), padding, width, height, qx, qy) by {
                    lemma_covered_take_step(bviews, k as int, padding, width, height, qx, qy);
                    assert(pix(mb, width, qx, qy) == mask_pixel(
                        bviews.take(k as int),
                        padding,
                        width,
                        height,
                        qx,
                        qy,
                    ));
                    assert(box_covers(bk, padding, width, height, qx, qy) <==> (x1u <= qx < x2u
                        && y1u <= qy < y2u));
                }
            }
        } else {
            proof {
                assert forall|qx: int, qy: int|
                    0 <= qx < width && 0 <= qy < height implies #[trigger] pix(m@, width, qx, qy)
                    == mask_pixel(bviews.take(k as int + 1), padding, width, height, qx, qy) by {
                    lemma_covered_take_step(bviews, k as int, padding, width, height, qx, qy);
                    assert(!box_covers(bk, padding, width, height, qx, qy));
                    assert(pix(m@, width, qx, qy) == mask_pixel(
                        bviews.take(k as int),
                        padding,
                        width,
                        height,
                        qx,
                        qy,
                    ));
                }
            }
        }
        k = k + 1;
    }
    proof {
        assert(bviews.take(n as int) =~= bviews);
        assert forall|px: int, py: int|
            0 <= px < width && 0 <= py < height implies m@[py * width + px] == mask_pixel(
            bviews,
            padding,
            width,
            height,
            px,
            py,
        ) by {
            assert(pix(m@, width, px, py) == mask_pixel(
                bviews.take(n as int),
                padding,
                width,
                height,
                px,
                py,
            ));
        }
        let ms = mask_spec(width, height, bviews, padding);
        assert forall|idx: int| 0 <= idx < m@.len() implies m@[idx] == ms[idx] by {
            let w = width as int;
            assert(w > 0) by (nonlinear_arith)
                requires
                    0 <= idx < w * (height as int),
            ;
            lemma_fundamental_div_mod(idx, w);
            lemma_mod_bound(idx, w);
            let px = idx % w;
            let py = idx / w;
            assert(0 <= py < height) by (nonlinear_arith)
                requires
                    0 <= idx < w * height,
                    idx == w * py + px,
                    0 <= px < w,
            ;
            assert(m@[py * w + px] == mask_pixel(bviews, padding, width, height, px, py));
        }
        assert(m@ =~= ms);
    }
    m
}

} // verus!
