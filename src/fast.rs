use vstd::prelude::*;

use crate::common::{Matchable, OrbError, Point};
use crate::raster::GrayscaleImage;

verus! {

/// Which discretised circle the corner test samples.
#[allow(non_camel_case_types)]
#[derive(Debug, Clone, Copy, PartialEq, Eq, Structural)]
pub enum FastType {
    /// Twelve positions at radius 2; nine must differ from the centre.
    TYPE_7_12,
    /// Sixteen positions at radius 3; twelve must differ from the centre.
    TYPE_9_16,
}

/// The number of circle positions in the cheap first pass of the corner test.
pub const FAST_CHECKS: usize = 4;

/// The fixed tables of one circle variant.
pub struct FastContext {
    /// Circle positions relative to the centre, in clockwise order from the top.
    pub offsets: Vec<Point>,
    /// The order in which the positions are tested: the first `FAST_CHECKS`
    /// entries are a quarter circle apart, the rest follow.
    pub idx: Vec<usize>,
    /// The largest absolute offset coordinate.
    pub radius: u32,
    /// How many positions must differ from the centre.
    pub n: u32,
}

/// A circle offset written with mathematical integers.
pub open spec fn pt(x: int, y: int) -> Point {
    (x as i32, y as i32)
}

impl FastType {
    /// The circle positions around the centre, clockwise from the top.
    #[verifier::opaque]
    pub open spec fn spec_offsets(self) -> Seq<Point> {
        match self {
            FastType::TYPE_7_12 => seq![
                pt(0, -2), pt(1, -2), pt(2, -1), pt(2, 0), pt(2, 1), pt(1, 2),
                pt(0, 2), pt(-1, 2), pt(-2, 1), pt(-2, 0), pt(-2, -1), pt(-1, -2),
            ],
            FastType::TYPE_9_16 => seq![
                pt(0, -3), pt(1, -3), pt(2, -2), pt(3, -1), pt(3, 0), pt(3, 1), pt(2, 2), pt(1, 3),
                pt(0, 3), pt(-1, 3), pt(-2, 2), pt(-3, 1), pt(-3, 0), pt(-3, -1), pt(-2, -2), pt(-1, -3),
            ],
        }
    }

    /// The order in which the corner test visits the positions; the first
    /// `FAST_CHECKS` are a quarter circle apart.
    #[verifier::opaque]
    pub open spec fn spec_order(self) -> Seq<usize> {
        match self {
            FastType::TYPE_7_12 => seq![0usize, 6, 3, 9, 1, 2, 4, 5, 7, 8, 10, 11],
            FastType::TYPE_9_16 => seq![0usize, 8, 4, 12, 1, 2, 3, 5, 6, 7, 9, 10, 11, 13, 14, 15],
        }
    }

    /// The largest absolute offset coordinate.
    pub open spec fn spec_radius(self) -> u32 {
        match self {
            FastType::TYPE_7_12 => 2,
            FastType::TYPE_9_16 => 3,
        }
    }

    /// How many positions must differ from the centre.
    pub open spec fn spec_n(self) -> u32 {
        match self {
            FastType::TYPE_7_12 => 9,
            FastType::TYPE_9_16 => 12,
        }
    }

    /// The tables of this variant.
    pub fn get_context(&self) -> (ctx: FastContext)
        ensures
            ctx.offsets@ == self.spec_offsets(),
            ctx.idx@ == self.spec_order(),
            ctx.radius == self.spec_radius(),
            ctx.n == self.spec_n(),
    {
        proof {
            reveal(FastType::spec_offsets);
            reveal(FastType::spec_order);
        }
        match self {
            FastType::TYPE_7_12 => FastContext {
                offsets: vec![
                    (0, -2), (1, -2), (2, -1), (2, 0), (2, 1), (1, 2),
                    (0, 2), (-1, 2), (-2, 1), (-2, 0), (-2, -1), (-1, -2),
                ],
                idx: vec![0, 6, 3, 9, 1, 2, 4, 5, 7, 8, 10, 11],
                radius: 2,
                n: 9,
            },
            FastType::TYPE_9_16 => FastContext {
                offsets: vec![
                    (0, -3), (1, -3), (2, -2), (3, -1), (3, 0), (3, 1), (2, 2), (1, 3),
                    (0, 3), (-1, 3), (-2, 2), (-3, 1), (-3, 0), (-3, -1), (-2, -2), (-1, -3),
                ],
                idx: vec![0, 8, 4, 12, 1, 2, 3, 5, 6, 7, 9, 10, 11, 13, 14, 15],
                radius: 3,
                n: 12,
            },
        }
    }
}

/// The tables of each variant are consistent: the test order is a
/// permutation of the circle positions, every offset lies within the radius,
/// and the radius is reached.
pub proof fn lemma_context_wf(ft: FastType)
    ensures
        ft.spec_offsets().len() == ft.spec_order().len(),
        ft.spec_offsets().len() <= 16,
        FAST_CHECKS < ft.spec_offsets().len(),
        ft.spec_n() <= ft.spec_offsets().len(),
        1 <= ft.spec_offsets().len() - ft.spec_n(),
        forall|k: int| 0 <= k < ft.spec_order().len() ==> ft.spec_order()[k] < ft.spec_offsets().len(),
        forall|k: int, l: int|
            0 <= k < l < ft.spec_order().len() ==> ft.spec_order()[k] != ft.spec_order()[l],
        forall|k: int|
            0 <= k < ft.spec_offsets().len() ==> -ft.spec_radius() <= #[trigger] ft.spec_offsets()[k].0
                <= ft.spec_radius() && -ft.spec_radius() <= ft.spec_offsets()[k].1 <= ft.spec_radius(),
        exists|k: int| 0 <= k < ft.spec_offsets().len() && ft.spec_offsets()[k].1 == -ft.spec_radius(),
{
    reveal(FastType::spec_offsets);
    reveal(FastType::spec_order);
    let o = ft.spec_offsets();
    assert(o[0].1 == -ft.spec_radius());
}

pub open spec fn abs(v: int) -> int {
    if v < 0 {
        -v
    } else {
        v
    }
}

/// Intensity at the `k`-th tested circle position around `(x, y)`.
pub open spec fn ring_at(img: GrayscaleImage, ft: FastType, x: int, y: int, k: int) -> int {
    let o = ft.spec_offsets()[ft.spec_order()[k] as int];
    img.at(x + o.0, y + o.1)
}

/// How far the `k`-th tested circle position differs from the centre.
pub open spec fn ring_diff(img: GrayscaleImage, ft: FastType, x: int, y: int, k: int) -> int {
    abs(ring_at(img, ft, x, y, k) - img.at(x, y))
}

/// How many of the first `k` tested positions are similar to the centre,
/// that is differ from it by less than `threshold`.
pub open spec fn similar_count(
    img: GrayscaleImage,
    ft: FastType,
    threshold: int,
    x: int,
    y: int,
    k: int,
) -> int
    decreases k,
{
    if k <= 0 {
        0
    } else {
        similar_count(img, ft, threshold, x, y, k - 1) + if ring_diff(img, ft, x, y, k - 1)
            < threshold {
            1int
        } else {
            0int
        }
    }
}

/// The summed differences of those of the first `k` tested positions that
/// are not similar to the centre.
pub open spec fn dissimilar_sum(
    img: GrayscaleImage,
    ft: FastType,
    threshold: int,
    x: int,
    y: int,
    k: int,
) -> int
    decreases k,
{
    if k <= 0 {
        0
    } else {
        dissimilar_sum(img, ft, threshold, x, y, k - 1) + if ring_diff(img, ft, x, y, k - 1)
            < threshold {
            0int
        } else {
            ring_diff(img, ft, x, y, k - 1)
        }
    }
}

/// `(x, y)` is a corner: at most one of the quarter-circle positions is
/// similar to the centre, and at most `len - n` of all positions are.
pub open spec fn is_corner(img: GrayscaleImage, ft: FastType, threshold: int, x: int, y: int) -> bool {
    let len = ft.spec_offsets().len() as int;
    &&& similar_count(img, ft, threshold, x, y, FAST_CHECKS as int) < 2
    &&& similar_count(img, ft, threshold, x, y, len) <= len - ft.spec_n()
}

/// The strength of the corner at `(x, y)`: the summed differences of the
/// positions that are not similar to the centre.
pub open spec fn corner_strength(
    img: GrayscaleImage,
    ft: FastType,
    threshold: int,
    x: int,
    y: int,
) -> int {
    dissimilar_sum(img, ft, threshold, x, y, ft.spec_offsets().len() as int)
}

proof fn lemma_similar_count_monotone(
    img: GrayscaleImage,
    ft: FastType,
    threshold: int,
    x: int,
    y: int,
    j: int,
    k: int,
)
    requires
        j <= k,
    ensures
        similar_count(img, ft, threshold, x, y, j) <= similar_count(img, ft, threshold, x, y, k),
    decreases k - j,
{
    if j < k {
        lemma_similar_count_monotone(img, ft, threshold, x, y, j, k - 1);
    }
}

/// Runs the corner test at `(x, y)` in the context's order, giving up as soon
/// as too many positions are similar to the centre.
fn corner_score(
    img: &GrayscaleImage,
    ft: FastType,
    ctx: &FastContext,
    threshold: i32,
    x: u32,
    y: u32,
) -> (r: Option<i32>)
    requires
        img.wf(),
        ctx.offsets@ == ft.spec_offsets(),
        ctx.idx@ == ft.spec_order(),
        ctx.radius == ft.spec_radius(),
        ctx.n == ft.spec_n(),
        ctx.radius <= x < img.spec_width() - ctx.radius,
        ctx.radius <= y < img.spec_height() - ctx.radius,
    ensures
        r.is_some() <==> is_corner(*img, ft, threshold as int, x as int, y as int),
        r matches Some(s) ==> s == corner_strength(*img, ft, threshold as int, x as int, y as int),
{
    proof {
        lemma_context_wf(ft);
    }
    let ghost g = *img;
    let center = img.get_pixel(x, y) as i32;
    let len = ctx.offsets.len();
    let max_misses: usize = len - ctx.n as usize;
    let mut score: i32 = 0;
    let mut similars: usize = 0;
    let mut step: usize = 0;
    while step < len
        invariant
            img.wf(),
            g == *img,
            ctx.offsets@ == ft.spec_offsets(),
            ctx.idx@ == ft.spec_order(),
            ctx.radius == ft.spec_radius(),
            ctx.n == ft.spec_n(),
            ctx.radius <= x < img.spec_width() - ctx.radius,
            ctx.radius <= y < img.spec_height() - ctx.radius,
            len == ctx.offsets@.len(),
            max_misses == len - ctx.n,
            center == img.at(x as int, y as int),
            step <= len,
            similars == similar_count(g, ft, threshold as int, x as int, y as int, step as int),
            score == dissimilar_sum(g, ft, threshold as int, x as int, y as int, step as int),
            0 <= score <= 255 * step,
            similars <= step,
            forall|s: int|
                0 <= s < step ==> #[trigger] similar_count(
                    g,
                    ft,
                    threshold as int,
                    x as int,
                    y as int,
                    s + 1,
                ) <= if s < FAST_CHECKS {
                    1
                } else {
                    max_misses as int
                },
        decreases len - step,
    {
        proof {
            lemma_context_wf(ft);
        }
        let k = ctx.idx[step];
        let (dx, dy) = ctx.offsets[k];
        let sx = (x as i32 + dx) as u32;
        let sy = (y as i32 + dy) as u32;
        assert(0 <= k < len);
        assert(-(ctx.radius as int) <= dx <= ctx.radius && -(ctx.radius as int) <= dy <= ctx.radius);
        let px = img.get_pixel(sx, sy) as i32;
        let diff = if px < center {
            center - px
        } else {
            px - center
        };
        assert(diff == ring_diff(g, ft, x as int, y as int, step as int));
        assert(diff <= 255);
        if diff < threshold {
            similars = similars + 1;
            let limit = if step < FAST_CHECKS {
                1
            } else {
                max_misses
            };
            if similars > limit {
                proof {
                    let t = threshold as int;
                    if step < FAST_CHECKS {
                        lemma_similar_count_monotone(g, ft, t, x as int, y as int, step + 1, FAST_CHECKS as int);
                    } else {
                        lemma_similar_count_monotone(g, ft, t, x as int, y as int, step + 1, len as int);
                    }
                }
                return None;
            }
        } else {
            proof {
                if step > 0 {
                    let prev = step as int - 1;
                    assert(similar_count(g, ft, threshold as int, x as int, y as int, prev + 1) <= if prev
                        < FAST_CHECKS {
                        1
                    } else {
                        max_misses as int
                    });
                }
            }
            score = score + diff;
        }
        assert(similar_count(g, ft, threshold as int, x as int, y as int, step as int + 1) <= if step
            < FAST_CHECKS {
            1
        } else {
            max_misses as int
        });
        step = step + 1;
    }
    proof {
        assert(similar_count(g, ft, threshold as int, x as int, y as int, (FAST_CHECKS - 1) + 1) <= 1);
        assert(similar_count(g, ft, threshold as int, x as int, y as int, (len - 1) + 1) <= max_misses);
    }
    Some(score)
}

/// Intensity moments of the square patch around a keypoint, and the
/// orientation that they give it.
#[derive(Debug, Clone, Copy)]
pub struct Moment {
    /// The keypoint the patch is centred on.
    pub centroid: Point,
    /// The intensity centroid of the patch, rounded to the nearest pixel; the
    /// keypoint itself where the patch leaves the image or is all black.
    pub moment: Point,
    /// Sum of the patch's intensities (0 where the patch is unusable).
    pub m00: u128,
    /// Sum of the intensities weighted by their column.
    pub m10: u128,
    /// Sum of the intensities weighted by their row.
    pub m01: u128,
    /// Orientation of the keypoint in whole degrees; 0 until it is measured
    /// from the moments.
    pub rotation: i32,
}

/// Half the side of the patch whose moments orient a keypoint, unless one is given.
pub const DEFAULT_MOMENT_RADIUS: u32 = 5;

pub open spec fn moment_radius_of(radius: Option<u32>) -> int {
    match radius {
        Some(r) => r as int,
        None => DEFAULT_MOMENT_RADIUS as int,
    }
}

/// The weight of the pixel at `(mx, my)` in the moment of order
/// `(x_moment, y_moment)`: 1, its column or its row.
pub open spec fn moment_weight(x_moment: int, y_moment: int, mx: int, my: int) -> int {
    if x_moment == 0 && y_moment == 0 {
        1
    } else if x_moment == 0 && y_moment == 1 {
        my
    } else if x_moment == 1 && y_moment == 0 {
        mx
    } else {
        0
    }
}

/// Weighted intensities of row `my` over the columns `x0 .. x1`.
pub open spec fn row_moment(
    img: GrayscaleImage,
    x_moment: int,
    y_moment: int,
    x0: int,
    x1: int,
    my: int,
) -> int
    decreases x1 - x0,
{
    if x1 <= x0 {
        0
    } else {
        row_moment(img, x_moment, y_moment, x0, x1 - 1, my) + moment_weight(
            x_moment,
            y_moment,
            x1 - 1,
            my,
        ) * img.at(x1 - 1, my)
    }
}

/// Weighted intensities of the rectangle `x0 .. x1` by `y0 .. y1`.
pub open spec fn window_moment(
    img: GrayscaleImage,
    x_moment: int,
    y_moment: int,
    x0: int,
    x1: int,
    y0: int,
    y1: int,
) -> int
    decreases y1 - y0,
{
    if y1 <= y0 {
        0
    } else {
        window_moment(img, x_moment, y_moment, x0, x1, y0, y1 - 1) + row_moment(
            img,
            x_moment,
            y_moment,
            x0,
            x1,
            y1 - 1,
        )
    }
}

/// The square of half-side `r` around `(x, y)` lies inside the image.
pub open spec fn window_fits(img: GrayscaleImage, x: int, y: int, r: int) -> bool {
    r <= x && r <= y && x + r < img.spec_width() && y + r < img.spec_height()
}

/// The moment of order `(x_moment, y_moment)` of the square of half-side `r`
/// around `(x, y)`.
pub open spec fn patch_sum(img: GrayscaleImage, x_moment: int, y_moment: int, x: int, y: int, r: int) -> int {
    window_moment(img, x_moment, y_moment, x - r, x + r + 1, y - r, y + r + 1)
}

/// `num / den` rounded to the nearest integer, halves upward.
pub open spec fn round_div(num: int, den: int) -> int {
    (2 * num + den) / (2 * den)
}

/// The moments of the patch of half-side `r` around `p`, with the fallback
/// for a patch that leaves the image or holds no intensity.
pub open spec fn moment_of(img: GrayscaleImage, p: Point, r: int) -> Moment {
    let x = p.0 as int;
    let y = p.1 as int;
    let m00 = patch_sum(img, 0, 0, x, y, r);
    let m10 = patch_sum(img, 1, 0, x, y, r);
    let m01 = patch_sum(img, 0, 1, x, y, r);
    if window_fits(img, x, y, r) && m00 > 0 {
        Moment {
            centroid: p,
            moment: (round_div(m10, m00) as i32, round_div(m01, m00) as i32),
            m00: m00 as u128,
            m10: m10 as u128,
            m01: m01 as u128,
            rotation: 0,
        }
    } else {
        Moment { centroid: p, moment: p, m00: 0, m10: 0, m01: 0, rotation: 0 }
    }
}

/// Each weighted row sum lies between `lo` and `hi` times the plain row sum
/// when every weight does.
proof fn lemma_row_moment_bounds(
    img: GrayscaleImage,
    x_moment: int,
    y_moment: int,
    x0: int,
    x1: int,
    my: int,
    lo: int,
    hi: int,
)
    requires
        img.wf(),
        0 <= x0,
        x1 <= img.spec_width(),
        0 <= my < img.spec_height(),
        0 <= lo,
        forall|mx: int| x0 <= mx < x1 ==> lo <= #[trigger] moment_weight(x_moment, y_moment, mx, my) <= hi,
    ensures
        lo * row_moment(img, 0, 0, x0, x1, my) <= row_moment(img, x_moment, y_moment, x0, x1, my)
            <= hi * row_moment(img, 0, 0, x0, x1, my),
        0 <= row_moment(img, 0, 0, x0, x1, my) <= 255 * (if x1 > x0 { x1 - x0 } else { 0 }),
    decreases x1 - x0,
{
    if x1 > x0 {
        lemma_row_moment_bounds(img, x_moment, y_moment, x0, x1 - 1, my, lo, hi);
        crate::raster::lemma_index_in_grid(x1 - 1, my, img.spec_width(), img.spec_height());
        let p = img.at(x1 - 1, my);
        let w = moment_weight(x_moment, y_moment, x1 - 1, my);
        let a = row_moment(img, 0, 0, x0, x1 - 1, my);
        let b = row_moment(img, x_moment, y_moment, x0, x1 - 1, my);
        assert(0 <= p <= 255);
        assert(moment_weight(0, 0, x1 - 1, my) * p == p);
        assert(lo * (a + p) <= b + w * p <= hi * (a + p)) by (nonlinear_arith)
            requires
                lo * a <= b <= hi * a,
                lo <= w <= hi,
                0 <= p,
        ;
    }
}

/// The weighted window sums lie between `lo` and `hi` times the plain
/// window sum when every weight does.
proof fn lemma_window_moment_bounds(
    img: GrayscaleImage,
    x_moment: int,
    y_moment: int,
    x0: int,
    x1: int,
    y0: int,
    y1: int,
    lo: int,
    hi: int,
)
    requires
        img.wf(),
        0 <= x0,
        x1 <= img.spec_width(),
        0 <= y0,
        y1 <= img.spec_height(),
        0 <= lo,
        forall|mx: int, my: int|
            x0 <= mx < x1 && y0 <= my < y1 ==> lo <= #[trigger] moment_weight(x_moment, y_moment, mx, my) <= hi,
    ensures
        lo * window_moment(img, 0, 0, x0, x1, y0, y1) <= window_moment(img, x_moment, y_moment, x0, x1, y0, y1)
            <= hi * window_moment(img, 0, 0, x0, x1, y0, y1),
        0 <= window_moment(img, 0, 0, x0, x1, y0, y1),
    decreases y1 - y0,
{
    if y1 > y0 {
        lemma_window_moment_bounds(img, x_moment, y_moment, x0, x1, y0, y1 - 1, lo, hi);
        lemma_row_moment_bounds(img, x_moment, y_moment, x0, x1, y1 - 1, lo, hi);
        let a = window_moment(img, 0, 0, x0, x1, y0, y1 - 1);
        let b = window_moment(img, x_moment, y_moment, x0, x1, y0, y1 - 1);
        let c = row_moment(img, 0, 0, x0, x1, y1 - 1);
        let d = row_moment(img, x_moment, y_moment, x0, x1, y1 - 1);
        assert(lo * (a + c) <= b + d <= hi * (a + c)) by (nonlinear_arith)
            requires
                lo * a <= b <= hi * a,
                lo * c <= d <= hi * c,
        ;
    }
}

/// The moment of order `(x_moment, y_moment)` of the square patch of
/// half-side `radius` (5 unless given) around `(x, y)`; `None` where the
/// patch leaves the image.
fn patch_moment(
    img: &GrayscaleImage,
    x: u32,
    y: u32,
    x_moment: u32,
    y_moment: u32,
    radius: Option<u32>,
) -> (r: Option<u128>)
    requires
        img.wf(),
    ensures
        r == if window_fits(*img, x as int, y as int, moment_radius_of(radius)) {
            Some(patch_sum(*img, x_moment as int, y_moment as int, x as int, y as int, moment_radius_of(radius)) as u128)
        } else {
            None::<u128>
        },
        r matches Some(v) ==> v == patch_sum(*img, x_moment as int, y_moment as int, x as int, y as int, moment_radius_of(radius)),
        r matches Some(v) ==> v <= 0x20_0000_0000_0000_0000_0000_0000,
{
    let radius = match radius {
        Some(r) => r,
        None => DEFAULT_MOMENT_RADIUS,
    };
    if x < radius || y < radius || x as u64 + radius as u64 >= img.width() as u64 || y as u64
        + radius as u64 >= img.height() as u64 {
        return None;
    }
    let ghost g = *img;
    let ghost xm = x_moment as int;
    let ghost ym = y_moment as int;
    let x0 = x - radius;
    let x1 = x + radius + 1;
    let y0 = y - radius;
    let y1 = y + radius + 1;
    let ghost side = x1 - x0;
    let mut sum: u128 = 0;
    let mut my = y0;
    while my < y1
        invariant
            img.wf(),
            g == *img,
            xm == x_moment,
            ym == y_moment,
            x0 < x1 <= img.spec_width(),
            y0 <= my <= y1 <= img.spec_height(),
            img.spec_width() <= i32::MAX,
            side == x1 - x0,
            side == y1 - y0,
            sum == window_moment(g, xm, ym, x0 as int, x1 as int, y0 as int, my as int),
            0 <= sum <= (my - y0) * side * 0x80_0000_0000,
        decreases y1 - my,
    {
        let mut row: u128 = 0;
        let mut mx = x0;
        while mx < x1
            invariant
                img.wf(),
                g == *img,
                xm == x_moment,
                ym == y_moment,
                x0 <= mx <= x1 <= img.spec_width(),
                y0 <= my < y1 <= img.spec_height(),
                img.spec_width() <= i32::MAX,
                img.spec_height() <= i32::MAX,
                row == row_moment(g, xm, ym, x0 as int, mx as int, my as int),
                0 <= row <= (mx - x0) * 0x80_0000_0000,
            decreases x1 - mx,
        {
            let weight: u128 = if x_moment == 0 && y_moment == 0 {
                1
            } else if x_moment == 0 && y_moment == 1 {
                my as u128
            } else if x_moment == 1 && y_moment == 0 {
                mx as u128
            } else {
                0
            };
            let p = img.get_pixel(mx, my) as u128;
            assert(weight * p <= 0x80_0000_0000) by (nonlinear_arith)
                requires
                    weight <= 0x8000_0000,
                    p <= 255,
            ;
            row = row + weight * p;
            mx = mx + 1;
        }
        assert((my - y0) * side * 0x80_0000_0000 + side * 0x80_0000_0000 == (my + 1 - y0) * side
            * 0x80_0000_0000) by (nonlinear_arith);
        assert((my + 1 - y0) * side * 0x80_0000_0000 <= 0x8000_0000 * 0x8000_0000 * 0x80_0000_0000)
            by (nonlinear_arith)
            requires
                my + 1 - y0 <= side,
                side <= 0x8000_0000,
                0 <= my + 1 - y0,
        ;
        sum = sum + row;
        my = my + 1;
    }
    assert(side * side <= 0x4000_0000_0000_0000) by (nonlinear_arith)
        requires
            0 <= side <= 0x8000_0000,
    ;
    assert((my - y0) * side * 0x80_0000_0000 == side * side * 0x80_0000_0000);
    Some(sum)
}

/// The intensity centroid and moments of the patch of half-side
/// `moment_radius` (5 unless given) around `point`. Where the patch leaves
/// the image or holds no intensity, the centroid is the point itself and the
/// moments are 0.
pub fn moment_centroid(img: &GrayscaleImage, point: &Point, moment_radius: Option<u32>) -> (m: Moment)
    requires
        img.wf(),
    ensures
        m == moment_of(*img, *point, moment_radius_of(moment_radius)),
{
    let ghost r = moment_radius_of(moment_radius);
    let fallback = Moment { centroid: *point, moment: *point, m00: 0, m10: 0, m01: 0, rotation: 0 };
    if point.0 < 0 || point.1 < 0 {
        return fallback;
    }
    let x = point.0 as u32;
    let y = point.1 as u32;
    let p_m = patch_moment(img, x, y, 0, 0, moment_radius);
    let p_x = patch_moment(img, x, y, 1, 0, moment_radius);
    let p_y = patch_moment(img, x, y, 0, 1, moment_radius);
    match (p_m, p_x, p_y) {
        (Some(m00), Some(m10), Some(m01)) => {
            if m00 == 0 {
                return fallback;
            }
            proof {
                let g = *img;
                let (xi, yi) = (x as int, y as int);
                assert forall|mx: int, my: int|
                    xi - r <= mx < xi + r + 1 && yi - r <= my < yi + r + 1 implies xi - r
                    <= #[trigger] moment_weight(1, 0, mx, my) <= xi + r by {}
                lemma_window_moment_bounds(g, 1, 0, xi - r, xi + r + 1, yi - r, yi + r + 1, xi - r, xi + r);
                assert forall|mx: int, my: int|
                    xi - r <= mx < xi + r + 1 && yi - r <= my < yi + r + 1 implies yi - r
                    <= #[trigger] moment_weight(0, 1, mx, my) <= yi + r by {}
                lemma_window_moment_bounds(g, 0, 1, xi - r, xi + r + 1, yi - r, yi + r + 1, yi - r, yi + r);
                lemma_round_div_between(m10 as int, m00 as int, xi - r, xi + r);
                lemma_round_div_between(m01 as int, m00 as int, yi - r, yi + r);
            }
            let cx = (2 * m10 + m00) / (2 * m00);
            let cy = (2 * m01 + m00) / (2 * m00);
            Moment {
                centroid: *point,
                moment: (cx as i32, cy as i32),
                m00,
                m10,
                m01,
                rotation: 0,
            }
        },
        _ => fallback,
    }
}

/// A quotient whose numerator lies between `lo` and `hi` times its positive
/// denominator rounds to a value between `lo` and `hi`.
proof fn lemma_round_div_between(num: int, den: int, lo: int, hi: int)
    requires
        den > 0,
        0 <= lo,
        lo * den <= num <= hi * den,
    ensures
        lo <= round_div(num, den) <= hi,
{
    let q = round_div(num, den);
    let n2 = 2 * num + den;
    let d2 = 2 * den;
    vstd::arithmetic::div_mod::lemma_fundamental_div_mod(n2, d2);
    vstd::arithmetic::div_mod::lemma_mod_pos_bound(n2, d2);
    assert(d2 * q <= n2 < d2 * q + d2);
    if q < lo {
        assert(d2 * q + d2 <= d2 * lo) by (nonlinear_arith)
            requires
                q + 1 <= lo,
                d2 > 0,
        ;
        assert(d2 * lo <= n2) by (nonlinear_arith)
            requires
                lo * den <= num,
                d2 == 2 * den,
                n2 == 2 * num + den,
                den > 0,
        ;
    }
    if q > hi {
        assert(d2 * (hi + 1) <= d2 * q) by (nonlinear_arith)
            requires
                hi + 1 <= q,
                d2 > 0,
        ;
        assert(n2 < d2 * (hi + 1)) by (nonlinear_arith)
            requires
                num <= hi * den,
                d2 == 2 * den,
                n2 == 2 * num + den,
                den > 0,
        ;
    }
}

/// A detected corner.
#[derive(Debug, Clone, Copy)]
pub struct FastKeypoint {
    pub location: Point,
    /// Corner strength: the summed differences from the centre of the circle
    /// positions that are not similar to it.
    pub score: i32,
    /// Suppression radius: the distance to the nearest stronger keypoint, set
    /// when keypoints are thinned out.
    pub nms_dist: usize,
    pub moment: Moment,
}

/// The intensity difference below which a circle position counts as similar
/// to the centre, unless one is given.
pub const DEFAULT_FAST_THRESHOLD: i32 = 50;

pub open spec fn fast_type_of(fast_type: Option<FastType>) -> FastType {
    match fast_type {
        Some(t) => t,
        None => FastType::TYPE_9_16,
    }
}

pub open spec fn threshold_of(threshold: Option<i32>) -> int {
    match threshold {
        Some(t) => t as int,
        None => DEFAULT_FAST_THRESHOLD as int,
    }
}

/// The keypoint reported for a corner at `(x, y)`.
pub open spec fn keypoint_at(img: GrayscaleImage, ft: FastType, threshold: int, x: int, y: int) -> FastKeypoint {
    FastKeypoint {
        location: (x as i32, y as i32),
        score: corner_strength(img, ft, threshold, x, y) as i32,
        nms_dist: 0,
        moment: moment_of(img, (x as i32, y as i32), DEFAULT_MOMENT_RADIUS as int),
    }
}

/// The corners of row `y` among the columns from the radius up to `x_end`,
/// left to right.
pub open spec fn row_corners(img: GrayscaleImage, ft: FastType, threshold: int, y: int, x_end: int) -> Seq<FastKeypoint>
    decreases x_end - ft.spec_radius(),
{
    if x_end <= ft.spec_radius() {
        Seq::empty()
    } else {
        let before = row_corners(img, ft, threshold, y, x_end - 1);
        if is_corner(img, ft, threshold, x_end - 1, y) {
            before.push(keypoint_at(img, ft, threshold, x_end - 1, y))
        } else {
            before
        }
    }
}

/// The corners of the rows from the radius up to `y_end`, row by row.
pub open spec fn corners_upto(img: GrayscaleImage, ft: FastType, threshold: int, y_end: int) -> Seq<FastKeypoint>
    decreases y_end - ft.spec_radius(),
{
    if y_end <= ft.spec_radius() {
        Seq::empty()
    } else {
        corners_upto(img, ft, threshold, y_end - 1) + row_corners(
            img,
            ft,
            threshold,
            y_end - 1,
            img.spec_width() - ft.spec_radius(),
        )
    }
}

/// Every corner of the image at least the radius away from each edge, in
/// row-major order.
pub open spec fn detected(img: GrayscaleImage, ft: FastType, threshold: int) -> Seq<FastKeypoint> {
    corners_upto(img, ft, threshold, img.spec_height() - ft.spec_radius())
}

/// The image is too small for the circle to fit anywhere.
pub open spec fn too_small(img: GrayscaleImage, ft: FastType) -> bool {
    img.spec_width() < 2 * ft.spec_radius() || img.spec_height() < 2 * ft.spec_radius()
}

/// Finds the corners of `img` with the circle `fast_type` (the 16-position
/// one unless given) and the similarity `threshold` (50 unless given), in
/// row-major order, each with its strength and moments.
pub fn fast(img: &GrayscaleImage, fast_type: Option<FastType>, threshold: Option<i32>) -> (r: Result<
    Vec<FastKeypoint>,
    OrbError,
>)
    requires
        img.wf(),
    ensures
        r.is_err() <==> too_small(*img, fast_type_of(fast_type)),
        r matches Err(e) ==> e == OrbError::SizeError,
        r matches Ok(v) ==> v@ == detected(*img, fast_type_of(fast_type), threshold_of(threshold)),
        r matches Ok(v) ==> forall|i: int|
            0 <= i < v@.len() ==> in_margin(*img, fast_type_of(fast_type), #[trigger] v@[i]),
{
    let threshold = match threshold {
        Some(t) => t,
        None => DEFAULT_FAST_THRESHOLD,
    };
    let fast_type = match fast_type {
        Some(t) => t,
        None => FastType::TYPE_9_16,
    };
    let ghost g = *img;
    let ghost thr = threshold as int;
    let ctx = fast_type.get_context();
    let radius = ctx.radius;
    if img.width() < 2 * radius || img.height() < 2 * radius {
        return Err(OrbError::SizeError);
    }
    let mut keypoints: Vec<FastKeypoint> = Vec::new();
    let y_end = img.height() - radius;
    let x_end = img.width() - radius;
    let mut y = radius;
    while y < y_end
        invariant
            img.wf(),
            g == *img,
            thr == threshold,
            ctx.offsets@ == fast_type.spec_offsets(),
            ctx.idx@ == fast_type.spec_order(),
            ctx.radius == fast_type.spec_radius(),
            ctx.n == fast_type.spec_n(),
            radius == ctx.radius,
            y_end == img.spec_height() - radius,
            x_end == img.spec_width() - radius,
            radius <= y <= y_end,
            2 * radius <= img.spec_width(),
            keypoints@ == corners_upto(g, fast_type, thr, y as int),
        decreases y_end - y,
    {
        let ghost before = keypoints@;
        let mut x = radius;
        while x < x_end
            invariant
                img.wf(),
                g == *img,
                thr == threshold,
                ctx.offsets@ == fast_type.spec_offsets(),
                ctx.idx@ == fast_type.spec_order(),
                ctx.radius == fast_type.spec_radius(),
                ctx.n == fast_type.spec_n(),
                radius == ctx.radius,
                y_end == img.spec_height() - radius,
                x_end == img.spec_width() - radius,
                radius <= y < y_end,
                radius <= x <= x_end,
                keypoints@ == before + row_corners(g, fast_type, thr, y as int, x as int),
            decreases x_end - x,
        {
            match corner_score(img, fast_type, &ctx, threshold, x, y) {
                Some(score) => {
                    let point: Point = (x as i32, y as i32);
                    let moment = moment_centroid(img, &point, None);
                    keypoints.push(FastKeypoint { location: point, score, nms_dist: 0, moment });
                    assert(keypoints@ == before + row_corners(g, fast_type, thr, y as int, x as int + 1));
                },
                None => {},
            }
            x = x + 1;
        }
        y = y + 1;
    }
    proof {
        lemma_detected_in_margin(g, fast_type, thr);
        assert(keypoints@ == detected(g, fast_type, thr));
    }
    Ok(keypoints)
}

/// A keypoint lies in the margin of `ft`: at least the radius away from
/// each edge of `img`.
pub open spec fn in_margin(img: GrayscaleImage, ft: FastType, k: FastKeypoint) -> bool {
    let r = ft.spec_radius() as int;
    &&& r <= k.location.0 < img.spec_width() - r
    &&& r <= k.location.1 < img.spec_height() - r
}

proof fn lemma_row_corners_in_margin(img: GrayscaleImage, ft: FastType, threshold: int, y: int, x_end: int)
    requires
        img.wf(),
        ft.spec_radius() <= y < img.spec_height() - ft.spec_radius(),
        x_end <= img.spec_width() - ft.spec_radius(),
    ensures
        forall|i: int|
            0 <= i < row_corners(img, ft, threshold, y, x_end).len() ==> in_margin(
                img,
                ft,
                #[trigger] row_corners(img, ft, threshold, y, x_end)[i],
            ),
    decreases x_end - ft.spec_radius(),
{
    if x_end > ft.spec_radius() {
        lemma_row_corners_in_margin(img, ft, threshold, y, x_end - 1);
        let k = keypoint_at(img, ft, threshold, x_end - 1, y);
        assert(k.location.0 == x_end - 1 && k.location.1 == y);
        assert(in_margin(img, ft, k));
        let before = row_corners(img, ft, threshold, y, x_end - 1);
        let all = row_corners(img, ft, threshold, y, x_end);
        assert forall|i: int| 0 <= i < all.len() implies in_margin(img, ft, #[trigger] all[i]) by {
            if i < before.len() {
                assert(all[i] == before[i]);
            }
        }
    }
}

proof fn lemma_corners_upto_in_margin(img: GrayscaleImage, ft: FastType, threshold: int, y_end: int)
    requires
        img.wf(),
        y_end <= img.spec_height() - ft.spec_radius(),
    ensures
        forall|i: int|
            0 <= i < corners_upto(img, ft, threshold, y_end).len() ==> in_margin(
                img,
                ft,
                #[trigger] corners_upto(img, ft, threshold, y_end)[i],
            ),
    decreases y_end - ft.spec_radius(),
{
    if y_end > ft.spec_radius() {
        lemma_corners_upto_in_margin(img, ft, threshold, y_end - 1);
        lemma_row_corners_in_margin(img, ft, threshold, y_end - 1, img.spec_width() - ft.spec_radius());
        let a = corners_upto(img, ft, threshold, y_end - 1);
        let b = row_corners(img, ft, threshold, y_end - 1, img.spec_width() - ft.spec_radius());
        assert forall|i: int| 0 <= i < (a + b).len() implies in_margin(img, ft, #[trigger] (a + b)[i]) by {
            if i >= a.len() {
                assert((a + b)[i] == b[i - a.len()]);
            }
        }
    }
}

/// Every detected keypoint lies at least the circle's radius away from each
/// edge of the image.
pub proof fn lemma_detected_in_margin(img: GrayscaleImage, ft: FastType, threshold: int)
    requires
        img.wf(),
    ensures
        forall|i: int|
            0 <= i < detected(img, ft, threshold).len() ==> in_margin(
                img,
                ft,
                #[trigger] detected(img, ft, threshold)[i],
            ),
{
    lemma_corners_upto_in_margin(img, ft, threshold, img.spec_height() - ft.spec_radius());
}

/// `r` is the integer square root of `n`.
pub open spec fn is_floor_sqrt(r: int, n: int) -> bool {
    0 <= r && r * r <= n < (r + 1) * (r + 1)
}

/// The largest integer whose square is at most `n`.
pub open spec fn floor_sqrt(n: int) -> int {
    choose|r: int| is_floor_sqrt(r, n)
}

proof fn lemma_floor_sqrt_unique(r: int, n: int)
    requires
        is_floor_sqrt(r, n),
    ensures
        floor_sqrt(n) == r,
{
    let q = floor_sqrt(n);
    assert(is_floor_sqrt(q, n));
    if q < r {
        assert((q + 1) * (q + 1) <= r * r) by (nonlinear_arith)
            requires
                0 <= q,
                q + 1 <= r,
        ;
    }
    if r < q {
        assert((r + 1) * (r + 1) <= q * q) by (nonlinear_arith)
            requires
                0 <= r,
                r + 1 <= q,
        ;
    }
}

/// The integer square root of `n`, by bisection.
fn isqrt(n: u128) -> (r: u128)
    requires
        n < 0x4_0000_0000_0000_0000,
    ensures
        r == floor_sqrt(n as int),
        r < 0x2_0000_0000,
{
    let mut lo: u128 = 0;
    let mut hi: u128 = 0x2_0000_0000;
    while hi - lo > 1
        invariant
            lo < hi <= 0x2_0000_0000,
            lo * lo <= n < hi * hi,
        decreases hi - lo,
    {
        let mid = lo + (hi - lo) / 2;
        assert(mid * mid <= 0x4_0000_0000_0000_0000) by (nonlinear_arith)
            requires
                mid <= 0x2_0000_0000,
        ;
        if mid * mid <= n {
            lo = mid;
        } else {
            hi = mid;
        }
    }
    proof {
        assert(hi == lo + 1);
        lemma_floor_sqrt_unique(lo as int, n as int);
    }
    lo
}

/// Squared Euclidean distance between two points.
pub open spec fn squared_distance(a: Point, b: Point) -> int {
    (a.0 - b.0) * (a.0 - b.0) + (a.1 - b.1) * (a.1 - b.1)
}

impl Matchable for FastKeypoint {
    /// The Euclidean distance between the locations, rounded down (and
    /// capped at the largest `usize`).
    open spec fn spec_distance(&self, other: &Self) -> nat {
        let d = floor_sqrt(squared_distance(self.location, other.location));
        if d > usize::MAX {
            usize::MAX as nat
        } else {
            d as nat
        }
    }

    fn distance(&self, other: &FastKeypoint) -> (d: usize) {
        let ((ax, ay), (bx, by)) = (self.location, other.location);
        let dx = (ax as i64 - bx as i64) as i128;
        let dy = (ay as i64 - by as i64) as i128;
        assert(0 <= dx * dx <= 0x1_0000_0000_0000_0000) by (nonlinear_arith)
            requires
                -0x1_0000_0000 <= dx <= 0x1_0000_0000,
        ;
        assert(0 <= dy * dy <= 0x1_0000_0000_0000_0000) by (nonlinear_arith)
            requires
                -0x1_0000_0000 <= dy <= 0x1_0000_0000,
        ;
        let sq = (dx * dx + dy * dy) as u128;
        let r = isqrt(sq);
        if r > usize::MAX as u128 {
            usize::MAX
        } else {
            r as usize
        }
    }
}

} // verus!
