//! Matcher: brute-force search of a needle image inside a haystack image.
//!
//! Every candidate top-left position is scored by the mean absolute
//! per-channel difference of the needle against the haystack; the scan keeps
//! the first position whose score is strictly smaller than everything seen
//! before it.

use vstd::prelude::*;
use vstd::arithmetic::div_mod::lemma_fundamental_div_mod;
use vstd::arithmetic::div_mod::lemma_fundamental_div_mod_converse;
use vstd::arithmetic::div_mod::lemma_mod_division_less_than_divisor;

use crate::errors::Error;
use crate::geometry::Waypoint;
use crate::raster::Image;
use crate::raster::Pixel;

verus! {

/// `a / b` rounded to the nearest integer, halves rounded up, for
/// `a >= 0` and `b >= 1`.
pub open spec fn round_div(a: int, b: int) -> int {
    (2 * a + b) / (2 * b)
}

pub(crate) proof fn lemma_round_div_le_mul(t: int, c: int, m: int)
    requires
        0 <= t,
        t <= m * c,
        1 <= c,
        0 <= m,
    ensures
        0 <= round_div(t, c) <= m,
{
    let q = (2 * t + c) / (2 * c);
    let r = (2 * t + c) % (2 * c);
    lemma_fundamental_div_mod(2 * t + c, 2 * c);
    lemma_mod_division_less_than_divisor(2 * t + c, 2 * c);
    assert(0 <= q <= m) by (nonlinear_arith)
        requires
            2 * t + c == 2 * c * q + r,
            0 <= r < 2 * c,
            0 <= t,
            t <= m * c,
            1 <= c,
            0 <= m,
    ;
}

/// Rounded division on machine words, exact against [`round_div`].
fn round_div_u64(a: u64, b: u64) -> (r: u64)
    requires
        1 <= b,
        a <= u32::MAX,
    ensures
        r as int == round_div(a as int, b as int),
        r <= a,
{
    proof {
        assert(a <= a * b) by (nonlinear_arith)
            requires
                0 <= a,
                1 <= b,
        ;
        lemma_round_div_le_mul(a as int, b as int, a as int);
    }
    let num: u128 = 2 * (a as u128) + (b as u128);
    let den: u128 = 2 * (b as u128);
    (num / den) as u64
}

/// The absolute difference of one colour channel.
pub open spec fn channel_diff(a: u8, b: u8) -> int {
    if a >= b {
        a - b
    } else {
        b - a
    }
}

/// The score of one needle pixel against one haystack pixel: the sum of the
/// three absolute channel differences, divided by three (truncated).
pub open spec fn pixel_score(h: Pixel, n: Pixel) -> int {
    (channel_diff(h.r, n.r) + channel_diff(h.g, n.g) + channel_diff(h.b, n.b)) / 3
}

/// The sum of the scores of the first `k` needle pixels, taken row-major,
/// for the candidate position `(cx, cy)` in the haystack.
pub open spec fn score_sum(hay: Image, nee: Image, cx: int, cy: int, k: nat) -> int
    decreases k,
{
    if k == 0 {
        0
    } else {
        let i = k - 1;
        let rx = i % (nee.width as int);
        let ry = i / (nee.width as int);
        score_sum(hay, nee, cx, cy, (k - 1) as nat) + pixel_score(
            hay.pixel_at(cx + rx, cy + ry),
            nee.pixel_at(rx, ry),
        )
    }
}

/// The score of the candidate position `(cx, cy)`: the mean pixel score over
/// all needle pixels, rounded to the nearest integer. An empty needle scores
/// zero everywhere.
pub open spec fn candidate_score(hay: Image, nee: Image, cx: int, cy: int) -> int {
    let cnt = nee.width * nee.height;
    if cnt == 0 {
        0
    } else {
        round_div(score_sum(hay, nee, cx, cy, cnt as nat), cnt)
    }
}

/// How many candidate columns the scan visits: the horizontal slack divided
/// by the stride, rounded to the nearest integer. The column index itself is
/// the candidate x coordinate.
pub open spec fn x_candidates(hay: Image, nee: Image, stride: int) -> int {
    round_div(hay.width - nee.width, stride)
}

/// How many candidate rows the scan visits.
pub open spec fn y_candidates(hay: Image, nee: Image) -> int {
    hay.height - nee.height
}

/// True when `(x, y)` is a candidate position of the scan.
pub open spec fn in_grid(hay: Image, nee: Image, stride: int, x: int, y: int) -> bool {
    &&& 0 <= x < x_candidates(hay, nee, stride)
    &&& 0 <= y < y_candidates(hay, nee)
}

/// True when the scan visits `(x, y)` strictly before `(bx, by)`: rows are
/// scanned top to bottom, and left to right inside a row.
pub open spec fn scans_before(x: int, y: int, bx: int, by: int) -> bool {
    y < by || (y == by && x < bx)
}

/// `(bx, by)` is the first candidate position attaining the minimum score:
/// no candidate scores less, and every candidate scanned before it scores
/// strictly more.
pub open spec fn is_first_best(hay: Image, nee: Image, stride: int, bx: int, by: int) -> bool {
    &&& in_grid(hay, nee, stride, bx, by)
    &&& forall|x: int, y: int|
        in_grid(hay, nee, stride, x, y) ==> candidate_score(hay, nee, bx, by)
            <= #[trigger] candidate_score(hay, nee, x, y)
    &&& forall|x: int, y: int|
        in_grid(hay, nee, stride, x, y) && scans_before(x, y, bx, by) ==> candidate_score(
            hay,
            nee,
            bx,
            by,
        ) < #[trigger] candidate_score(hay, nee, x, y)
}

/// True when the needle is pixel for pixel a crop of the haystack with its
/// top-left corner at `(x0, y0)`.
pub open spec fn is_crop(hay: Image, nee: Image, x0: int, y0: int) -> bool {
    forall|rx: int, ry: int|
        0 <= rx < nee.width && 0 <= ry < nee.height ==> #[trigger] nee.pixel_at(rx, ry)
            == hay.pixel_at(x0 + rx, y0 + ry)
}

proof fn lemma_crop_sum_zero(hay: Image, nee: Image, x0: int, y0: int, k: nat)
    requires
        is_crop(hay, nee, x0, y0),
        k <= nee.width * nee.height,
    ensures
        score_sum(hay, nee, x0, y0, k) == 0,
    decreases k,
{
    if k > 0 {
        let w = nee.width as int;
        let h = nee.height as int;
        let i = k - 1;
        assert(1 <= w && 1 <= h) by (nonlinear_arith)
            requires
                w * h >= 1,
                0 <= w,
                0 <= h,
        ;
        lemma_crop_sum_zero(hay, nee, x0, y0, (k - 1) as nat);
        lemma_fundamental_div_mod(i, w);
        lemma_mod_division_less_than_divisor(i, w);
        let rx = i % w;
        let ry = i / w;
        assert(0 <= ry < h) by (nonlinear_arith)
            requires
                i == w * ry + rx,
                0 <= rx < w,
                0 <= i,
                i < w * h,
                1 <= w,
        ;
        assert(nee.pixel_at(rx, ry) == hay.pixel_at(x0 + rx, y0 + ry));
    }
}

/// A needle that is an exact crop of the haystack scores zero at the crop
/// position.
pub proof fn lemma_crop_score_zero(hay: Image, nee: Image, x0: int, y0: int)
    requires
        is_crop(hay, nee, x0, y0),
    ensures
        candidate_score(hay, nee, x0, y0) == 0,
{
    let cnt = nee.width * nee.height;
    if cnt != 0 {
        lemma_crop_sum_zero(hay, nee, x0, y0, cnt as nat);
        lemma_round_div_le_mul(0, cnt as int, 0);
    }
}

/// A needle cropped exactly from the haystack at `(x0, y0)` scores zero
/// there; when every other candidate position scores strictly more, the
/// first-best position of the scan is exactly `(x0, y0)`.
pub proof fn lemma_exact_crop_is_located(
    hay: Image,
    nee: Image,
    stride: int,
    x0: int,
    y0: int,
    bx: int,
    by: int,
)
    requires
        is_crop(hay, nee, x0, y0),
        in_grid(hay, nee, stride, x0, y0),
        forall|x: int, y: int|
            in_grid(hay, nee, stride, x, y) && !(x == x0 && y == y0) ==> #[trigger] candidate_score(
                hay,
                nee,
                x,
                y,
            ) > 0,
        is_first_best(hay, nee, stride, bx, by),
    ensures
        candidate_score(hay, nee, x0, y0) == 0,
        bx == x0,
        by == y0,
{
    lemma_crop_score_zero(hay, nee, x0, y0);
    if !(bx == x0 && by == y0) {
        assert(candidate_score(hay, nee, bx, by) <= candidate_score(hay, nee, x0, y0));
        assert(false);
    }
}

/// The confidence threshold that a call asks for, in thousandths;
/// `None` asks for the default of `0.999`.
pub open spec fn effective_confidence(c: Option<i64>) -> int {
    match c {
        Some(v) => v as int,
        None => 999,
    }
}

/// The sampling stride that a call asks for; `None` and `0` both ask for the
/// default of one.
pub open spec fn effective_stride(s: Option<u64>) -> int {
    match s {
        Some(v) => if v == 0 {
            1
        } else {
            v as int
        },
        None => 1,
    }
}

/// A confidence threshold is a fraction of `[0, 1]`, held in thousandths.
pub open spec fn confidence_in_range(c: int) -> bool {
    0 <= c <= 1000
}

/// The needle must not be wider or taller than the haystack.
pub open spec fn needle_fits(hay: Image, nee: Image) -> bool {
    nee.width <= hay.width && nee.height <= hay.height
}

/// The stride must not exceed the haystack's pixel count.
pub open spec fn stride_in_range(hay: Image, s: int) -> bool {
    s <= hay.width * hay.height
}

/// One pixel-pair score, exact against [`pixel_score`].
fn pixel_diff(h: Pixel, n: Pixel) -> (d: u64)
    ensures
        d as int == pixel_score(h, n),
        d <= 255,
{
    let dr: u64 = if h.r >= n.r {
        (h.r - n.r) as u64
    } else {
        (n.r - h.r) as u64
    };
    let dg: u64 = if h.g >= n.g {
        (h.g - n.g) as u64
    } else {
        (n.g - h.g) as u64
    };
    let db: u64 = if h.b >= n.b {
        (h.b - n.b) as u64
    } else {
        (n.b - h.b) as u64
    };
    (dr + dg + db) / 3
}

proof fn lemma_score_sum_step(hay: Image, nee: Image, cx: int, cy: int, rx: int, ry: int)
    requires
        0 <= rx < nee.width,
        0 <= ry,
    ensures
        score_sum(hay, nee, cx, cy, (ry * nee.width + rx + 1) as nat) == score_sum(
            hay,
            nee,
            cx,
            cy,
            (ry * nee.width + rx) as nat,
        ) + pixel_score(hay.pixel_at(cx + rx, cy + ry), nee.pixel_at(rx, ry)),
{
    let w = nee.width as int;
    let k = ry * w + rx;
    assert(0 <= ry * w) by (nonlinear_arith)
        requires
            0 <= ry,
            0 <= w,
    ;
    lemma_fundamental_div_mod_converse(k, w, ry, rx);
    assert(k % w == rx && k / w == ry);
}

/// Scores one candidate position, exact against [`candidate_score`].
fn candidate_score_at(hay: &Image, nee: &Image, cx: u64, cy: u32) -> (sc: u64)
    requires
        hay.wf(),
        nee.wf(),
        nee.width <= hay.width,
        nee.height <= hay.height,
        cx as int <= hay.width - nee.width - 1,
        cy as int <= hay.height - nee.height - 1,
    ensures
        sc as int == candidate_score(*hay, *nee, cx as int, cy as int),
        sc <= 255,
{
    let nw: u32 = nee.width;
    let nh: u32 = nee.height;
    proof {
        assert((nw as int) * (nh as int) <= 0xffff_ffff * 0xffff_ffff) by (nonlinear_arith)
            requires
                nw <= 0xffff_ffffu32,
                nh <= 0xffff_ffffu32,
        ;
    }
    let count: u64 = (nw as u64) * (nh as u64);
    if count == 0 {
        return 0;
    }
    proof {
        assert(1 <= nw && 1 <= nh) by (nonlinear_arith)
            requires
                (nw as int) * (nh as int) >= 1,
        ;
    }
    let mut total: u128 = 0;
    let mut ry: u32 = 0;
    while ry < nh
        invariant
            hay.wf(),
            nee.wf(),
            nee.width == nw,
            nee.height == nh,
            nee.width <= hay.width,
            nee.height <= hay.height,
            cx as int <= hay.width - nee.width - 1,
            cy as int <= hay.height - nee.height - 1,
            1 <= nw,
            1 <= nh,
            count == nw * nh,
            ry <= nh,
            total == score_sum(*hay, *nee, cx as int, cy as int, (ry * nw) as nat),
            total <= 255 * (ry * nw),
        decreases nh - ry,
    {
        let mut rx: u32 = 0;
        while rx < nw
            invariant
                hay.wf(),
                nee.wf(),
                nee.width == nw,
                nee.height == nh,
                nee.width <= hay.width,
                nee.height <= hay.height,
                cx as int <= hay.width - nee.width - 1,
                cy as int <= hay.height - nee.height - 1,
                1 <= nw,
                1 <= nh,
                count == nw * nh,
                ry < nh,
                rx <= nw,
                total == score_sum(*hay, *nee, cx as int, cy as int, (ry * nw + rx) as nat),
                total <= 255 * (ry * nw + rx),
            decreases nw - rx,
        {
            let hx: u32 = (cx as u32) + rx;
            let hy: u32 = cy + ry;
            let hp = hay.pixel(hx, hy);
            let np = nee.pixel(rx, ry);
            let d: u64 = pixel_diff(hp, np);
            proof {
                lemma_score_sum_step(*hay, *nee, cx as int, cy as int, rx as int, ry as int);
                assert(ry * nw + rx + 1 <= nh * nw) by (nonlinear_arith)
                    requires
                        0 <= rx < nw,
                        0 <= ry < nh,
                ;
                assert(nh * nw == nw * nh) by (nonlinear_arith);
            }
            total = total + (d as u128);
            rx = rx + 1;
        }
        proof {
            assert((ry + 1) * nw == ry * nw + nw) by (nonlinear_arith);
        }
        ry = ry + 1;
    }
    proof {
        assert(nh * nw == nw * nh) by (nonlinear_arith);
        lemma_round_div_le_mul(total as int, count as int, 255);
    }
    let num: u128 = 2 * total + (count as u128);
    let den: u128 = 2 * (count as u128);
    (num / den) as u64
}

/// True when the scan has already visited `(x, y)`: all rows below `fr`
/// completely, plus the first `part` columns of row `fr`.
spec fn scanned(hay: Image, nee: Image, stride: int, fr: int, part: int, x: int, y: int) -> bool {
    &&& 0 <= x < x_candidates(hay, nee, stride)
    &&& 0 <= y
    &&& (y < fr || (y == fr && x < part))
}

/// `(bx, by)` is the first minimum of the region visited so far.
spec fn best_of_prefix(
    hay: Image,
    nee: Image,
    stride: int,
    fr: int,
    part: int,
    bx: int,
    by: int,
) -> bool {
    &&& scanned(hay, nee, stride, fr, part, bx, by)
    &&& forall|x: int, y: int|
        scanned(hay, nee, stride, fr, part, x, y) ==> candidate_score(hay, nee, bx, by)
            <= #[trigger] candidate_score(hay, nee, x, y)
    &&& forall|x: int, y: int|
        scanned(hay, nee, stride, fr, part, x, y) && scans_before(x, y, bx, by)
            ==> candidate_score(hay, nee, bx, by) < #[trigger] candidate_score(hay, nee, x, y)
}

/// Locates the needle image inside the haystack image.
///
/// The scan walks every candidate row, and inside each row every candidate
/// column index, scoring the needle against the haystack; a candidate
/// strictly improving on the best score seen so far becomes the new best.
/// The confidence threshold (thousandths of `[0, 1]`, default `999`) bounds
/// valid input but does not gate the returned coordinate; the stride
/// (default `1`) controls how many candidate columns are visited.
pub fn locate(
    haystack: &Image,
    needle: &Image,
    confidence_milli: Option<i64>,
    stride: Option<u64>,
) -> (r: Result<Waypoint, Error>)
    requires
        haystack.wf(),
        needle.wf(),
    ensures
        !confidence_in_range(effective_confidence(confidence_milli)) ==> r == Err::<
            Waypoint,
            Error,
        >(Error::InvalidConfidence),
        confidence_in_range(effective_confidence(confidence_milli)) && !needle_fits(
            *haystack,
            *needle,
        ) ==> r == Err::<Waypoint, Error>(Error::NeedleTooLarge),
        confidence_in_range(effective_confidence(confidence_milli)) && needle_fits(
            *haystack,
            *needle,
        ) && !stride_in_range(*haystack, effective_stride(stride)) ==> r == Err::<Waypoint, Error>(
            Error::StrideTooLarge,
        ),
        confidence_in_range(effective_confidence(confidence_milli)) && needle_fits(
            *haystack,
            *needle,
        ) && stride_in_range(*haystack, effective_stride(stride)) ==> ((x_candidates(
            *haystack,
            *needle,
            effective_stride(stride),
        ) == 0 || y_candidates(*haystack, *needle) == 0) <==> r == Err::<Waypoint, Error>(
            Error::NoMatchFound,
        )),
        confidence_in_range(effective_confidence(confidence_milli)) && needle_fits(
            *haystack,
            *needle,
        ) && stride_in_range(*haystack, effective_stride(stride)) && x_candidates(
            *haystack,
            *needle,
            effective_stride(stride),
        ) > 0 && y_candidates(*haystack, *needle) > 0 ==> r is Ok && is_first_best(
            *haystack,
            *needle,
            effective_stride(stride),
            r.unwrap().x as int,
            r.unwrap().y as int,
        ),
        r is Ok ==> r.unwrap().x <= haystack.width - needle.width && r.unwrap().y
            <= haystack.height - needle.height,
{
    let conf: i64 = match confidence_milli {
        Some(v) => v,
        None => 999,
    };
    let step: u64 = match stride {
        Some(v) => if v == 0 {
            1
        } else {
            v
        },
        None => 1,
    };
    if conf < 0 {
        return Err(Error::InvalidConfidence);
    }
    if conf > 1000 {
        return Err(Error::InvalidConfidence);
    }
    if needle.width > haystack.width {
        return Err(Error::NeedleTooLarge);
    }
    if needle.height > haystack.height {
        return Err(Error::NeedleTooLarge);
    }
    proof {
        assert((haystack.width as int) * (haystack.height as int) <= 0xffff_ffff * 0xffff_ffff)
            by (nonlinear_arith)
            requires
                haystack.width <= 0xffff_ffffu32,
                haystack.height <= 0xffff_ffffu32,
        ;
    }
    let pixel_count: u64 = (haystack.width as u64) * (haystack.height as u64);
    if step > pixel_count {
        return Err(Error::StrideTooLarge);
    }
    let slack: u64 = ((haystack.width - needle.width) as u64);
    let xc: u64 = round_div_u64(slack, step);
    let yc: u32 = haystack.height - needle.height;
    let ghost s = effective_stride(stride);
    proof {
        assert(xc as int == x_candidates(*haystack, *needle, s));
        assert(yc as int == y_candidates(*haystack, *needle));
    }
    let mut best_score: u64 = u64::MAX;
    let mut best_x: u64 = 0;
    let mut best_y: u32 = 0;
    let mut cy: u32 = 0;
    while cy < yc
        invariant
            haystack.wf(),
            needle.wf(),
            needle_fits(*haystack, *needle),
            1 <= step,
            s == step as int,
            xc as int == x_candidates(*haystack, *needle, s),
            yc as int == y_candidates(*haystack, *needle),
            xc <= slack,
            slack as int == haystack.width - needle.width,
            cy <= yc,
            (xc == 0 || cy == 0) ==> (best_score == u64::MAX && best_x == 0 && best_y == 0),
            (xc > 0 && cy > 0) ==> (best_score <= 255 && best_score as int == candidate_score(
                *haystack,
                *needle,
                best_x as int,
                best_y as int,
            ) && best_of_prefix(*haystack, *needle, s, cy as int, 0, best_x as int, best_y as int)),
        decreases yc - cy,
    {
        let mut cx: u64 = 0;
        while cx < xc
            invariant
                haystack.wf(),
                needle.wf(),
                needle_fits(*haystack, *needle),
                1 <= step,
                s == step as int,
                xc as int == x_candidates(*haystack, *needle, s),
                yc as int == y_candidates(*haystack, *needle),
                xc <= slack,
                slack as int == haystack.width - needle.width,
                cy < yc,
                cx <= xc,
                (xc == 0 || (cx == 0 && cy == 0)) ==> (best_score == u64::MAX && best_x == 0
                    && best_y == 0),
                (cx > 0 || cy > 0) && xc > 0 ==> (best_score <= 255 && best_score as int
                    == candidate_score(*haystack, *needle, best_x as int, best_y as int)
                    && best_of_prefix(
                    *haystack,
                    *needle,
                    s,
                    cy as int,
                    cx as int,
                    best_x as int,
                    best_y as int,
                )),
            decreases xc - cx,
        {
            let sc: u64 = candidate_score_at(haystack, needle, cx, cy);
            if sc < best_score {
                best_score = sc;
                best_x = cx;
                best_y = cy;
            }
            cx = cx + 1;
        }
        cy = cy + 1;
    }
    if best_score != u64::MAX {
        proof {
            assert(xc > 0 && yc > 0);
        }
        Ok(Waypoint { x: best_x, y: best_y as u64 })
    } else {
        proof {
            assert(xc == 0 || yc == 0);
        }
        Err(Error::NoMatchFound)
    }
}

} // verus!
