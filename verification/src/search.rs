use vstd::prelude::*;
use crate::img::{ColorImage, GrayImage, gray_of_color, region_spec, to_luma, extract_region};
use crate::contrast::{ContrastFactor, contrast_color_spec, adjust_contrast};
use crate::ncc::{
    MAX_TEMPLATE_AREA, TemplateStats, ncc_spec, normalized_cross_correlation, template_stats,
};

verus! {

/// The best candidate found by a search: the offset of the template's
/// top-left corner in the searched image, and its fixed-point NCC score.
#[derive(Clone, Copy, PartialEq, Eq, Structural, Debug)]
pub struct MatchResult {
    pub x: usize,
    pub y: usize,
    pub score: i128,
}

/// Why a search was refused before any pixel was compared. Each variant
/// carries the dimensions of both sides for diagnostics.
#[derive(Clone, Copy, PartialEq, Eq, Structural, Debug)]
pub enum SearchError {
    /// The template is wider or taller than the searched image.
    TemplateLargerThanTarget { template_w: usize, template_h: usize, target_w: usize, target_h: usize },
    /// The requested search rectangle is too small to contain the template.
    AreaSmallerThanTemplate { template_w: usize, template_h: usize, area_w: usize, area_h: usize },
    /// The requested search rectangle reaches beyond the captured image.
    AreaExceedsBounds { area_x: usize, area_y: usize, area_w: usize, area_h: usize, target_w: usize, target_h: usize },
}

/// An explicit sub-rectangle of a captured image to restrict a search to.
#[derive(Clone, Copy, PartialEq, Eq, Structural, Debug)]
pub struct SearchRect {
    pub x: usize,
    pub y: usize,
    pub width: usize,
    pub height: usize,
}

/// The NCC score of the template placed at offset `(x, y)` of the image.
pub open spec fn score_at(
    img: Seq<u8>,
    img_w: int,
    t: Seq<u8>,
    tw: int,
    th: int,
    x: int,
    y: int,
) -> int {
    ncc_spec(region_spec(img, img_w, x, y, tw, th), t)
}

/// `(x1, y1)` comes before `(x2, y2)` in row-major scan order.
pub open spec fn row_major_before(x1: int, y1: int, x2: int, y2: int) -> bool {
    y1 < y2 || (y1 == y2 && x1 < x2)
}

/// What one finished scan over the first `k` rows of candidate offsets
/// guarantees about a reported match `m`:
/// `m` is the first row-major offset attaining the maximum score among those
/// rows, and the scan stopped short of all `img_h − th + 1` rows only when
/// that maximum beat the early-exit threshold, at the earliest row where any
/// offset beat it.
pub open spec fn scan_ok(
    img: Seq<u8>,
    img_w: int,
    img_h: int,
    t: Seq<u8>,
    tw: int,
    th: int,
    threshold: int,
    k: int,
    m: MatchResult,
) -> bool {
    let nc = img_w - tw + 1;
    let nr = img_h - th + 1;
    &&& 1 <= k <= nr
    &&& 0 <= m.x < nc
    &&& 0 <= m.y < k
    &&& m.score == score_at(img, img_w, t, tw, th, m.x as int, m.y as int)
    &&& forall|xx: int, yy: int|
        0 <= xx < nc && 0 <= yy < k ==> #[trigger] score_at(img, img_w, t, tw, th, xx, yy)
            <= m.score
    &&& forall|xx: int, yy: int|
        0 <= xx < nc && 0 <= yy < k && row_major_before(xx, yy, m.x as int, m.y as int)
            ==> #[trigger] score_at(img, img_w, t, tw, th, xx, yy) < m.score
    &&& (k < nr ==> exists|xx: int, yy: int|
        0 <= xx < nc && 0 <= yy < k && #[trigger] score_at(img, img_w, t, tw, th, xx, yy)
            > threshold)
    &&& forall|xx: int, yy: int|
        0 <= xx < nc && 0 <= yy < k - 1 ==> #[trigger] score_at(img, img_w, t, tw, th, xx, yy)
            <= threshold
}

/// Everything the search promises of a returned match: `scan_ok` holds for
/// the number of rows the scan actually covered.
pub open spec fn match_outcome(
    img: Seq<u8>,
    img_w: int,
    img_h: int,
    t: Seq<u8>,
    tw: int,
    th: int,
    threshold: int,
    m: MatchResult,
) -> bool {
    exists|k: int| #[trigger] scan_ok(img, img_w, img_h, t, tw, th, threshold, k, m)
}

/// Score every candidate offset of one row and return the first offset
/// attaining the row's maximum score, with that score.
pub fn best_in_row(img: &GrayImage, template: &GrayImage, stats: &TemplateStats, y: usize) -> (r: (
    usize,
    i128,
))
    requires
        img.wf(),
        template.wf(),
        1 <= template.width <= img.width,
        1 <= template.height,
        template.width * template.height <= MAX_TEMPLATE_AREA,
        stats.matches(template.pixels@),
        y + template.height <= img.height,
    ensures
        r.0 <= img.width - template.width,
        -crate::ncc::SCORE_SCALE <= r.1 <= crate::ncc::SCORE_SCALE,
        r.1 == score_at(
            img.pixels@,
            img.width as int,
            template.pixels@,
            template.width as int,
            template.height as int,
            r.0 as int,
            y as int,
        ),
        forall|xx: int|
            0 <= xx <= img.width - template.width ==> #[trigger] score_at(
                img.pixels@,
                img.width as int,
                template.pixels@,
                template.width as int,
                template.height as int,
                xx,
                y as int,
            ) <= r.1,
        forall|xx: int|
            0 <= xx < r.0 ==> #[trigger] score_at(
                img.pixels@,
                img.width as int,
                template.pixels@,
                template.width as int,
                template.height as int,
                xx,
                y as int,
            ) < r.1,
{
    let nc = img.width - template.width + 1;
    proof {
        assert((template.width as int) * (template.height as int) >= 1) by (nonlinear_arith)
            requires
                (template.width as int) >= 1,
                (template.height as int) >= 1,
        ;
    }
    let region0 = extract_region(img, 0, y, template.width, template.height);
    let mut best_x: usize = 0;
    let mut best_score: i128 = normalized_cross_correlation(&region0, &template.pixels, stats);
    let mut x: usize = 1;
    while x < nc
        invariant
            1 <= x <= nc,
            nc == img.width - template.width + 1,
            img.wf(),
            template.wf(),
            1 <= template.width <= img.width,
            1 <= template.height,
            template.width * template.height <= MAX_TEMPLATE_AREA,
            stats.matches(template.pixels@),
            y + template.height <= img.height,
            best_x < x,
            -crate::ncc::SCORE_SCALE <= best_score <= crate::ncc::SCORE_SCALE,
            best_score == score_at(
                img.pixels@,
                img.width as int,
                template.pixels@,
                template.width as int,
                template.height as int,
                best_x as int,
                y as int,
            ),
            forall|xx: int|
                0 <= xx < x ==> #[trigger] score_at(
                    img.pixels@,
                    img.width as int,
                    template.pixels@,
                    template.width as int,
                    template.height as int,
                    xx,
                    y as int,
                ) <= best_score,
            forall|xx: int|
                0 <= xx < best_x ==> #[trigger] score_at(
                    img.pixels@,
                    img.width as int,
                    template.pixels@,
                    template.width as int,
                    template.height as int,
                    xx,
                    y as int,
                ) < best_score,
        decreases nc - x,
    {
        proof {
            assert((template.width as int) * (template.height as int) >= 1) by (nonlinear_arith)
                requires
                    (template.width as int) >= 1,
                    (template.height as int) >= 1,
            ;
        }
        let region = extract_region(img, x, y, template.width, template.height);
        let s = normalized_cross_correlation(&region, &template.pixels, stats);
        if s > best_score {
            best_x = x;
            best_score = s;
        }
        x = x + 1;
    }
    (best_x, best_score)
}

/// Slide the template over every valid offset of the grayscale image in
/// row-major order, scoring each offset, and return the best offset found.
/// After any row whose completion leaves the running best score strictly
/// above `threshold`, no further rows are scanned (early exit).
///
/// Returns `None` exactly when the template is wider or taller than the
/// image; otherwise the result satisfies `match_outcome`.
pub fn match_template(img: &GrayImage, template: &GrayImage, threshold: i128) -> (r: Option<
    MatchResult,
>)
    requires
        img.wf(),
        template.wf(),
        1 <= template.width,
        1 <= template.height,
        template.width * template.height <= MAX_TEMPLATE_AREA,
    ensures
        r is None <==> (template.width > img.width || template.height > img.height),
        r matches Some(m) ==> match_outcome(
            img.pixels@,
            img.width as int,
            img.height as int,
            template.pixels@,
            template.width as int,
            template.height as int,
            threshold as int,
            m,
        ),
        r matches Some(m) ==> m.x + template.width <= img.width && m.y + template.height
            <= img.height,
        r matches Some(m) ==> -crate::ncc::SCORE_SCALE <= m.score <= crate::ncc::SCORE_SCALE,
{
    if template.width > img.width || template.height > img.height {
        return None;
    }
    let stats = template_stats(&template.pixels);
    let nr = img.height - template.height + 1;
    let (first_x, first_score) = best_in_row(img, template, &stats, 0);
    let mut best_x = first_x;
    let mut best_y: usize = 0;
    let mut best_score = first_score;
    let mut row: usize = 1;
    while row < nr && best_score <= threshold
        invariant
            1 <= row <= nr,
            nr == img.height - template.height + 1,
            img.wf(),
            template.wf(),
            1 <= template.width <= img.width,
            1 <= template.height <= img.height,
            template.width * template.height <= MAX_TEMPLATE_AREA,
            stats.matches(template.pixels@),
            best_x <= img.width - template.width,
            best_y < row,
            -crate::ncc::SCORE_SCALE <= best_score <= crate::ncc::SCORE_SCALE,
            best_score == score_at(
                img.pixels@,
                img.width as int,
                template.pixels@,
                template.width as int,
                template.height as int,
                best_x as int,
                best_y as int,
            ),
            forall|xx: int, yy: int|
                0 <= xx <= img.width - template.width && 0 <= yy < row ==> #[trigger] score_at(
                    img.pixels@,
                    img.width as int,
                    template.pixels@,
                    template.width as int,
                    template.height as int,
                    xx,
                    yy,
                ) <= best_score,
            forall|xx: int, yy: int|
                0 <= xx <= img.width - template.width && 0 <= yy < row && row_major_before(
                    xx,
                    yy,
                    best_x as int,
                    best_y as int,
                ) ==> #[trigger] score_at(
                    img.pixels@,
                    img.width as int,
                    template.pixels@,
                    template.width as int,
                    template.height as int,
                    xx,
                    yy,
                ) < best_score,
            forall|xx: int, yy: int|
                0 <= xx <= img.width - template.width && 0 <= yy < row - 1 ==> #[trigger] score_at(
                    img.pixels@,
                    img.width as int,
                    template.pixels@,
                    template.width as int,
                    template.height as int,
                    xx,
                    yy,
                ) <= threshold,
        decreases nr - row,
    {
        let (row_x, row_score) = best_in_row(img, template, &stats, row);
        if row_score > best_score {
            best_x = row_x;
            best_y = row;
            best_score = row_score;
        }
        row = row + 1;
    }
    let m = MatchResult { x: best_x, y: best_y, score: best_score };
    proof {
        assert(scan_ok(
            img.pixels@,
            img.width as int,
            img.height as int,
            template.pixels@,
            template.width as int,
            template.height as int,
            threshold as int,
            row as int,
            m,
        ));
    }
    Some(m)
}

/// A color buffer after the whole preprocessing chain: contrast stretch,
/// then grayscale reduction.
pub open spec fn preprocessed(s: Seq<u8>, num: int, den: int) -> Seq<u8> {
    gray_of_color(contrast_color_spec(s, num, den))
}

/// Search the whole captured image for the template. Both images run through
/// the contrast stretch and the grayscale reduction before correlation.
///
/// Fails exactly when the template is wider or taller than the target; no
/// comparison is performed then.
pub fn find_template(
    target: &ColorImage,
    template: &ColorImage,
    factor: &ContrastFactor,
    threshold: i128,
) -> (r: Result<MatchResult, SearchError>)
    requires
        target.wf(),
        template.wf(),
        factor.wf(),
        1 <= template.width,
        1 <= template.height,
        template.width * template.height <= MAX_TEMPLATE_AREA,
    ensures
        r is Err <==> (template.width > target.width || template.height > target.height),
        r matches Err(e) ==> e == (SearchError::TemplateLargerThanTarget {
            template_w: template.width,
            template_h: template.height,
            target_w: target.width,
            target_h: target.height,
        }),
        r matches Ok(m) ==> match_outcome(
            preprocessed(target.pixels@, factor.num as int, factor.den as int),
            target.width as int,
            target.height as int,
            preprocessed(template.pixels@, factor.num as int, factor.den as int),
            template.width as int,
            template.height as int,
            threshold as int,
            m,
        ),
        r matches Ok(m) ==> m.x + template.width <= target.width && m.y + template.height
            <= target.height,
{
    if template.width > target.width || template.height > target.height {
        return Err(
            SearchError::TemplateLargerThanTarget {
                template_w: template.width,
                template_h: template.height,
                target_w: target.width,
                target_h: target.height,
            },
        );
    }
    let target_adj = adjust_contrast(target, factor);
    let template_adj = adjust_contrast(template, factor);
    let target_gray = to_luma(&target_adj);
    let template_gray = to_luma(&template_adj);
    match match_template(&target_gray, &template_gray, threshold) {
        Some(m) => Ok(m),
        None => {
            assert(false);
            Err(
                SearchError::TemplateLargerThanTarget {
                    template_w: template.width,
                    template_h: template.height,
                    target_w: target.width,
                    target_h: target.height,
                },
            )
        },
    }
}

/// Search only inside the rectangle `rect` of the captured image.
///
/// The rectangle must be large enough to contain the template and must lie
/// entirely inside the target; each violation is reported as its own error,
/// checked in that order, and no comparison is performed then. On success the
/// returned offset is translated back into the full image's coordinates.
pub fn find_template_cut(
    target: &ColorImage,
    template: &ColorImage,
    rect: &SearchRect,
    factor: &ContrastFactor,
    threshold: i128,
) -> (r: Result<MatchResult, SearchError>)
    requires
        target.wf(),
        template.wf(),
        factor.wf(),
        1 <= template.width,
        1 <= template.height,
        template.width * template.height <= MAX_TEMPLATE_AREA,
    ensures
        (rect.width < template.width || rect.height < template.height) <==> r == Err::<
            MatchResult,
            SearchError,
        >(
            SearchError::AreaSmallerThanTemplate {
                template_w: template.width,
                template_h: template.height,
                area_w: rect.width,
                area_h: rect.height,
            },
        ),
        !(rect.width < template.width || rect.height < template.height) && (rect.x + rect.width
            > target.width || rect.y + rect.height > target.height) <==> r == Err::<
            MatchResult,
            SearchError,
        >(
            SearchError::AreaExceedsBounds {
                area_x: rect.x,
                area_y: rect.y,
                area_w: rect.width,
                area_h: rect.height,
                target_w: target.width,
                target_h: target.height,
            },
        ),
        r is Ok <==> !(rect.width < template.width || rect.height < template.height) && !(rect.x
            + rect.width > target.width || rect.y + rect.height > target.height),
        r matches Ok(m) ==> rect.x <= m.x && rect.y <= m.y && m.x + template.width <= rect.x
            + rect.width && m.y + template.height <= rect.y + rect.height,
        r matches Ok(m) ==> match_outcome(
            region_spec(
                preprocessed(target.pixels@, factor.num as int, factor.den as int),
                target.width as int,
                rect.x as int,
                rect.y as int,
                rect.width as int,
                rect.height as int,
            ),
            rect.width as int,
            rect.height as int,
            preprocessed(template.pixels@, factor.num as int, factor.den as int),
            template.width as int,
            template.height as int,
            threshold as int,
            (MatchResult { x: (m.x - rect.x) as usize, y: (m.y - rect.y) as usize, score: m.score }),
        ),
{
    if rect.width < template.width || rect.height < template.height {
        return Err(
            SearchError::AreaSmallerThanTemplate {
                template_w: template.width,
                template_h: template.height,
                area_w: rect.width,
                area_h: rect.height,
            },
        );
    }
    if rect.width > target.width || rect.x > target.width - rect.width || rect.height
        > target.height || rect.y > target.height - rect.height {
        return Err(
            SearchError::AreaExceedsBounds {
                area_x: rect.x,
                area_y: rect.y,
                area_w: rect.width,
                area_h: rect.height,
                target_w: target.width,
                target_h: target.height,
            },
        );
    }
    let target_adj = adjust_contrast(target, factor);
    let template_adj = adjust_contrast(template, factor);
    let target_gray = to_luma(&target_adj);
    let template_gray = to_luma(&template_adj);
    let cropped_pixels = extract_region(&target_gray, rect.x, rect.y, rect.width, rect.height);
    let cropped = GrayImage { width: rect.width, height: rect.height, pixels: cropped_pixels };
    proof {
        assert((rect.width as int) * (rect.height as int) == (rect.height as int) * (
        rect.width as int)) by (nonlinear_arith);
    }
    match match_template(&cropped, &template_gray, threshold) {
        Some(m0) => Ok(
            MatchResult { x: rect.x + m0.x, y: rect.y + m0.y, score: m0.score },
        ),
        None => {
            assert(false);
            Err(
                SearchError::AreaSmallerThanTemplate {
                    template_w: template.width,
                    template_h: template.height,
                    area_w: rect.width,
                    area_h: rect.height,
                },
            )
        },
    }
}

/// The number of scanned rows admitted by `scan_ok` is unique: a scan stops
/// after the earliest row at which the threshold was beaten, or covers all
/// rows when it never was.
proof fn lemma_scan_rows_unique(
    img: Seq<u8>,
    img_w: int,
    img_h: int,
    t: Seq<u8>,
    tw: int,
    th: int,
    threshold: int,
    k1: int,
    k2: int,
    m1: MatchResult,
    m2: MatchResult,
)
    requires
        scan_ok(img, img_w, img_h, t, tw, th, threshold, k1, m1),
        scan_ok(img, img_w, img_h, t, tw, th, threshold, k2, m2),
    ensures
        k1 == k2,
{
    let nr = img_h - th + 1;
    if k1 < k2 {
        assert(k1 < nr);
        let (wx, wy) = choose|xx: int, yy: int|
            0 <= xx < img_w - tw + 1 && 0 <= yy < k1 && #[trigger] score_at(
                img,
                img_w,
                t,
                tw,
                th,
                xx,
                yy,
            ) > threshold;
        assert(wy < k2 - 1);
        assert(score_at(img, img_w, t, tw, th, wx, wy) <= threshold);
        assert(false);
    }
    if k2 < k1 {
        assert(k2 < nr);
        let (wx, wy) = choose|xx: int, yy: int|
            0 <= xx < img_w - tw + 1 && 0 <= yy < k2 && #[trigger] score_at(
                img,
                img_w,
                t,
                tw,
                th,
                xx,
                yy,
            ) > threshold;
        assert(wy < k1 - 1);
        assert(score_at(img, img_w, t, tw, th, wx, wy) <= threshold);
        assert(false);
    }
}

/// Identical inputs determine the search outcome completely: any two results
/// the search contract admits for the same image, template and threshold are
/// equal in offset and score. Hence two runs of the search on identical
/// inputs report the identical best offset and score.
pub proof fn lemma_search_deterministic(
    img: Seq<u8>,
    img_w: int,
    img_h: int,
    t: Seq<u8>,
    tw: int,
    th: int,
    threshold: int,
    m1: MatchResult,
    m2: MatchResult,
)
    requires
        match_outcome(img, img_w, img_h, t, tw, th, threshold, m1),
        match_outcome(img, img_w, img_h, t, tw, th, threshold, m2),
    ensures
        m1 == m2,
{
    let k1 = choose|k: int| #[trigger] scan_ok(img, img_w, img_h, t, tw, th, threshold, k, m1);
    let k2 = choose|k: int| #[trigger] scan_ok(img, img_w, img_h, t, tw, th, threshold, k, m2);
    lemma_scan_rows_unique(img, img_w, img_h, t, tw, th, threshold, k1, k2, m1, m2);
    assert(score_at(img, img_w, t, tw, th, m1.x as int, m1.y as int) <= m2.score);
    assert(score_at(img, img_w, t, tw, th, m2.x as int, m2.y as int) <= m1.score);
    assert(m1.score == m2.score);
    if row_major_before(m1.x as int, m1.y as int, m2.x as int, m2.y as int) {
        assert(score_at(img, img_w, t, tw, th, m1.x as int, m1.y as int) < m2.score);
        assert(false);
    }
    if row_major_before(m2.x as int, m2.y as int, m1.x as int, m1.y as int) {
        assert(score_at(img, img_w, t, tw, th, m2.x as int, m2.y as int) < m1.score);
        assert(false);
    }
    assert(m1.x == m2.x && m1.y == m2.y);
}

/// When some offset beats the early-exit threshold, the reported score beats
/// it too, whether or not the scan exited early.
pub proof fn lemma_reported_score_beats_threshold(
    img: Seq<u8>,
    img_w: int,
    img_h: int,
    t: Seq<u8>,
    tw: int,
    th: int,
    threshold: int,
    wx: int,
    wy: int,
    m: MatchResult,
)
    requires
        match_outcome(img, img_w, img_h, t, tw, th, threshold, m),
        0 <= wx <= img_w - tw,
        0 <= wy <= img_h - th,
        score_at(img, img_w, t, tw, th, wx, wy) > threshold,
    ensures
        m.score > threshold,
{
    let k = choose|k: int| #[trigger] scan_ok(img, img_w, img_h, t, tw, th, threshold, k, m);
    let nr = img_h - th + 1;
    if k == nr {
        assert(score_at(img, img_w, t, tw, th, wx, wy) <= m.score);
    } else {
        let (ex, ey) = choose|xx: int, yy: int|
            0 <= xx < img_w - tw + 1 && 0 <= yy < k && #[trigger] score_at(
                img,
                img_w,
                t,
                tw,
                th,
                xx,
                yy,
            ) > threshold;
        assert(score_at(img, img_w, t, tw, th, ex, ey) <= m.score);
    }
}

/// When no offset beats the threshold, the scan covers every row, so the
/// reported score is the global maximum over all candidate offsets: the early
/// exit never affects the reported maximum when it does not fire.
pub proof fn lemma_no_early_exit_global_max(
    img: Seq<u8>,
    img_w: int,
    img_h: int,
    t: Seq<u8>,
    tw: int,
    th: int,
    threshold: int,
    m: MatchResult,
)
    requires
        match_outcome(img, img_w, img_h, t, tw, th, threshold, m),
        forall|xx: int, yy: int|
            0 <= xx <= img_w - tw && 0 <= yy <= img_h - th ==> #[trigger] score_at(
                img,
                img_w,
                t,
                tw,
                th,
                xx,
                yy,
            ) <= threshold,
    ensures
        m.score == score_at(img, img_w, t, tw, th, m.x as int, m.y as int),
        0 <= m.x <= img_w - tw,
        0 <= m.y <= img_h - th,
        forall|xx: int, yy: int|
            0 <= xx <= img_w - tw && 0 <= yy <= img_h - th ==> #[trigger] score_at(
                img,
                img_w,
                t,
                tw,
                th,
                xx,
                yy,
            ) <= m.score,
{
    let k = choose|k: int| #[trigger] scan_ok(img, img_w, img_h, t, tw, th, threshold, k, m);
    let nr = img_h - th + 1;
    if k < nr {
        let (ex, ey) = choose|xx: int, yy: int|
            0 <= xx < img_w - tw + 1 && 0 <= yy < k && #[trigger] score_at(
                img,
                img_w,
                t,
                tw,
                th,
                xx,
                yy,
            ) > threshold;
        assert(score_at(img, img_w, t, tw, th, ex, ey) <= threshold);
        assert(false);
    }
}

/// A template that occurs verbatim at offset `(wx, wy)` and is not flat
/// scores the full scale there; when the early-exit threshold is at least
/// `min_score`, the reported score is therefore at least `min_score`.
pub proof fn lemma_self_match(
    img: Seq<u8>,
    img_w: int,
    img_h: int,
    t: Seq<u8>,
    tw: int,
    th: int,
    threshold: int,
    wx: int,
    wy: int,
    min_score: int,
    m: MatchResult,
)
    requires
        match_outcome(img, img_w, img_h, t, tw, th, threshold, m),
        0 <= wx <= img_w - tw,
        0 <= wy <= img_h - th,
        region_spec(img, img_w, wx, wy, tw, th) == t,
        crate::ncc::den_sq_of(t) != 0,
        min_score <= threshold,
        min_score <= crate::ncc::SCORE_SCALE,
    ensures
        m.score >= min_score,
{
    crate::ncc::lemma_ncc_self(t);
    assert(score_at(img, img_w, t, tw, th, wx, wy) == crate::ncc::SCORE_SCALE);
    let k = choose|k: int| #[trigger] scan_ok(img, img_w, img_h, t, tw, th, threshold, k, m);
    let nr = img_h - th + 1;
    if k == nr {
        assert(score_at(img, img_w, t, tw, th, wx, wy) <= m.score);
    } else {
        let (ex, ey) = choose|xx: int, yy: int|
            0 <= xx < img_w - tw + 1 && 0 <= yy < k && #[trigger] score_at(
                img,
                img_w,
                t,
                tw,
                th,
                xx,
                yy,
            ) > threshold;
        assert(score_at(img, img_w, t, tw, th, ex, ey) <= m.score);
    }
}

/// With a threshold at or above the full scale, no score can beat it, so the
/// scan covers every offset; a template that occurs verbatim somewhere and is
/// not flat then makes the reported score exactly the full scale, and the
/// reported offset is itself a perfect correlate of the template.
pub proof fn lemma_self_match_full_scan(
    img: Seq<u8>,
    img_w: int,
    img_h: int,
    t: Seq<u8>,
    tw: int,
    th: int,
    threshold: int,
    wx: int,
    wy: int,
    m: MatchResult,
)
    requires
        match_outcome(img, img_w, img_h, t, tw, th, threshold, m),
        0 <= wx <= img_w - tw,
        0 <= wy <= img_h - th,
        0 <= tw,
        0 <= th,
        t.len() == tw * th,
        region_spec(img, img_w, wx, wy, tw, th) == t,
        crate::ncc::den_sq_of(t) != 0,
        threshold >= crate::ncc::SCORE_SCALE,
    ensures
        m.score == crate::ncc::SCORE_SCALE,
        score_at(img, img_w, t, tw, th, m.x as int, m.y as int) == crate::ncc::SCORE_SCALE,
{
    crate::ncc::lemma_ncc_self(t);
    assert(score_at(img, img_w, t, tw, th, wx, wy) == crate::ncc::SCORE_SCALE);
    assert forall|xx: int, yy: int|
        0 <= xx <= img_w - tw && 0 <= yy <= img_h - th implies #[trigger] score_at(
        img,
        img_w,
        t,
        tw,
        th,
        xx,
        yy,
    ) <= threshold by {
        crate::ncc::lemma_ncc_spec_range(region_spec(img, img_w, xx, yy, tw, th), t);
    }
    lemma_no_early_exit_global_max(img, img_w, img_h, t, tw, th, threshold, m);
    assert(score_at(img, img_w, t, tw, th, wx, wy) <= m.score);
    crate::ncc::lemma_ncc_spec_range(
        region_spec(img, img_w, m.x as int, m.y as int, tw, th),
        t,
    );
}

/// A template whose pixels are all one value is flat, so every offset scores
/// exactly zero against it, per the zero-spread rule of the scorer.
pub proof fn lemma_flat_template_scores_zero(
    img: Seq<u8>,
    img_w: int,
    t: Seq<u8>,
    tw: int,
    th: int,
    x: int,
    y: int,
)
    requires
        forall|i: int, j: int| 0 <= i < t.len() && 0 <= j < t.len() ==> t[i] == t[j],
    ensures
        score_at(img, img_w, t, tw, th, x, y) == 0,
{
    crate::ncc::lemma_flat_den_sq_zero(t);
}

} // verus!
