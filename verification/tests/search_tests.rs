use template_search::contrast::ContrastFactor;
use template_search::img::{ColorImage, GrayImage};
use template_search::search::{
    find_template, find_template_cut, match_template, MatchResult, SearchError, SearchRect,
};

fn gray(width: usize, height: usize, pixels: Vec<u8>) -> GrayImage {
    assert_eq!(pixels.len(), width * height);
    GrayImage { width, height, pixels }
}

fn uniform_gray(width: usize, height: usize, v: u8) -> GrayImage {
    gray(width, height, vec![v; width * height])
}

fn color_of_gray(img: &GrayImage) -> ColorImage {
    let mut pixels = Vec::new();
    for &v in &img.pixels {
        pixels.push(v);
        pixels.push(v);
        pixels.push(v);
        pixels.push(255);
    }
    ColorImage { width: img.width, height: img.height, pixels }
}

fn identity_factor() -> ContrastFactor {
    ContrastFactor { num: 1, den: 1 }
}

/// A 100x100 mid-gray image with a 10x10 black square at (40, 60).
fn gray_with_black_square() -> GrayImage {
    let mut pixels = vec![128u8; 100 * 100];
    for y in 60..70 {
        for x in 40..50 {
            pixels[y * 100 + x] = 0;
        }
    }
    gray(100, 100, pixels)
}

fn crop(img: &GrayImage, x: usize, y: usize, w: usize, h: usize) -> GrayImage {
    let mut pixels = Vec::new();
    for yy in y..y + h {
        for xx in x..x + w {
            pixels.push(img.pixels[yy * img.width + xx]);
        }
    }
    gray(w, h, pixels)
}

#[test]
fn exact_submatch_is_found_with_perfect_score() {
    let mut target = uniform_gray(10, 10, 128);
    let pattern: [[u8; 3]; 3] = [[0, 30, 60], [90, 120, 150], [180, 210, 240]];
    for dy in 0..3 {
        for dx in 0..3 {
            target.pixels[(2 + dy) * 10 + (3 + dx)] = pattern[dy][dx];
        }
    }
    let template = crop(&target, 3, 2, 3, 3);
    let r = match_template(&target, &template, 2_000_000).expect("template fits");
    assert_eq!(r.x, 3);
    assert_eq!(r.y, 2);
    assert_eq!(r.score, 1_000_000);
    assert!(r.score >= 990_000);
}

#[test]
fn constant_template_scores_zero() {
    let target = uniform_gray(10, 10, 128);
    let template = uniform_gray(2, 2, 0);
    let r = match_template(&target, &template, 2_000_000).expect("template fits");
    assert_eq!(r, MatchResult { x: 0, y: 0, score: 0 });
}

#[test]
fn oversized_template_returns_no_result() {
    let target = uniform_gray(4, 6, 10);
    let too_wide = uniform_gray(5, 2, 10);
    let too_tall = uniform_gray(2, 7, 10);
    assert!(match_template(&target, &too_wide, 0).is_none());
    assert!(match_template(&target, &too_tall, 0).is_none());
}

#[test]
fn oversized_template_is_a_configuration_error() {
    let target = color_of_gray(&uniform_gray(4, 4, 9));
    let template = color_of_gray(&uniform_gray(6, 3, 9));
    let r = find_template(&target, &template, &identity_factor(), 950_000);
    assert_eq!(
        r,
        Err(SearchError::TemplateLargerThanTarget {
            template_w: 6,
            template_h: 3,
            target_w: 4,
            target_h: 4,
        })
    );
}

#[test]
fn region_beyond_captured_bounds_is_rejected() {
    let target = color_of_gray(&uniform_gray(12, 12, 50));
    let template = color_of_gray(&uniform_gray(2, 2, 50));
    let rect = SearchRect { x: 8, y: 8, width: 6, height: 6 };
    let r = find_template_cut(&target, &template, &rect, &identity_factor(), 950_000);
    assert_eq!(
        r,
        Err(SearchError::AreaExceedsBounds {
            area_x: 8,
            area_y: 8,
            area_w: 6,
            area_h: 6,
            target_w: 12,
            target_h: 12,
        })
    );
}

#[test]
fn region_smaller_than_template_is_rejected() {
    let target = color_of_gray(&uniform_gray(64, 64, 50));
    let template = color_of_gray(&uniform_gray(20, 20, 50));
    let rect = SearchRect { x: 0, y: 0, width: 10, height: 10 };
    let r = find_template_cut(&target, &template, &rect, &identity_factor(), 950_000);
    assert_eq!(
        r,
        Err(SearchError::AreaSmallerThanTemplate {
            template_w: 20,
            template_h: 20,
            area_w: 10,
            area_h: 10,
        })
    );
}

#[test]
fn search_is_idempotent_on_identical_inputs() {
    let target = gray_with_black_square();
    let template = crop(&target, 39, 59, 12, 12);
    let first = match_template(&target, &template, 950_000);
    let second = match_template(&target, &template, 950_000);
    assert_eq!(first, second);
}

#[test]
fn early_exit_reports_score_above_threshold() {
    // Row 0 correlates perfectly, so a low threshold stops the scan there.
    let target = gray(2, 3, vec![0, 255, 255, 0, 0, 255]);
    let template = gray(2, 1, vec![0, 255]);
    let r = match_template(&target, &template, 0).expect("template fits");
    assert_eq!(r, MatchResult { x: 0, y: 0, score: 1_000_000 });

    // With an unreachable threshold the scan covers every row and reports
    // the first row-major offset of the global maximum: the same offset.
    let full = match_template(&target, &template, 2_000_000).expect("template fits");
    assert_eq!(full, MatchResult { x: 0, y: 0, score: 1_000_000 });
}

#[test]
fn early_exit_keeps_scanning_while_scores_stay_low() {
    // Row 0 anti-correlates, row 1 correlates perfectly: the scan must move
    // past row 0 and report row 1.
    let target = gray(2, 2, vec![255, 0, 0, 255]);
    let template = gray(2, 1, vec![0, 255]);
    let r = match_template(&target, &template, 0).expect("template fits");
    assert_eq!(r, MatchResult { x: 0, y: 1, score: 1_000_000 });
}

#[test]
fn all_black_template_is_flat_and_scores_zero() {
    // The bare 10x10 black square is a flat sample: by the zero-spread rule
    // every offset scores exactly zero against it, including its own
    // location, so the search cannot single that location out.
    let target = gray_with_black_square();
    let template = uniform_gray(10, 10, 0);
    let r = match_template(&target, &template, 950_000).expect("template fits");
    assert_eq!(r, MatchResult { x: 0, y: 0, score: 0 });
}

#[test]
fn black_square_on_mid_gray_is_located() {
    let target = gray_with_black_square();
    // The template is the sub-region around the square's top-left corner,
    // taken one pixel out so it is not flat black.
    let template = crop(&target, 39, 59, 12, 12);
    let r = match_template(&target, &template, 2_000_000).expect("template fits");
    assert_eq!(r.x, 39);
    assert_eq!(r.y, 59);
    assert_eq!(r.score, 1_000_000);
    assert!(r.score > 950_000);
}

#[test]
fn region_restricted_search_translates_offsets() {
    let mut base = uniform_gray(20, 20, 100);
    let pattern: [[u8; 3]; 3] = [[5, 250, 5], [250, 5, 250], [5, 250, 40]];
    for dy in 0..3 {
        for dx in 0..3 {
            base.pixels[(13 + dy) * 20 + (12 + dx)] = pattern[dy][dx];
        }
    }
    let target = color_of_gray(&base);
    let template = color_of_gray(&crop(&base, 12, 13, 3, 3));
    let rect = SearchRect { x: 10, y: 10, width: 10, height: 10 };
    let r = find_template_cut(&target, &template, &rect, &identity_factor(), 2_000_000)
        .expect("rectangle is valid");
    assert_eq!(r.x, 12);
    assert_eq!(r.y, 13);
    assert_eq!(r.score, 1_000_000);
}

#[test]
fn whole_image_pipeline_finds_template() {
    let base = gray_with_black_square();
    let target = color_of_gray(&base);
    let template = color_of_gray(&crop(&base, 39, 59, 12, 12));
    // The same contrast stretch is applied to both sides, so the verbatim
    // occurrence still correlates perfectly.
    let factor = ContrastFactor { num: 3, den: 2 };
    let r = find_template(&target, &template, &factor, 2_000_000).expect("template fits");
    assert_eq!(r.x, 39);
    assert_eq!(r.y, 59);
    assert_eq!(r.score, 1_000_000);
}
