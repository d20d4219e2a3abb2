use template_search::contrast::{adjust_contrast, apply_contrast_to_channel, ContrastFactor};
use template_search::img::{to_luma, ColorImage};
use template_search::ncc::{isqrt, normalized_cross_correlation, template_stats};
use template_search::search::MatchResult;
use template_search::session::SessionState;

#[test]
fn luma_weights_channels() {
    let img = ColorImage {
        width: 3,
        height: 1,
        pixels: vec![255, 0, 0, 255, 0, 0, 255, 255, 10, 20, 30, 77],
    };
    let g = to_luma(&img);
    // 2126*255/10000 = 54, 722*255/10000 = 18,
    // (2126*10 + 7152*20 + 722*30)/10000 = 18.
    assert_eq!(g.pixels, vec![54, 18, 18]);
    assert_eq!(g.width, 3);
    assert_eq!(g.height, 1);
}

#[test]
fn luma_preserves_pure_gray() {
    for v in [0u8, 1, 127, 128, 254, 255] {
        let img = ColorImage { width: 1, height: 1, pixels: vec![v, v, v, 0] };
        assert_eq!(to_luma(&img).pixels, vec![v]);
    }
}

#[test]
fn contrast_stretch_formula() {
    let f = ContrastFactor { num: 3, den: 2 };
    // 128 + 1.5*(c-128), truncated and clamped.
    assert_eq!(apply_contrast_to_channel(200, &f), 236);
    assert_eq!(apply_contrast_to_channel(10, &f), 0);
    assert_eq!(apply_contrast_to_channel(128, &f), 128);
    assert_eq!(apply_contrast_to_channel(255, &f), 255);
    let half = ContrastFactor { num: 1, den: 2 };
    // 128 + 0.5*(c-128).
    assert_eq!(apply_contrast_to_channel(200, &half), 164);
    assert_eq!(apply_contrast_to_channel(0, &half), 64);
}

#[test]
fn contrast_identity_factor_changes_nothing() {
    let f = ContrastFactor { num: 1, den: 1 };
    for c in 0..=255u8 {
        assert_eq!(apply_contrast_to_channel(c, &f), c);
    }
}

#[test]
fn contrast_passes_alpha_through() {
    let img = ColorImage { width: 1, height: 1, pixels: vec![0, 128, 255, 7] };
    let f = ContrastFactor { num: 2, den: 1 };
    let out = adjust_contrast(&img, &f);
    assert_eq!(out.pixels, vec![0, 128, 255, 7]);
    assert_eq!(out.width, 1);
    assert_eq!(out.height, 1);
}

#[test]
fn ncc_signs_and_flat_regions() {
    let template = vec![0u8, 255];
    let stats = template_stats(&template);
    assert_eq!(normalized_cross_correlation(&vec![0, 255], &template, &stats), 1_000_000);
    assert_eq!(normalized_cross_correlation(&vec![255, 0], &template, &stats), -1_000_000);
    // A flat region has zero spread, so the score is defined as zero.
    assert_eq!(normalized_cross_correlation(&vec![7, 7], &template, &stats), 0);
    // A flat template likewise forces score zero.
    let flat = vec![9u8, 9];
    let flat_stats = template_stats(&flat);
    assert_eq!(normalized_cross_correlation(&vec![0, 255], &flat, &flat_stats), 0);
}

#[test]
fn ncc_intermediate_value() {
    // region [0, 255, 255, 0] against template [0, 255, 0, 0]:
    // num = 4*65025 - 510*255 = 130050, spreads 260100 and 195075,
    // sqrt(260100*195075) = 225250 (floor), score = 130050*1e6/225250.
    let template = vec![0u8, 255, 0, 0];
    let stats = template_stats(&template);
    let score = normalized_cross_correlation(&vec![0, 255, 255, 0], &template, &stats);
    assert_eq!(score, 577_350);
}

#[test]
fn template_stats_are_exact_sums() {
    let data = vec![1u8, 2, 3, 255];
    let s = template_stats(&data);
    assert_eq!(s.sum, 261);
    assert_eq!(s.sum_sq, 1 + 4 + 9 + 65025);
}

#[test]
fn isqrt_rounds_down() {
    assert_eq!(isqrt(0), 0);
    assert_eq!(isqrt(1), 1);
    assert_eq!(isqrt(3), 1);
    assert_eq!(isqrt(4), 2);
    assert_eq!(isqrt(15), 3);
    assert_eq!(isqrt(16), 4);
    assert_eq!(isqrt(65025 * 65025), 65025);
    assert_eq!(isqrt(u128::MAX), u64::MAX as u128);
}

#[test]
fn session_records_and_reads_back() {
    let mut s = SessionState::new();
    assert_eq!(s.find_x(), 0);
    assert_eq!(s.find_y(), 0);
    assert_eq!(s.find_score(), 0);
    assert_eq!(s.window_width(), 0);
    assert_eq!(s.window_height(), 0);
    s.record_window("editor".to_string(), 1440, 900);
    assert_eq!(s.window_width(), 1440);
    assert_eq!(s.window_height(), 900);
    assert_eq!(s.window_title, Some("editor".to_string()));
    s.record_template(32, 16);
    assert_eq!(s.template_size(), (32, 16));
    s.record_match(&MatchResult { x: 120, y: 45, score: 987_654 });
    assert_eq!(s.find_x(), 120);
    assert_eq!(s.find_y(), 45);
    assert_eq!(s.find_score(), 987_654);
    // The window record survives match updates.
    assert_eq!(s.window_width(), 1440);
}

#[test]
fn session_search_replaces_template_and_match_together() {
    let mut s = SessionState::new();
    s.record_window("game".to_string(), 800, 600);
    s.record_search(10, 12, &MatchResult { x: 3, y: 4, score: 999_999 });
    assert_eq!(s.template_size(), (10, 12));
    assert_eq!(s.find_x(), 3);
    assert_eq!(s.find_y(), 4);
    assert_eq!(s.find_score(), 999_999);
    s.record_search(7, 8, &MatchResult { x: 1, y: 2, score: 500_000 });
    assert_eq!(s.template_size(), (7, 8));
    assert_eq!(s.find_x(), 1);
    assert_eq!(s.find_y(), 2);
    assert_eq!(s.find_score(), 500_000);
    assert_eq!(s.window_width(), 800);
}
