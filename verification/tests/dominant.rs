use audio_visualizer::dominant::dominant_bin;

#[test]
fn silence_falls_back_to_bin_one() {
    let magnitudes = vec![0u32; 16];
    let scores = vec![0u32; 16];
    assert_eq!(dominant_bin(&magnitudes, &scores), 1);
}

#[test]
fn empty_and_short_spectra_fall_back_to_bin_one() {
    assert_eq!(dominant_bin(&[], &[]), 1);
    assert_eq!(dominant_bin(&[9], &[9]), 1);
    assert_eq!(dominant_bin(&[9, 9], &[9, 9]), 1);
}

#[test]
fn single_peak_is_found() {
    let magnitudes = [1, 2, 5, 9, 4, 3, 1];
    let scores = [1, 2, 5, 9, 4, 3, 1];
    assert_eq!(dominant_bin(&magnitudes, &scores), 3);
}

#[test]
fn greatest_score_wins_among_peaks() {
    let magnitudes = [0, 5, 0, 8, 0, 6, 0];
    let scores = [0, 5, 0, 8, 0, 6, 0];
    assert_eq!(dominant_bin(&magnitudes, &scores), 3);
}

#[test]
fn score_decides_not_magnitude() {
    // Bin 5 is the louder peak, but its score has been weighted below bin 1's.
    let magnitudes = [0, 5, 0, 0, 0, 8, 0];
    let scores = [0, 4, 0, 0, 0, 3, 0];
    assert_eq!(dominant_bin(&magnitudes, &scores), 1);
}

#[test]
fn lowest_bin_wins_a_tie() {
    let magnitudes = [0, 7, 0, 7, 0, 7, 0];
    let scores = [0, 7, 0, 7, 0, 7, 0];
    assert_eq!(dominant_bin(&magnitudes, &scores), 1);
    let magnitudes = [3, 1, 7, 0, 7, 0];
    let scores = [3, 1, 6, 0, 6, 0];
    assert_eq!(dominant_bin(&magnitudes, &scores), 2);
}

#[test]
fn plateau_counts_as_peak_at_its_first_bin() {
    let magnitudes = [0, 4, 4, 4, 0];
    let scores = [0, 4, 4, 4, 0];
    assert_eq!(dominant_bin(&magnitudes, &scores), 1);
}

#[test]
fn edge_bins_are_never_chosen() {
    let magnitudes = [9, 1, 2, 3, 9];
    let scores = [9, 1, 2, 3, 9];
    // Neither bin 0 nor bin 4 has two neighbours; no inner bin is a peak.
    assert_eq!(dominant_bin(&magnitudes, &scores), 1);
    let magnitudes = [9, 1, 3, 2, 9];
    let scores = [9, 1, 3, 2, 9];
    assert_eq!(dominant_bin(&magnitudes, &scores), 2);
}

#[test]
fn peak_with_zero_score_is_ignored() {
    let magnitudes = [0, 5, 0, 3, 0];
    let scores = [0, 0, 0, 2, 0];
    assert_eq!(dominant_bin(&magnitudes, &scores), 3);
    let scores = [0, 0, 0, 0, 0];
    assert_eq!(dominant_bin(&magnitudes, &scores), 1);
}

#[test]
fn non_peak_with_high_score_is_ignored() {
    let magnitudes = [0, 1, 2, 3, 0];
    let scores = [0, 90, 80, 1, 0];
    assert_eq!(dominant_bin(&magnitudes, &scores), 3);
}

#[test]
fn float_bit_patterns_order_like_the_levels() {
    let levels = [0.0f32, 0.125, 0.5, 0.25, 0.0625, 0.75, 0.1];
    let count = levels.len() as f32;
    let magnitudes: Vec<u32> = levels.iter().map(|level| level.to_bits()).collect();
    let scores: Vec<u32> = levels
        .iter()
        .enumerate()
        .map(|(bin, level)| (level * (1.0 - (bin as f32 + 1.0) / count)).to_bits())
        .collect();
    // Bin 2 scores 0.5 * 4/7, bin 5 scores 0.75 * 1/7.
    assert_eq!(dominant_bin(&magnitudes, &scores), 2);
}
