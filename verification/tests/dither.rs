use catprinterd::render::dither::{atkinson, mean_threshold, quantize_16, threshold};

#[test]
fn threshold_and_mean() {
    let g = [0u8, 100, 179, 180, 255];
    assert_eq!(threshold(&g, 180), vec![true, true, true, false, false]);
    assert_eq!(mean_threshold(&g), vec![true, true, false, false, false]);
}

#[test]
fn quantize_bins_match_maikel() {
    assert_eq!(quantize_16(&[0, 15, 16, 255]), vec![15, 15, 14, 0]);
}

#[test]
fn atkinson_solid_blocks_are_solid() {
    let w = 16;
    let h = 4;
    let mut g = vec![255u8; w * h];
    for v in g.iter_mut().take(w) {
        *v = 0;
    }
    let bits = atkinson(&g, w, h);
    assert!(bits[..w].iter().all(|&b| b));
    assert!(bits[w..].iter().all(|&b| !b));
}
