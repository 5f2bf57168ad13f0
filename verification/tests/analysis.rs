use kurv::analysis::{HarmonicMask, HARMONIC_MASK_BINS, HARMONIC_MASK_WORDS, MAX_PITCH_FAMILIES};

#[test]
fn harmonic_mask_is_bounded_and_bit_exact() {
    let mut mask = HarmonicMask::default();
    mask.set(0, true);
    mask.set(127, true);
    mask.set(HARMONIC_MASK_BINS, true);
    assert!(mask.is_tonal(0));
    assert!(mask.is_tonal(127));
    assert!(!mask.is_tonal(HARMONIC_MASK_BINS));
    mask.set(127, false);
    assert!(!mask.is_tonal(127));
    // The tonal weight of a bin is one when it is tonal and zero otherwise.
    let weight: f32 = if mask.is_tonal(0) { 1.0 } else { 0.0 };
    assert_eq!(weight, 1.0);
}

#[test]
fn mask_set_reads_back_without_touching_neighbours() {
    let mut mask = HarmonicMask::default();
    for bin in [1usize, 63, 64, 65, 4095] {
        mask.set(bin, true);
    }
    for bin in 0..HARMONIC_MASK_BINS {
        let expected = matches!(bin, 1 | 63 | 64 | 65 | 4095);
        assert_eq!(mask.is_tonal(bin), expected, "bin {bin}");
    }
    mask.set(64, false);
    assert!(mask.is_tonal(63));
    assert!(!mask.is_tonal(64));
    assert!(mask.is_tonal(65));
}

#[test]
fn cleared_mask_has_no_tonal_bin() {
    let mut mask = HarmonicMask::default();
    mask.set(10, true);
    mask.set(4000, true);
    mask.clear();
    assert!((0..HARMONIC_MASK_BINS).all(|bin| !mask.is_tonal(bin)));
    assert_eq!(mask, HarmonicMask::default());
}

#[test]
fn mask_sizes() {
    assert_eq!(HARMONIC_MASK_WORDS, 64);
    assert_eq!(HARMONIC_MASK_BINS, 4096);
    assert_eq!(MAX_PITCH_FAMILIES, 8);
    assert!(!HarmonicMask::default().is_tonal(usize::MAX));
}

use kurv::analysis::rank_pitch_candidates;

#[test]
fn candidates_are_ranked_best_first_and_capped() {
    assert_eq!(rank_pitch_candidates(&[]), Vec::<usize>::new());
    assert_eq!(rank_pitch_candidates(&[5, 9, 1]), vec![1, 0, 2]);
    // Equal scores keep their original order.
    assert_eq!(rank_pitch_candidates(&[3, 7, 3, 7]), vec![1, 3, 0, 2]);
    let scores: Vec<u32> = (0..12).collect();
    assert_eq!(rank_pitch_candidates(&scores), vec![11, 10, 9, 8, 7, 6, 5, 4]);
    let flat = [4u32; 10];
    assert_eq!(rank_pitch_candidates(&flat), vec![0, 1, 2, 3, 4, 5, 6, 7]);
    let floats = [0.5f32, 2.0, 1.25, 0.001].map(f32::to_bits);
    assert_eq!(rank_pitch_candidates(&floats), vec![1, 2, 0, 3]);
}
