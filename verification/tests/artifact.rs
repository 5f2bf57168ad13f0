use kurv::artifact::{reflected_index, RICH_ZONE_SAMPLES, LEGACY_RICH_ZONE_SAMPLES, GRAIN_LAYERS};

#[test]
fn reflection_mirrors_about_the_end_samples() {
    assert_eq!(reflected_index(5, 0), 0);
    assert_eq!(reflected_index(-3, 1), 0);
    let expected = [
        (-5, 3), (-4, 4), (-3, 3), (-2, 2), (-1, 1), (0, 0), (1, 1), (4, 4), (5, 3), (7, 1),
        (8, 0), (9, 1), (13, 3), (16, 0),
    ];
    for (index, position) in expected {
        assert_eq!(reflected_index(index, 5), position, "index {index}");
    }
    for index in -40..40 {
        assert!(reflected_index(index, 5) < 5);
        assert_eq!(reflected_index(-index, 5), reflected_index(index, 5));
        assert_eq!(reflected_index(index + 8, 5), reflected_index(index, 5));
    }
    assert_eq!(reflected_index(isize::MIN, 2), 0);
    assert_eq!(reflected_index(isize::MAX, 2), 1);
}

#[test]
fn artifact_sizes() {
    assert_eq!(RICH_ZONE_SAMPLES, 32 * 4096);
    assert_eq!(LEGACY_RICH_ZONE_SAMPLES, 8 * 4096);
    assert_eq!(GRAIN_LAYERS, 8);
}

use kurv::artifact::{
    decimated_len, grain_source_stride, rich_timeline_plan, sample_loop_receipt_is_valid,
    GRAIN_MAX_SOURCE_FRAMES, RICH_FRAME_COUNT, RICH_FRAME_SAMPLES,
};

#[test]
fn rich_timeline_covers_long_sources_in_order() {
    let plan = rich_timeline_plan(65_536, 48_000);
    assert_eq!(plan.stride, 1);
    assert_eq!(plan.span, RICH_FRAME_SAMPLES);
    assert_eq!(plan.boundaries.len(), RICH_FRAME_COUNT + 1);
    assert_eq!(plan.boundaries[0], 0);
    assert_eq!(plan.boundaries[RICH_FRAME_COUNT], 65_536);
    assert!(plan.boundaries.windows(2).all(|pair| pair[0] <= pair[1]));
    assert_eq!(plan.starts.len(), RICH_FRAME_COUNT);
    assert_eq!(plan.starts[0], 0);
    assert_eq!(plan.starts[RICH_FRAME_COUNT - 1], 65_536 - 4_096);
    assert!(plan.starts.iter().all(|start| start + plan.span <= 65_536));
}

#[test]
fn rich_timeline_splits_short_sources_evenly() {
    let plan = rich_timeline_plan(4_096, 48_000);
    assert_eq!(plan.span, 128);
    assert_eq!(plan.starts[1], 128);
    assert_eq!(plan.starts[31], 4_096 - 128);
    assert_eq!(rich_timeline_plan(8_192, 48_000).span, 4_096);
    let tiny = rich_timeline_plan(5, 96_000);
    assert_eq!(tiny.stride, 2);
    assert_eq!(tiny.span, 1);
    assert!(tiny.starts.iter().all(|start| *start < 5));
    let high_rate = rich_timeline_plan(1_000_000, 384_000);
    assert_eq!(high_rate.stride, 8);
    assert_eq!(high_rate.span, 4_096 * 8);
}

#[test]
fn sample_loop_receipts_must_describe_the_loop() {
    assert!(sample_loop_receipt_is_valid(100, 600, 1_000, 100, 500));
    assert!(!sample_loop_receipt_is_valid(100, 600, 1_000, 100, 499));
    assert!(!sample_loop_receipt_is_valid(500, 600, 1_000, 100, 500));
    assert!(!sample_loop_receipt_is_valid(0, 600, 0, 100, 500));
    assert!(!sample_loop_receipt_is_valid(0, 0, 10, 0, 0));
    assert!(!sample_loop_receipt_is_valid(0, 10, 10, 11, 0));
    assert!(!sample_loop_receipt_is_valid(usize::MAX, 2, usize::MAX, 1, 1));
    assert!(sample_loop_receipt_is_valid(0, 10, 10, 10, 0));
}

#[test]
fn grain_sources_are_decimated_within_capacity() {
    assert_eq!(decimated_len(10, 3), 4);
    assert_eq!(decimated_len(9, 3), 3);
    assert_eq!(decimated_len(0, 3), 0);
    assert_eq!(grain_source_stride(0), 1);
    assert_eq!(grain_source_stride(GRAIN_MAX_SOURCE_FRAMES), 1);
    assert_eq!(grain_source_stride(GRAIN_MAX_SOURCE_FRAMES + 1), 2);
    for len in [1, 1_000, GRAIN_MAX_SOURCE_FRAMES * 3 + 7, 8 * 1024 * 1024] {
        let stride = grain_source_stride(len);
        let kept = decimated_len(len, stride);
        assert!(kept <= GRAIN_MAX_SOURCE_FRAMES && kept >= 1, "len {len}");
    }
}
