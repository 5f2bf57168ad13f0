use kurv::resynth::ResynthAlgorithm;
use kurv::visual::{
    algorithm_visual_metadata, validate_visual_source, AlgorithmVisualKind,
    SampleLoopVisualMetadata, SourceVisualError,
};

#[test]
fn metadata_preserves_exact_three_algorithms() {
    assert_eq!(
        [
            ResynthAlgorithm::Sample,
            ResynthAlgorithm::Grain,
            ResynthAlgorithm::Rich
        ]
        .map(algorithm_visual_metadata)
        .iter()
        .map(|metadata| metadata.label)
        .collect::<Vec<_>>(),
        vec!["Sample", "Grain", "Rich"]
    );
}

#[test]
fn only_grain_is_unpitched() {
    let grain = algorithm_visual_metadata(ResynthAlgorithm::Grain);
    assert!(!grain.requires_root);
    assert!(grain.supports_unpitched_source);
    assert!(!grain.waveform_is_cyclic);
    assert_eq!(grain.visual_kind, AlgorithmVisualKind::GranularCloud);
    let rich = algorithm_visual_metadata(ResynthAlgorithm::Rich);
    assert!(rich.requires_root && rich.waveform_is_cyclic);
    assert_eq!(rich.visual_kind, AlgorithmVisualKind::HarmonicZones);
    assert_eq!(
        algorithm_visual_metadata(ResynthAlgorithm::Sample).visual_kind,
        AlgorithmVisualKind::SourceLoop
    );
}

#[test]
fn visual_source_checks_come_in_order() {
    assert_eq!(validate_visual_source(0, 1, false), Err(SourceVisualError::Empty));
    assert_eq!(validate_visual_source(10, 7999, false), Err(SourceVisualError::InvalidSampleRate));
    assert_eq!(validate_visual_source(10, 384_001, true), Err(SourceVisualError::InvalidSampleRate));
    assert_eq!(validate_visual_source(10, 48_000, false), Err(SourceVisualError::NonFinite));
    assert_eq!(validate_visual_source(10, 48_000, true), Ok(()));
    assert_eq!(validate_visual_source(1, 8_000, true), Ok(()));
    if usize::BITS > 32 {
        let too_many = u32::MAX as usize + 1;
        assert_eq!(validate_visual_source(too_many, 1, false), Err(SourceVisualError::TooManyFrames));
    }
}

#[test]
fn sample_loop_frame_bookkeeping_saturates() {
    let meta = SampleLoopVisualMetadata {
        source_start_frame: 100,
        source_span_frames: 50,
        source_total_frames: 0,
        crossfade_frames: 80,
    };
    assert_eq!(meta.end_frame(), 150);
    assert_eq!(meta.artifact_loop_frames(), 1);
    assert_eq!(meta.total_frames_nonzero(), 1);
    let wide = SampleLoopVisualMetadata {
        source_start_frame: u32::MAX - 1,
        source_span_frames: 10,
        source_total_frames: 9,
        crossfade_frames: 4,
    };
    assert_eq!(wide.end_frame(), u32::MAX);
    assert_eq!(wide.artifact_loop_frames(), 6);
    assert_eq!(wide.total_frames_nonzero(), 9);
}

use kurv::visual::{stft_frame_center, waveform_bucket, WaveBucket, SOURCE_STFT_FRAMES, SOURCE_WAVE_BINS};

#[test]
fn waveform_buckets_cover_every_sample_once() {
    for len in [1usize, 17, 255, 256, 257, 1_000, 48_000] {
        let mut covered = vec![0u32; len];
        for bin in 0..SOURCE_WAVE_BINS {
            match waveform_bucket(len, bin) {
                WaveBucket::Range { start, end } => {
                    assert!(start < end && end <= len);
                    for sample in &mut covered[start..end] {
                        *sample += 1;
                    }
                }
                WaveBucket::Single(index) => assert!(index < len),
            }
        }
        assert!(covered.iter().all(|count| *count == 1), "len {len}");
    }
    assert_eq!(waveform_bucket(17, SOURCE_WAVE_BINS - 1), WaveBucket::Range { start: 16, end: 17 });
    assert_eq!(waveform_bucket(17, 0), WaveBucket::Single(0));
}

#[test]
fn stft_frames_span_the_source() {
    assert_eq!(stft_frame_center(0, 1_000), 0);
    assert_eq!(stft_frame_center(SOURCE_STFT_FRAMES - 1, 1_000), 999);
    assert_eq!(stft_frame_center(10, 1), 0);
    assert_eq!(stft_frame_center(10, 0), 0);
    for frame in 0..SOURCE_STFT_FRAMES {
        assert!(stft_frame_center(frame, 2_047) < 2_047);
    }
}
