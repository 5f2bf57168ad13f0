use kurv::artifact::ArtifactBuildError;
use kurv::resynth::{
    check_import_size, GrainDirection, ImportError, ResynthAlgorithm, ResynthControls,
    MAX_RESYNTH_SOURCE_BYTES, MAX_RESYNTH_SOURCE_NAME_BYTES, RESYNTH_ALGORITHM_COUNT,
};
use kurv::targeting::{PitchMode, ScaleId, TargetSet};

#[test]
fn algorithms_round_trip_their_codes() {
    assert_eq!(ResynthAlgorithm::ALL.len(), RESYNTH_ALGORITHM_COUNT);
    for algorithm in ResynthAlgorithm::ALL {
        assert_eq!(ResynthAlgorithm::from_u8(algorithm.index() as u8), Some(algorithm));
    }
    assert_eq!(ResynthAlgorithm::from_u8(3), None);
    assert_eq!(ResynthAlgorithm::Sample.label(), "Legacy");
    assert_eq!(ResynthAlgorithm::VISIBLE, [ResynthAlgorithm::Grain, ResynthAlgorithm::Rich]);
}

#[test]
fn grain_directions_decode_totally() {
    for direction in GrainDirection::ALL {
        assert_eq!(GrainDirection::from_u8(direction.to_u8()), direction);
        assert_eq!(direction.to_u8(), direction as u8);
    }
    assert_eq!(GrainDirection::from_u8(200), GrainDirection::Hold);
    assert_eq!(GrainDirection::PingPong.label(), "PONG");
    assert_eq!(GrainDirection::Forward.label(), "FWD");
}

#[test]
fn controls_read_and_sanitize_their_discrete_part() {
    let defaults = ResynthControls::default();
    assert_eq!(defaults.grain_direction(), GrainDirection::Forward);
    assert_eq!(defaults.pitch_mode, PitchMode::Classic);
    assert_eq!(defaults.seed, 0x4b55_5256_5245_5359);
    let odd = ResynthControls {
        grain_direction: 77,
        pitch_mode: PitchMode::Target(TargetSet::Scale(ScaleId::Dorian)),
        seed: 9,
    };
    assert_eq!(odd.grain_direction(), GrainDirection::Hold);
    let clean = odd.sanitized();
    assert_eq!(clean.grain_direction, 0);
    assert_eq!(clean.pitch_mode, odd.pitch_mode);
    assert_eq!(clean.seed, 9);
    assert_eq!(clean.sanitized(), clean);
}

#[test]
fn import_size_errors_come_in_order() {
    assert_eq!(check_import_size(0, 5000), Err(ImportError::Empty));
    assert_eq!(
        check_import_size(MAX_RESYNTH_SOURCE_BYTES + 1, 5000),
        Err(ImportError::Oversize { bytes: MAX_RESYNTH_SOURCE_BYTES + 1, limit: MAX_RESYNTH_SOURCE_BYTES })
    );
    assert_eq!(
        check_import_size(10, MAX_RESYNTH_SOURCE_NAME_BYTES + 1),
        Err(ImportError::SourceNameTooLong {
            bytes: MAX_RESYNTH_SOURCE_NAME_BYTES + 1,
            limit: MAX_RESYNTH_SOURCE_NAME_BYTES
        })
    );
    assert_eq!(check_import_size(MAX_RESYNTH_SOURCE_BYTES, MAX_RESYNTH_SOURCE_NAME_BYTES), Ok(()));
}

#[test]
fn artifact_cancellation_stays_cancellation() {
    assert_eq!(ImportError::from(ArtifactBuildError::Cancelled), ImportError::Cancelled);
    assert_eq!(
        ImportError::from(ArtifactBuildError::NonFinite),
        ImportError::Artifact(ArtifactBuildError::NonFinite)
    );
    assert_eq!(
        ImportError::from(ArtifactBuildError::RootRequired),
        ImportError::Artifact(ArtifactBuildError::RootRequired)
    );
}

use kurv::resynth::pitch_window_plan;

#[test]
fn pitch_detection_windows_spread_across_the_source() {
    let plan = pitch_window_plan(96_000, 48_000);
    assert_eq!(plan.window_frames, 24_000);
    assert_eq!(plan.starts, vec![0, 18_000, 36_000, 54_000, 72_000]);
    let whole = pitch_window_plan(1_000, 48_000);
    assert_eq!(whole.window_frames, 1_000);
    assert_eq!(whole.starts, vec![0]);
    let short = pitch_window_plan(66, 8);
    assert_eq!(short.window_frames, 64);
    assert_eq!(short.starts, vec![0, 1, 2]);
}

use kurv::resynth::check_root_available;

#[test]
fn sample_and_rich_need_a_root() {
    assert_eq!(check_root_available(ResynthAlgorithm::Sample, false), Err(ImportError::NoStablePitch));
    assert_eq!(check_root_available(ResynthAlgorithm::Rich, false), Err(ImportError::NoStablePitch));
    assert_eq!(check_root_available(ResynthAlgorithm::Grain, false), Ok(()));
    for algorithm in ResynthAlgorithm::ALL {
        assert_eq!(check_root_available(algorithm, true), Ok(()));
        assert_eq!(
            check_root_available(algorithm, false).is_err(),
            kurv::visual::algorithm_visual_metadata(algorithm).requires_root
        );
    }
}
