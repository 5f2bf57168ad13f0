use kurv::targeting::{PitchMode, ScaleId, TargetSet};

#[test]
fn scale_ids_round_trip() {
    for value in 0..ScaleId::ALL.len() as u8 {
        assert_eq!(
            ScaleId::from_u8(value).map(|scale| scale as u8),
            Some(value)
        );
    }
    assert!(ScaleId::from_u8(9).is_none());
}

#[test]
fn pitch_modes_have_stable_wire_tags_and_scale_payloads() {
    for mode in [
        PitchMode::Classic,
        PitchMode::Spectral,
        PitchMode::Target(TargetSet::PlayedNote),
        PitchMode::Target(TargetSet::Scale(ScaleId::Dorian)),
    ] {
        let (tag, scale) = mode.to_wire();
        assert_eq!(PitchMode::from_wire(tag, scale), Some(mode));
    }
    assert!(PitchMode::from_wire(99, 0).is_none());
    assert!(PitchMode::from_wire(2, 99).is_none());
}

#[test]
fn every_scale_mode_round_trips_with_its_code() {
    for scale in ScaleId::ALL {
        let mode = PitchMode::Target(TargetSet::Scale(scale));
        assert_eq!(mode.to_wire(), (2, scale as u8 + 1));
        assert_eq!(PitchMode::from_wire(2, scale as u8 + 1), Some(mode));
    }
    assert_eq!(PitchMode::Classic.to_wire(), (0, 0));
    assert_eq!(PitchMode::Spectral.to_wire(), (1, 0));
    assert_eq!(PitchMode::Target(TargetSet::PlayedNote).to_wire(), (2, 0));
    assert!(PitchMode::from_wire(0, 1).is_none());
    assert!(PitchMode::from_wire(1, 3).is_none());
    assert!(PitchMode::from_wire(2, 10).is_none());
    assert!(PitchMode::from_wire(3, 0).is_none());
}

#[test]
fn scale_degrees_rise_inside_the_octave() {
    for scale in ScaleId::ALL {
        let degrees = scale.degrees();
        assert_eq!(degrees[0], 0);
        assert!(degrees.windows(2).all(|pair| pair[0] < pair[1]));
        assert!(degrees.iter().all(|degree| *degree < 12));
    }
    assert_eq!(ScaleId::Major.degrees(), &[0, 2, 4, 5, 7, 9, 11]);
    assert_eq!(ScaleId::MinorPentatonic.degrees(), &[0, 3, 5, 7, 10]);
    assert_eq!(ScaleId::Chromatic.degrees().len(), 12);
}

#[test]
fn pitch_mode_indices_and_labels() {
    assert_eq!(PitchMode::COUNT, 3);
    assert_eq!(PitchMode::Classic.index(), 0);
    assert_eq!(PitchMode::Spectral.index(), 1);
    assert_eq!(PitchMode::Target(TargetSet::PlayedNote).index(), 2);
    assert_eq!(PitchMode::Target(TargetSet::Scale(ScaleId::Major)).label(), "Target");
    assert_eq!(PitchMode::Classic.label(), "Classic");
    assert_eq!(ScaleId::NaturalMinor.label(), "Natural Minor");
    assert_eq!(ScaleId::WholeTone.label(), "Whole Tone");
    assert_eq!(PitchMode::default(), PitchMode::Classic);
}
