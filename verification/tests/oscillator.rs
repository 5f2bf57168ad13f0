use kurv::oscillator::{
    next_waveform, spectral_saw_harmonics, spectral_saw_row, Antialiasing, PhaseWarpMode,
    Waveform, SPECTRAL_MAX_HARMONICS,
};

#[test]
fn warp_and_antialiasing_indices() {
    assert_eq!(PhaseWarpMode::from_index(0), PhaseWarpMode::Off);
    assert_eq!(PhaseWarpMode::from_index(1), PhaseWarpMode::Pwm);
    assert_eq!(PhaseWarpMode::from_index(2), PhaseWarpMode::PhaseBend);
    assert_eq!(PhaseWarpMode::from_index(3), PhaseWarpMode::Harmonic);
    assert_eq!(PhaseWarpMode::from_index(4), PhaseWarpMode::Off);
    assert_eq!(Antialiasing::from_index(0), Antialiasing::Legacy);
    assert_eq!(Antialiasing::from_index(1), Antialiasing::Spline);
    assert_eq!(Antialiasing::from_index(2), Antialiasing::Lagrange);
    assert_eq!(Antialiasing::from_index(255), Antialiasing::Lagrange);
}

#[test]
fn spline_is_optimised_only_at_factor_two() {
    assert_eq!(Antialiasing::Spline.for_factor(2), Antialiasing::SplineOptimized);
    assert_eq!(Antialiasing::Spline.for_factor(4), Antialiasing::Spline);
    assert_eq!(Antialiasing::Lagrange.for_factor(2), Antialiasing::Lagrange);
    assert_eq!(
        Antialiasing::Spline.for_factor(2).for_factor(2),
        Antialiasing::SplineOptimized
    );
}

#[test]
fn waveform_morph_order() {
    assert_eq!(next_waveform(Waveform::Sine), Waveform::Triangle);
    assert_eq!(next_waveform(Waveform::Triangle), Waveform::Saw);
    assert_eq!(next_waveform(Waveform::Saw), Waveform::Pulse);
    assert_eq!(next_waveform(Waveform::Pulse), Waveform::Pulse);
}

#[test]
fn spectral_rows_are_capped() {
    assert_eq!(spectral_saw_row(0), 0);
    assert_eq!(spectral_saw_row(64), 64);
    assert_eq!(spectral_saw_row(SPECTRAL_MAX_HARMONICS), SPECTRAL_MAX_HARMONICS);
    assert_eq!(spectral_saw_row(1000), SPECTRAL_MAX_HARMONICS);
    assert_eq!(spectral_saw_harmonics(spectral_saw_row(77)), 77);
}
