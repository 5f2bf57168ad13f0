//! Discrete settings of the virtual-analog oscillator: waveforms, phase-warp
//! modes, antialiasing back ends, and spectral table rows.
use vstd::prelude::*;

verus! {

/// Oscillator waveform.
#[derive(Clone, Copy, Debug, PartialEq, Eq, Structural)]
pub enum Waveform {
    Saw,
    Pulse,
    Triangle,
    Sine,
}

/// Phase-warp mode.
#[derive(Clone, Copy, Debug, Default, PartialEq, Eq, Structural)]
pub enum PhaseWarpMode {
    #[default]
    Off,
    Pwm,
    PhaseBend,
    Harmonic,
}

impl PhaseWarpMode {
    /// Decode a stored index; unknown indices mean no warp.
    pub fn from_index(index: u8) -> (r: PhaseWarpMode)
        ensures
            r == (if index == 1 {
                PhaseWarpMode::Pwm
            } else if index == 2 {
                PhaseWarpMode::PhaseBend
            } else if index == 3 {
                PhaseWarpMode::Harmonic
            } else {
                PhaseWarpMode::Off
            }),
    {
        match index {
            1 => PhaseWarpMode::Pwm,
            2 => PhaseWarpMode::PhaseBend,
            3 => PhaseWarpMode::Harmonic,
            _ => PhaseWarpMode::Off,
        }
    }
}

/// Antialiasing back end.
#[derive(Clone, Copy, Debug, Default, PartialEq, Eq, Structural)]
pub enum Antialiasing {
    #[default]
    Legacy,
    Spline,
    SplineOptimized,
    Lagrange,
    Spectral,
}

/// The back end a stored index selects: 0 is Legacy, 1 Spline, anything
/// else Lagrange.
pub open spec fn antialiasing_from_index(index: u8) -> Antialiasing {
    if index == 0 {
        Antialiasing::Legacy
    } else if index == 1 {
        Antialiasing::Spline
    } else {
        Antialiasing::Lagrange
    }
}

/// The back end used at an oversampling factor: Spline at factor two runs
/// its optimised variant; everything else is unchanged.
pub open spec fn antialiasing_for_factor(a: Antialiasing, factor: u8) -> Antialiasing {
    if a == Antialiasing::Spline && factor == 2 {
        Antialiasing::SplineOptimized
    } else {
        a
    }
}

impl Antialiasing {
    /// Decode a stored index.
    pub fn from_index(index: u8) -> (r: Antialiasing)
        ensures
            r == antialiasing_from_index(index),
    {
        match index {
            0 => Antialiasing::Legacy,
            1 => Antialiasing::Spline,
            _ => Antialiasing::Lagrange,
        }
    }

    /// The back end to run at an oversampling factor.
    pub fn for_factor(self, factor: u8) -> (r: Antialiasing)
        ensures
            r == antialiasing_for_factor(self, factor),
    {
        if self == Antialiasing::Spline && factor == 2 {
            Antialiasing::SplineOptimized
        } else {
            self
        }
    }
}

/// The waveform a morph moves toward next: sine, triangle, saw, then pulse,
/// which is the last.
pub open spec fn spec_next_waveform(w: Waveform) -> Waveform {
    match w {
        Waveform::Sine => Waveform::Triangle,
        Waveform::Triangle => Waveform::Saw,
        Waveform::Saw | Waveform::Pulse => Waveform::Pulse,
    }
}

/// The waveform a morph moves toward next.
pub fn next_waveform(waveform: Waveform) -> (r: Waveform)
    ensures
        r == spec_next_waveform(waveform),
{
    match waveform {
        Waveform::Sine => Waveform::Triangle,
        Waveform::Triangle => Waveform::Saw,
        Waveform::Saw | Waveform::Pulse => Waveform::Pulse,
    }
}

/// Highest harmonic a spectral table row holds.
pub const SPECTRAL_MAX_HARMONICS: usize = 128;

/// Number of rows in the spectral saw table.
pub const SPECTRAL_SAW_ROWS: usize = SPECTRAL_MAX_HARMONICS + 1;

/// The spectral saw row for a harmonic limit: the limit itself, capped at the
/// last row.
pub fn spectral_saw_row(harmonic: usize) -> (r: usize)
    ensures
        r == (if harmonic > SPECTRAL_MAX_HARMONICS {
            SPECTRAL_MAX_HARMONICS
        } else {
            harmonic
        }),
        r < SPECTRAL_SAW_ROWS,
{
    if harmonic > SPECTRAL_MAX_HARMONICS {
        SPECTRAL_MAX_HARMONICS
    } else {
        harmonic
    }
}

/// Number of harmonics stored in a spectral saw row: row `n` holds `n`.
pub fn spectral_saw_harmonics(row: usize) -> (r: usize)
    ensures
        r == row,
{
    row
}

/// The morph order reaches pulse in at most three steps from any waveform
/// and stays there.
pub proof fn lemma_waveform_morph_ends_at_pulse(w: Waveform)
    ensures
        spec_next_waveform(spec_next_waveform(spec_next_waveform(w))) == Waveform::Pulse,
        spec_next_waveform(Waveform::Pulse) == Waveform::Pulse,
        w != Waveform::Pulse && w != Waveform::Saw ==> spec_next_waveform(w) != w,
{
}

/// Choosing the back end for a factor is idempotent, and only Spline at
/// factor two changes.
pub proof fn lemma_for_factor_is_idempotent(a: Antialiasing, factor: u8)
    ensures
        antialiasing_for_factor(antialiasing_for_factor(a, factor), factor) == antialiasing_for_factor(
            a,
            factor,
        ),
        antialiasing_for_factor(a, factor) != a <==> (a == Antialiasing::Spline && factor == 2),
{
}

} // verus!
