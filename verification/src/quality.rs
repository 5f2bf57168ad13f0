//! Machine-local analysis quality: the integer tables that size the pitch map
//! and the reconstruction of each quality level.
use vstd::prelude::*;

verus! {

/// Analysis quality levels, from the coarsest to the finest.
#[derive(Clone, Copy, Debug, Default, PartialEq, Eq, Structural)]
pub enum ResynthQuality {
    Eco,
    #[default]
    Standard,
    High,
    Ultra,
}

/// The wire code of a quality: its position from the coarsest.
pub open spec fn quality_code(q: ResynthQuality) -> u8 {
    match q {
        ResynthQuality::Eco => 0,
        ResynthQuality::Standard => 1,
        ResynthQuality::High => 2,
        ResynthQuality::Ultra => 3,
    }
}

/// The quality a stored code decodes to; unknown codes fall back to Standard.
pub open spec fn quality_from_code(value: u8) -> ResynthQuality {
    if value == 0 {
        ResynthQuality::Eco
    } else if value == 2 {
        ResynthQuality::High
    } else if value == 3 {
        ResynthQuality::Ultra
    } else {
        ResynthQuality::Standard
    }
}

/// Most pitch-curve points a quality keeps.
pub open spec fn spec_max_points(q: ResynthQuality) -> usize {
    match q {
        ResynthQuality::Eco => 512,
        ResynthQuality::Standard => 2048,
        ResynthQuality::High => 4096,
        ResynthQuality::Ultra => 8192,
    }
}

/// Reconstruction FFT size of a quality.
pub open spec fn spec_fft_size(q: ResynthQuality) -> usize {
    match q {
        ResynthQuality::Eco | ResynthQuality::Standard => 2048,
        ResynthQuality::High | ResynthQuality::Ultra => 4096,
    }
}

/// Pitch-analysis FFT size of a quality.
pub open spec fn spec_pitch_fft_size(q: ResynthQuality) -> usize {
    match q {
        ResynthQuality::Eco => 8192,
        ResynthQuality::Standard => 16384,
        ResynthQuality::High => 32768,
        ResynthQuality::Ultra => 65536,
    }
}

/// Overlap factor of the reconstruction windows of a quality.
pub open spec fn spec_overlap(q: ResynthQuality) -> usize {
    match q {
        ResynthQuality::Eco => 2,
        ResynthQuality::Standard => 4,
        ResynthQuality::High | ResynthQuality::Ultra => 8,
    }
}

/// Reconstruction hop: the FFT size divided by the overlap factor.
pub open spec fn spec_reconstruction_hop(q: ResynthQuality) -> usize {
    (spec_fft_size(q) / spec_overlap(q)) as usize
}

/// Most harmonics the rich reconstruction keeps at a quality.
pub open spec fn spec_max_harmonics(q: ResynthQuality) -> usize {
    match q {
        ResynthQuality::Eco => 48,
        ResynthQuality::Standard => 96,
        ResynthQuality::High | ResynthQuality::Ultra => 128,
    }
}

/// Display name of a quality.
pub open spec fn quality_label(q: ResynthQuality) -> Seq<char> {
    match q {
        ResynthQuality::Eco => "ECO"@,
        ResynthQuality::Standard => "STANDARD"@,
        ResynthQuality::High => "HIGH"@,
        ResynthQuality::Ultra => "ULTRA"@,
    }
}

/// One-line description of a quality.
pub open spec fn quality_hint(q: ResynthQuality) -> Seq<char> {
    match q {
        ResynthQuality::Eco => "Coarse pitch map, fewest RICH harmonics"@,
        ResynthQuality::Standard => "Default pitch map and RICH harmonic count"@,
        ResynthQuality::High => "Finer pitch map, more RICH harmonics"@,
        ResynthQuality::Ultra => "Finest pitch map and RICH harmonic count"@,
    }
}

impl ResynthQuality {
    pub const ALL: [ResynthQuality; 4] = [
        ResynthQuality::Eco,
        ResynthQuality::Standard,
        ResynthQuality::High,
        ResynthQuality::Ultra,
    ];

    /// Decode a stored code; unknown codes fall back to Standard.
    #[must_use]
    pub fn from_u8(value: u8) -> (r: ResynthQuality)
        ensures
            r == quality_from_code(value),
    {
        match value {
            0 => ResynthQuality::Eco,
            2 => ResynthQuality::High,
            3 => ResynthQuality::Ultra,
            _ => ResynthQuality::Standard,
        }
    }

    /// Display name.
    #[must_use]
    pub fn label(self) -> (r: &'static str)
        ensures
            r@ == quality_label(self),
    {
        match self {
            ResynthQuality::Eco => "ECO",
            ResynthQuality::Standard => "STANDARD",
            ResynthQuality::High => "HIGH",
            ResynthQuality::Ultra => "ULTRA",
        }
    }

    /// One-line description.
    #[must_use]
    pub fn hint(self) -> (r: &'static str)
        ensures
            r@ == quality_hint(self),
    {
        match self {
            ResynthQuality::Eco => "Coarse pitch map, fewest RICH harmonics",
            ResynthQuality::Standard => "Default pitch map and RICH harmonic count",
            ResynthQuality::High => "Finer pitch map, more RICH harmonics",
            ResynthQuality::Ultra => "Finest pitch map and RICH harmonic count",
        }
    }

    /// Most pitch-curve points kept.
    #[must_use]
    pub fn max_points(self) -> (r: usize)
        ensures
            r == spec_max_points(self),
    {
        match self {
            ResynthQuality::Eco => 512,
            ResynthQuality::Standard => 2048,
            ResynthQuality::High => 4096,
            ResynthQuality::Ultra => 8192,
        }
    }

    /// Reconstruction FFT size.
    #[must_use]
    pub fn fft_size(self) -> (r: usize)
        ensures
            r == spec_fft_size(self),
    {
        match self {
            ResynthQuality::Eco | ResynthQuality::Standard => 2048,
            ResynthQuality::High | ResynthQuality::Ultra => 4096,
        }
    }

    /// Pitch-analysis FFT size.
    #[must_use]
    pub fn pitch_fft_size(self) -> (r: usize)
        ensures
            r == spec_pitch_fft_size(self),
    {
        match self {
            ResynthQuality::Eco => 8192,
            ResynthQuality::Standard => 16384,
            ResynthQuality::High => 32768,
            ResynthQuality::Ultra => 65536,
        }
    }

    /// Reconstruction hop in samples.
    #[must_use]
    pub fn reconstruction_hop(self) -> (r: usize)
        ensures
            r == spec_reconstruction_hop(self),
    {
        let overlap: usize = match self {
            ResynthQuality::Eco => 2,
            ResynthQuality::Standard => 4,
            ResynthQuality::High | ResynthQuality::Ultra => 8,
        };
        self.fft_size() / overlap
    }

    /// Most harmonics kept by the rich reconstruction.
    #[must_use]
    pub fn max_harmonics(self) -> (r: usize)
        ensures
            r == spec_max_harmonics(self),
    {
        match self {
            ResynthQuality::Eco => 48,
            ResynthQuality::Standard => 96,
            ResynthQuality::High | ResynthQuality::Ultra => 128,
        }
    }
}

/// The reconstruction hop of every quality.
pub proof fn lemma_hop_values()
    ensures
        spec_reconstruction_hop(ResynthQuality::Eco) == 1024,
        spec_reconstruction_hop(ResynthQuality::Standard) == 512,
        spec_reconstruction_hop(ResynthQuality::High) == 512,
        spec_reconstruction_hop(ResynthQuality::Ultra) == 512,
{
    assert(2048usize / 2usize == 1024usize);
    assert(2048usize / 4usize == 512usize);
    assert(4096usize / 8usize == 512usize);
}

/// Every quality survives its stored code, and unknown codes read as Standard.
pub proof fn lemma_quality_code_round_trip(q: ResynthQuality, value: u8)
    ensures
        quality_from_code(quality_code(q)) == q,
        value > 3 ==> quality_from_code(value) == ResynthQuality::Standard,
{
}

/// A finer quality keeps at least as much detail as a coarser one: no fewer
/// pitch points, pitch-FFT bins or harmonics, and no longer a reconstruction
/// hop; and the finest keeps strictly more than the coarsest.
pub proof fn lemma_finer_quality_has_more_detail(coarse: ResynthQuality, fine: ResynthQuality)
    requires
        quality_code(coarse) <= quality_code(fine),
    ensures
        spec_max_points(coarse) <= spec_max_points(fine),
        spec_pitch_fft_size(coarse) <= spec_pitch_fft_size(fine),
        spec_max_harmonics(coarse) <= spec_max_harmonics(fine),
        spec_reconstruction_hop(fine) <= spec_reconstruction_hop(coarse),
        quality_code(coarse) < quality_code(fine) ==> spec_max_points(coarse) < spec_max_points(fine),
        spec_reconstruction_hop(ResynthQuality::Ultra) < spec_reconstruction_hop(ResynthQuality::Eco),
        spec_max_harmonics(ResynthQuality::Eco) < spec_max_harmonics(ResynthQuality::Ultra),
{
    lemma_hop_values();
}

/// The reconstruction hop always divides the FFT size evenly.
pub proof fn lemma_hop_divides_fft(q: ResynthQuality)
    ensures
        spec_reconstruction_hop(q) * spec_overlap(q) == spec_fft_size(q),
{
    lemma_hop_values();
    match q {
        ResynthQuality::Eco => assert(1024usize * 2usize == 2048usize),
        ResynthQuality::Standard => assert(512usize * 4usize == 2048usize),
        ResynthQuality::High => assert(512usize * 8usize == 4096usize),
        ResynthQuality::Ultra => assert(512usize * 8usize == 4096usize),
    }
}

} // verus!
