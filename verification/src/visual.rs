//! Immutable visual metadata for the editor: the facts shown for each
//! algorithm, the frame bookkeeping of a sample loop, and the admission
//! checks of source visual analysis.
use vstd::prelude::*;
use crate::artifact::RICH_ZONE_COUNT;
use crate::resynth::{ResynthAlgorithm, algorithm_needs_root};

verus! {

/// Number of fixed source-time waveform buckets.
pub const SOURCE_WAVE_BINS: usize = 256;

/// Number of source-time frames in the fixed spectrogram.
pub const SOURCE_STFT_FRAMES: usize = 64;

/// Number of logarithmically spaced frequency buckets in each STFT frame.
pub const SOURCE_STFT_BINS: usize = 96;

/// Length of the fixed Hann-windowed source STFT.
pub const SOURCE_STFT_SIZE: usize = 1024;

/// Number of fixed bins used when viewing one compiled algorithm cycle.
pub const ALGORITHM_VISUAL_WAVE_BINS: usize = 128;

/// Number of fixed log-frequency bins used when viewing one compiled cycle.
pub const ALGORITHM_VISUAL_SPECTRUM_BINS: usize = 96;

/// Maximum number of immutable sounding-artifact zones in one cache.
pub const ALGORITHM_VISUAL_ZONE_CAP: usize = RICH_ZONE_COUNT;

/// Fixed capacity for grain transient/candidate markers.
pub const GRAIN_VISUAL_CANDIDATES: usize = 128;

/// Errors returned by bounded source visual analysis.
#[derive(Clone, Copy, Debug, PartialEq, Eq, Structural)]
pub enum SourceVisualError {
    Empty,
    NonFinite,
    InvalidSampleRate,
    TooManyFrames,
}

/// The admission verdict of source visual analysis: a source must be
/// non-empty, address at most `u32::MAX` frames, run at 8 kHz to 384 kHz, and
/// hold only finite samples; the checks are made in that order.
pub open spec fn visual_source_verdict(frames: usize, sample_rate: u32, all_finite: bool) -> Result<(), SourceVisualError> {
    if frames == 0 {
        Err(SourceVisualError::Empty)
    } else if frames > u32::MAX {
        Err(SourceVisualError::TooManyFrames)
    } else if !(8000 <= sample_rate <= 384000) {
        Err(SourceVisualError::InvalidSampleRate)
    } else if !all_finite {
        Err(SourceVisualError::NonFinite)
    } else {
        Ok(())
    }
}

/// Check a source before visual analysis; `all_finite` says whether every
/// sample is a finite number.
pub fn validate_visual_source(frames: usize, sample_rate: u32, all_finite: bool) -> (r: Result<(), SourceVisualError>)
    ensures
        r == visual_source_verdict(frames, sample_rate, all_finite),
{
    if frames == 0 {
        return Err(SourceVisualError::Empty);
    }
    if frames as u64 > u32::MAX as u64 {
        return Err(SourceVisualError::TooManyFrames);
    }
    if !(8000 <= sample_rate && sample_rate <= 384000) {
        return Err(SourceVisualError::InvalidSampleRate);
    }
    if !all_finite {
        return Err(SourceVisualError::NonFinite);
    }
    Ok(())
}

/// How an algorithm's sounding material is drawn.
#[derive(Clone, Copy, Debug, PartialEq, Eq, Structural)]
pub enum AlgorithmVisualKind {
    SourceLoop,
    GranularCloud,
    HarmonicZones,
}

/// Static visual facts about one of the three algorithms.
#[derive(Clone, Copy, Debug, PartialEq, Eq)]
pub struct AlgorithmVisualMetadata {
    pub algorithm: ResynthAlgorithm,
    pub label: &'static str,
    pub requires_root: bool,
    pub supports_unpitched_source: bool,
    pub waveform_is_cyclic: bool,
    pub visual_kind: AlgorithmVisualKind,
}

/// Label of an algorithm's visual.
pub open spec fn visual_label(a: ResynthAlgorithm) -> Seq<char> {
    match a {
        ResynthAlgorithm::Sample => "Sample"@,
        ResynthAlgorithm::Grain => "Grain"@,
        ResynthAlgorithm::Rich => "Rich"@,
    }
}

/// Only the grain cloud needs no root and plays unpitched sources; the other
/// two draw cyclic waveforms from a root.
pub open spec fn metadata_matches(m: AlgorithmVisualMetadata, a: ResynthAlgorithm) -> bool {
    &&& m.algorithm == a
    &&& m.label@ == visual_label(a)
    &&& m.requires_root == (a != ResynthAlgorithm::Grain)
    &&& m.supports_unpitched_source == (a == ResynthAlgorithm::Grain)
    &&& m.waveform_is_cyclic == (a != ResynthAlgorithm::Grain)
    &&& m.visual_kind == match a {
        ResynthAlgorithm::Sample => AlgorithmVisualKind::SourceLoop,
        ResynthAlgorithm::Grain => AlgorithmVisualKind::GranularCloud,
        ResynthAlgorithm::Rich => AlgorithmVisualKind::HarmonicZones,
    }
}

/// The visual facts of an algorithm.
#[must_use]
pub fn algorithm_visual_metadata(algorithm: ResynthAlgorithm) -> (r: AlgorithmVisualMetadata)
    ensures
        metadata_matches(r, algorithm),
{
    match algorithm {
        ResynthAlgorithm::Sample => AlgorithmVisualMetadata {
            algorithm,
            label: "Sample",
            requires_root: true,
            supports_unpitched_source: false,
            waveform_is_cyclic: true,
            visual_kind: AlgorithmVisualKind::SourceLoop,
        },
        ResynthAlgorithm::Grain => AlgorithmVisualMetadata {
            algorithm,
            label: "Grain",
            requires_root: false,
            supports_unpitched_source: true,
            waveform_is_cyclic: false,
            visual_kind: AlgorithmVisualKind::GranularCloud,
        },
        ResynthAlgorithm::Rich => AlgorithmVisualMetadata {
            algorithm,
            label: "Rich",
            requires_root: true,
            supports_unpitched_source: false,
            waveform_is_cyclic: true,
            visual_kind: AlgorithmVisualKind::HarmonicZones,
        },
    }
}

/// Immutable source-region facts for a compiled sample loop, in frames.
#[derive(Clone, Copy, Debug, Default, PartialEq, Eq, Structural)]
pub struct SampleLoopVisualMetadata {
    pub source_start_frame: u32,
    pub source_span_frames: u32,
    pub source_total_frames: u32,
    pub crossfade_frames: u32,
}

/// Saturating `u32` sum.
pub open spec fn saturating_add_u32(a: u32, b: u32) -> u32 {
    if a + b > u32::MAX {
        u32::MAX
    } else {
        (a + b) as u32
    }
}

/// Saturating `u32` difference.
pub open spec fn saturating_sub_u32(a: u32, b: u32) -> u32 {
    if a < b {
        0
    } else {
        (a - b) as u32
    }
}

impl SampleLoopVisualMetadata {
    /// Last source frame of the loop region (exclusive), saturating.
    #[must_use]
    pub fn end_frame(self) -> (r: u32)
        ensures
            r == saturating_add_u32(self.source_start_frame, self.source_span_frames),
    {
        self.source_start_frame.saturating_add(self.source_span_frames)
    }

    /// Frames of the loop outside its crossfade, at least one.
    #[must_use]
    pub fn artifact_loop_frames(self) -> (r: u32)
        ensures
            r == if saturating_sub_u32(self.source_span_frames, self.crossfade_frames) == 0 {
                1
            } else {
                saturating_sub_u32(self.source_span_frames, self.crossfade_frames)
            },
            r >= 1,
    {
        let frames = self.source_span_frames.saturating_sub(self.crossfade_frames);
        if frames == 0 {
            1
        } else {
            frames
        }
    }

    /// Source length used as a denominator, at least one.
    #[must_use]
    pub fn total_frames_nonzero(self) -> (r: u32)
        ensures
            r == if self.source_total_frames == 0 {
                1
            } else {
                self.source_total_frames
            },
    {
        if self.source_total_frames == 0 {
            1
        } else {
            self.source_total_frames
        }
    }
}

/// First source sample of waveform bucket `bin` for a source of `len`
/// samples: buckets split the source evenly, rounding down.
pub open spec fn bucket_edge(bin: int, len: int) -> int {
    (bin * len) / (SOURCE_WAVE_BINS as int)
}

/// The source samples one waveform bucket summarises.
#[derive(Clone, Copy, Debug, PartialEq, Eq, Structural)]
pub enum WaveBucket {
    /// The samples `start..end`.
    Range { start: usize, end: usize },
    /// A source shorter than the display: this bucket repeats one sample.
    Single(usize),
}

/// The samples bucket `bin` summarises: its even share of the source, or,
/// where that share is empty, the sample at its edge (the last sample at
/// most).
pub open spec fn wave_bucket_of(len: int, bin: int) -> WaveBucket {
    let start = bucket_edge(bin, len);
    let end = bucket_edge(bin + 1, len);
    if end <= start {
        WaveBucket::Single((if start < len - 1 { start } else { len - 1 }) as usize)
    } else {
        WaveBucket::Range { start: start as usize, end: end as usize }
    }
}

/// The bucket of a waveform display that covers `bin`.
pub fn waveform_bucket(source_len: usize, bin: usize) -> (r: WaveBucket)
    requires
        source_len >= 1,
        bin < SOURCE_WAVE_BINS,
        (bin + 1) * source_len <= usize::MAX,
    ensures
        r == wave_bucket_of(source_len as int, bin as int),
        r matches WaveBucket::Range { start, end } ==> start < end <= source_len,
        r matches WaveBucket::Single(index) ==> index < source_len,
{
    proof {
        lemma_bucket_edges(source_len as int);
        vstd::arithmetic::mul::lemma_mul_inequality(bin as int, (bin + 1) as int, source_len as int);
    }
    let start = bin * source_len / SOURCE_WAVE_BINS;
    let end = (bin + 1) * source_len / SOURCE_WAVE_BINS;
    if end <= start {
        let index = bin * source_len / SOURCE_WAVE_BINS;
        let index = if index < source_len - 1 {
            index
        } else {
            source_len - 1
        };
        return WaveBucket::Single(index);
    }
    let end = if end < source_len {
        end
    } else {
        source_len
    };
    WaveBucket::Range { start, end }
}

proof fn lemma_edges_ordered(a: int, b: int, len: int)
    requires
        0 <= a <= b,
        len >= 0,
    ensures
        bucket_edge(a, len) <= bucket_edge(b, len),
{
    vstd::arithmetic::mul::lemma_mul_inequality(a, b, len);
    vstd::arithmetic::div_mod::lemma_div_is_ordered(a * len, b * len, SOURCE_WAVE_BINS as int);
}

/// Bucket edges start at the first sample, end at the source's end, and never
/// decrease.
pub proof fn lemma_bucket_edges(len: int)
    requires
        len >= 0,
    ensures
        bucket_edge(0, len) == 0,
        bucket_edge(SOURCE_WAVE_BINS as int, len) == len,
        forall|a: int, b: int| 0 <= a <= b ==> #[trigger] bucket_edge(a, len) <= #[trigger] bucket_edge(b, len),
{
    assert(0 * len == 0);
    assert((SOURCE_WAVE_BINS as int) * len / (SOURCE_WAVE_BINS as int) == len) by (nonlinear_arith);
    assert forall|a: int, b: int| 0 <= a <= b implies #[trigger] bucket_edge(a, len) <= #[trigger] bucket_edge(b, len) by {
        lemma_edges_ordered(a, b, len);
    }
}

proof fn lemma_bucket_exists_from(len: int, k: int, b: int)
    requires
        0 <= k < len,
        0 <= b <= SOURCE_WAVE_BINS,
        bucket_edge(b, len) <= k,
    ensures
        exists|c: int| 0 <= c < SOURCE_WAVE_BINS && #[trigger] bucket_edge(c, len) <= k < bucket_edge(c + 1, len),
    decreases SOURCE_WAVE_BINS - b,
{
    lemma_bucket_edges(len);
    if b == SOURCE_WAVE_BINS {
        assert(false);
    } else if k < bucket_edge(b + 1, len) {
        assert(bucket_edge(b, len) <= k < bucket_edge(b + 1, len));
    } else {
        lemma_bucket_exists_from(len, k, b + 1);
    }
}

/// Every sample of a non-empty source lies in exactly one bucket's even
/// share, so no sample is dropped or counted twice; in particular the last
/// sample is covered.
pub proof fn lemma_buckets_tile_the_source(len: int, k: int)
    requires
        0 <= k < len,
    ensures
        exists|b: int| 0 <= b < SOURCE_WAVE_BINS && #[trigger] bucket_edge(b, len) <= k < bucket_edge(b + 1, len),
        forall|b1: int, b2: int|
            #![trigger bucket_edge(b1, len), bucket_edge(b2, len)]
            0 <= b1 < SOURCE_WAVE_BINS && 0 <= b2 < SOURCE_WAVE_BINS && bucket_edge(b1, len) <= k < bucket_edge(b1 + 1, len)
                && bucket_edge(b2, len) <= k < bucket_edge(b2 + 1, len) ==> b1 == b2,
{
    lemma_bucket_edges(len);
    lemma_bucket_exists_from(len, k, 0);
    assert forall|b1: int, b2: int|
        #![trigger bucket_edge(b1, len), bucket_edge(b2, len)]
        0 <= b1 < SOURCE_WAVE_BINS && 0 <= b2 < SOURCE_WAVE_BINS && bucket_edge(b1, len) <= k < bucket_edge(b1 + 1, len)
            && bucket_edge(b2, len) <= k < bucket_edge(b2 + 1, len) implies b1 == b2 by {
        if b1 < b2 {
            assert(bucket_edge(b1 + 1, len) <= bucket_edge(b2, len));
        } else if b2 < b1 {
            assert(bucket_edge(b2 + 1, len) <= bucket_edge(b1, len));
        }
    }
}

/// Centre sample of spectrogram frame `frame`: frames are spread evenly from
/// the first sample to the last.
pub open spec fn stft_center_of(frame: int, len: int) -> int {
    if len <= 1 {
        0
    } else {
        frame * (len - 1) / ((SOURCE_STFT_FRAMES - 1) as int)
    }
}

/// The centre sample of a spectrogram frame.
pub fn stft_frame_center(frame: usize, source_len: usize) -> (r: usize)
    requires
        frame < SOURCE_STFT_FRAMES,
        frame * source_len <= usize::MAX,
    ensures
        r == stft_center_of(frame as int, source_len as int),
        source_len >= 1 ==> r < source_len,
{
    if source_len <= 1 {
        return 0;
    }
    proof {
        vstd::arithmetic::mul::lemma_mul_inequality(frame as int, (SOURCE_STFT_FRAMES - 1) as int, (source_len - 1) as int);
        vstd::arithmetic::mul::lemma_mul_inequality((source_len - 1) as int, source_len as int, frame as int);
        vstd::arithmetic::div_mod::lemma_div_is_ordered(frame * (source_len - 1), ((SOURCE_STFT_FRAMES - 1) * (source_len - 1)) as int, (SOURCE_STFT_FRAMES - 1) as int);
        assert(((SOURCE_STFT_FRAMES - 1) * (source_len - 1)) as int / ((SOURCE_STFT_FRAMES - 1) as int) == source_len - 1) by (nonlinear_arith)
            requires source_len >= 1;
    }
    frame * (source_len - 1) / (SOURCE_STFT_FRAMES - 1)
}

/// Exactly one algorithm draws a granular cloud, and it is the only one that
/// needs no root; the metadata's root flag is exactly the compile-time
/// requirement that `check_root_available` enforces.
pub proof fn lemma_only_grain_is_unpitched(a: ResynthAlgorithm, m: AlgorithmVisualMetadata)
    requires
        metadata_matches(m, a),
    ensures
        m.supports_unpitched_source == !m.requires_root,
        m.supports_unpitched_source <==> m.visual_kind == AlgorithmVisualKind::GranularCloud,
        m.waveform_is_cyclic == m.requires_root,
        m.requires_root == algorithm_needs_root(a),
{
}

} // verus!
