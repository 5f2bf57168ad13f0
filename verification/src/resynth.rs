//! The resynthesis algorithms, their discrete controls, and the import
//! limits and errors shared by every source path.
use vstd::prelude::*;
use crate::artifact::ArtifactBuildError;
use crate::targeting::{PitchMode, wire_of, mode_from_wire, lemma_wire_round_trip};

verus! {

/// Largest accepted source file.
pub const MAX_RESYNTH_SOURCE_BYTES: usize = 16 * 1024 * 1024;

/// Largest accepted source file name, in bytes.
pub const MAX_RESYNTH_SOURCE_NAME_BYTES: usize = 1024;

/// Most frames a decoded source may hold.
pub const MAX_RESYNTH_DECODED_FRAMES: usize = 8 * 1024 * 1024;

/// Number of resynthesis algorithms.
pub const RESYNTH_ALGORITHM_COUNT: usize = 3;

/// Resynthesis algorithm.
#[derive(Clone, Copy, Debug, Default, PartialEq, Eq, Structural)]
pub enum ResynthAlgorithm {
    #[default]
    Sample,
    Grain,
    Rich,
}

/// Wire code of an algorithm.
pub open spec fn algorithm_code(a: ResynthAlgorithm) -> u8 {
    match a {
        ResynthAlgorithm::Sample => 0,
        ResynthAlgorithm::Grain => 1,
        ResynthAlgorithm::Rich => 2,
    }
}

/// The algorithm with a given wire code, if any.
pub open spec fn algorithm_from_code(value: u8) -> Option<ResynthAlgorithm> {
    if value == 0 {
        Some(ResynthAlgorithm::Sample)
    } else if value == 1 {
        Some(ResynthAlgorithm::Grain)
    } else if value == 2 {
        Some(ResynthAlgorithm::Rich)
    } else {
        None
    }
}

impl ResynthAlgorithm {
    pub const ALL: [ResynthAlgorithm; 3] = [
        ResynthAlgorithm::Sample,
        ResynthAlgorithm::Grain,
        ResynthAlgorithm::Rich,
    ];

    /// Algorithms exposed by the current editor; `Sample` remains a
    /// decoder-only value for older saved states.
    pub const VISIBLE: [ResynthAlgorithm; 2] = [ResynthAlgorithm::Grain, ResynthAlgorithm::Rich];

    /// Display name.
    pub fn label(self) -> (r: &'static str)
        ensures
            r@ == match self {
                ResynthAlgorithm::Sample => "Legacy"@,
                ResynthAlgorithm::Grain => "Grain"@,
                ResynthAlgorithm::Rich => "Rich"@,
            },
    {
        match self {
            ResynthAlgorithm::Sample => "Legacy",
            ResynthAlgorithm::Grain => "Grain",
            ResynthAlgorithm::Rich => "Rich",
        }
    }

    /// Position in `ALL`, equal to the wire code.
    pub fn index(self) -> (r: usize)
        ensures
            r == algorithm_code(self),
            r < RESYNTH_ALGORITHM_COUNT,
    {
        match self {
            ResynthAlgorithm::Sample => 0,
            ResynthAlgorithm::Grain => 1,
            ResynthAlgorithm::Rich => 2,
        }
    }

    /// Decode a wire code; `None` past the last algorithm.
    pub fn from_u8(value: u8) -> (r: Option<ResynthAlgorithm>)
        ensures
            r == algorithm_from_code(value),
    {
        match value {
            0 => Some(ResynthAlgorithm::Sample),
            1 => Some(ResynthAlgorithm::Grain),
            2 => Some(ResynthAlgorithm::Rich),
            _ => None,
        }
    }
}

/// Read direction of the grain source timeline.
#[derive(Clone, Copy, Debug, Default, PartialEq, Eq, Structural)]
pub enum GrainDirection {
    #[default]
    Hold,
    Forward,
    Backward,
    PingPong,
}

/// Wire code of a grain direction.
pub open spec fn direction_code(d: GrainDirection) -> u8 {
    match d {
        GrainDirection::Hold => 0,
        GrainDirection::Forward => 1,
        GrainDirection::Backward => 2,
        GrainDirection::PingPong => 3,
    }
}

/// The direction a stored code decodes to; unknown codes read as Hold.
pub open spec fn direction_from_code(value: u8) -> GrainDirection {
    if value == 1 {
        GrainDirection::Forward
    } else if value == 2 {
        GrainDirection::Backward
    } else if value == 3 {
        GrainDirection::PingPong
    } else {
        GrainDirection::Hold
    }
}

impl GrainDirection {
    pub const ALL: [GrainDirection; 4] = [
        GrainDirection::Hold,
        GrainDirection::Forward,
        GrainDirection::Backward,
        GrainDirection::PingPong,
    ];

    /// Decode a stored code; unknown codes read as Hold.
    #[must_use]
    pub fn from_u8(value: u8) -> (r: GrainDirection)
        ensures
            r == direction_from_code(value),
    {
        match value {
            1 => GrainDirection::Forward,
            2 => GrainDirection::Backward,
            3 => GrainDirection::PingPong,
            _ => GrainDirection::Hold,
        }
    }

    /// Short display name.
    #[must_use]
    pub fn label(self) -> (r: &'static str)
        ensures
            r@ == match self {
                GrainDirection::Hold => "HOLD"@,
                GrainDirection::Forward => "FWD"@,
                GrainDirection::Backward => "BACK"@,
                GrainDirection::PingPong => "PONG"@,
            },
    {
        match self {
            GrainDirection::Hold => "HOLD",
            GrainDirection::Forward => "FWD",
            GrainDirection::Backward => "BACK",
            GrainDirection::PingPong => "PONG",
        }
    }

    /// The stored code of a direction.
    #[must_use]
    pub fn to_u8(self) -> (r: u8)
        ensures
            r == direction_code(self),
    {
        match self {
            GrainDirection::Hold => 0,
            GrainDirection::Forward => 1,
            GrainDirection::Backward => 2,
            GrainDirection::PingPong => 3,
        }
    }
}

/// The discrete resynthesis controls: the stored grain direction code, the
/// pitch mode and the grain seed. The continuous controls are plain numbers
/// that the host keeps beside these.
#[derive(Clone, Copy, Debug, PartialEq, Eq, Structural)]
pub struct ResynthControls {
    pub grain_direction: u8,
    pub pitch_mode: PitchMode,
    pub seed: u64,
}

/// Default grain seed.
pub const DEFAULT_GRAIN_SEED: u64 = 0x4b55_5256_5245_5359u64;

impl Default for ResynthControls {
    fn default() -> (r: Self)
        ensures
            r.grain_direction == direction_code(GrainDirection::Forward),
            r.pitch_mode == PitchMode::Classic,
            r.seed == DEFAULT_GRAIN_SEED,
    {
        ResynthControls {
            grain_direction: 1,
            pitch_mode: PitchMode::Classic,
            seed: DEFAULT_GRAIN_SEED,
        }
    }
}

impl ResynthControls {
    /// The grain direction the stored code selects.
    #[must_use]
    pub fn grain_direction(self) -> (r: GrainDirection)
        ensures
            r == direction_from_code(self.grain_direction),
    {
        GrainDirection::from_u8(self.grain_direction)
    }

    /// Canonical form: the direction code is normalised through its decoding,
    /// and the pitch mode through its wire form (falling back to Classic).
    #[must_use]
    pub fn sanitized(self) -> (r: Self)
        ensures
            r.grain_direction == direction_code(direction_from_code(self.grain_direction)),
            r.pitch_mode == (match mode_from_wire(wire_of(self.pitch_mode).0, wire_of(self.pitch_mode).1) {
                Some(m) => m,
                None => PitchMode::Classic,
            }),
            r.pitch_mode == self.pitch_mode,
            r.seed == self.seed,
    {
        let (tag, scale) = self.pitch_mode.to_wire();
        let pitch_mode = match PitchMode::from_wire(tag, scale) {
            Some(mode) => mode,
            None => PitchMode::Classic,
        };
        proof {
            lemma_wire_round_trip(self.pitch_mode);
        }
        ResynthControls {
            grain_direction: GrainDirection::from_u8(self.grain_direction).to_u8(),
            pitch_mode,
            seed: self.seed,
        }
    }
}

/// Why a source could not be imported.
#[derive(Clone, Copy, Debug, PartialEq, Eq, Structural)]
pub enum ImportError {
    Empty,
    Oversize { bytes: usize, limit: usize },
    SourceNameTooLong { bytes: usize, limit: usize },
    UnsupportedWav,
    UnsupportedChannels(u16),
    UnsupportedSampleRate(u32),
    TooManyFrames,
    Silent,
    NoStablePitch,
    Artifact(ArtifactBuildError),
    PublicationBusy,
    Cancelled,
}

/// An artifact failure seen as an import failure: cancellation stays
/// cancellation, anything else is wrapped.
pub open spec fn import_error_of_artifact(value: ArtifactBuildError) -> ImportError {
    match value {
        ArtifactBuildError::Cancelled => ImportError::Cancelled,
        other => ImportError::Artifact(other),
    }
}

impl From<ArtifactBuildError> for ImportError {
    fn from(value: ArtifactBuildError) -> (r: Self) {
        match value {
            ArtifactBuildError::Cancelled => ImportError::Cancelled,
            other => ImportError::Artifact(other),
        }
    }
}

impl vstd::std_specs::convert::FromSpecImpl<ArtifactBuildError> for ImportError {
    open spec fn obeys_from_spec() -> bool {
        true
    }

    open spec fn from_spec(v: ArtifactBuildError) -> ImportError {
        import_error_of_artifact(v)
    }
}

/// The size limits every import checks before decoding: the source must be
/// non-empty and within the byte limit, then its name within the name limit.
pub open spec fn import_size_verdict(source_bytes: usize, name_bytes: usize) -> Result<(), ImportError> {
    if source_bytes == 0 {
        Err(ImportError::Empty)
    } else if source_bytes > MAX_RESYNTH_SOURCE_BYTES {
        Err(ImportError::Oversize { bytes: source_bytes, limit: MAX_RESYNTH_SOURCE_BYTES })
    } else if name_bytes > MAX_RESYNTH_SOURCE_NAME_BYTES {
        Err(ImportError::SourceNameTooLong { bytes: name_bytes, limit: MAX_RESYNTH_SOURCE_NAME_BYTES })
    } else {
        Ok(())
    }
}

/// Check a source's size and its name's length, in that order.
pub fn check_import_size(source_bytes: usize, name_bytes: usize) -> (r: Result<(), ImportError>)
    ensures
        r == import_size_verdict(source_bytes, name_bytes),
{
    if source_bytes == 0 {
        return Err(ImportError::Empty);
    }
    if source_bytes > MAX_RESYNTH_SOURCE_BYTES {
        return Err(ImportError::Oversize { bytes: source_bytes, limit: MAX_RESYNTH_SOURCE_BYTES });
    }
    if name_bytes > MAX_RESYNTH_SOURCE_NAME_BYTES {
        return Err(
            ImportError::SourceNameTooLong { bytes: name_bytes, limit: MAX_RESYNTH_SOURCE_NAME_BYTES },
        );
    }
    Ok(())
}

/// Fewest samples a pitch estimate looks at.
pub const MIN_PITCH_WINDOW_FRAMES: usize = 64;

/// Number of evenly spread pitch-analysis windows before duplicates are
/// dropped.
pub const PITCH_WINDOW_COUNT: usize = 5;

/// Length of each pitch-analysis window: half a second, kept between the
/// minimum window and the whole source.
pub open spec fn pitch_window_frames(len: int, sample_rate: u32) -> int {
    let half = (sample_rate / 2) as int;
    if half < MIN_PITCH_WINDOW_FRAMES {
        MIN_PITCH_WINDOW_FRAMES as int
    } else if half > len {
        len
    } else {
        half
    }
}

/// Evenly spread window starts, from the first sample to the last start that
/// keeps a whole window inside the source.
pub open spec fn pitch_window_candidates(len: int, window: int) -> Seq<int> {
    Seq::new(PITCH_WINDOW_COUNT as nat, |i: int| i * (len - window) / 4)
}

/// A sequence with each run of equal neighbours kept once.
pub open spec fn dedup_runs(s: Seq<int>) -> Seq<int>
    decreases s.len(),
{
    if s.len() <= 1 {
        s
    } else if s.last() == s[s.len() - 2] {
        dedup_runs(s.drop_last())
    } else {
        dedup_runs(s.drop_last()).push(s.last())
    }
}

/// Where a root estimate looks: the window length and the distinct window
/// starts.
pub struct PitchWindowPlan {
    pub window_frames: usize,
    pub starts: Vec<usize>,
}

/// Plan the pitch-analysis windows of a source of at least the minimum
/// window.
pub fn pitch_window_plan(len: usize, sample_rate: u32) -> (r: PitchWindowPlan)
    requires
        len >= MIN_PITCH_WINDOW_FRAMES,
        4 * len <= usize::MAX,
    ensures
        r.window_frames == pitch_window_frames(len as int, sample_rate),
        r.starts@.map_values(|x: usize| x as int) == dedup_runs(
            pitch_window_candidates(len as int, r.window_frames as int),
        ),
{
    let half = (sample_rate / 2) as usize;
    let window_frames = if half < MIN_PITCH_WINDOW_FRAMES {
        MIN_PITCH_WINDOW_FRAMES
    } else if half > len {
        len
    } else {
        half
    };
    let last_start = len - window_frames;
    let ghost cands = pitch_window_candidates(len as int, window_frames as int);
    let mut starts: Vec<usize> = Vec::new();
    let mut previous: Option<usize> = None;
    let mut index: usize = 0;
    while index < PITCH_WINDOW_COUNT
        invariant
            index <= PITCH_WINDOW_COUNT,
            last_start == len - window_frames,
            last_start <= len,
            4 * len <= usize::MAX,
            cands == pitch_window_candidates(len as int, window_frames as int),
            starts@.map_values(|x: usize| x as int) == dedup_runs(cands.subrange(0, index as int)),
            index == 0 <==> previous is None,
            previous matches Some(p) ==> index > 0 && p == cands[index - 1],
        decreases PITCH_WINDOW_COUNT - index,
    {
        proof {
            assert(index * last_start <= 4 * len) by (nonlinear_arith)
                requires
                    index <= 4,
                    last_start <= len,
            ;
        }
        let start = index * last_start / 4;
        proof {
            let pre = cands.subrange(0, index + 1);
            assert(pre.drop_last() =~= cands.subrange(0, index as int));
            assert(pre.last() == start as int);
        }
        if previous != Some(start) {
            starts.push(start);
            proof {
                let pre = cands.subrange(0, index + 1);
                if index > 0 {
                    assert(pre[pre.len() - 2] == cands[index - 1]);
                }
                assert(starts@.map_values(|x: usize| x as int) =~= dedup_runs(
                    cands.subrange(0, index as int),
                ).push(start as int));
            }
        }
        previous = Some(start);
        index += 1;
    }
    proof {
        assert(cands.subrange(0, PITCH_WINDOW_COUNT as int) =~= cands);
    }
    PitchWindowPlan { window_frames, starts }
}

/// Dropping repeated neighbours from a sorted sequence leaves a strictly
/// rising sequence with the same first and last element, drawn from it.
pub proof fn lemma_dedup_runs_of_sorted(s: Seq<int>)
    requires
        s.len() >= 1,
        forall|i: int, j: int| 0 <= i <= j < s.len() ==> s[i] <= s[j],
    ensures
        dedup_runs(s).len() >= 1,
        dedup_runs(s)[0] == s[0],
        dedup_runs(s).last() == s.last(),
        forall|i: int, j: int| 0 <= i < j < dedup_runs(s).len() ==> dedup_runs(s)[i] < dedup_runs(s)[j],
        forall|i: int| 0 <= i < dedup_runs(s).len() ==> s.contains(#[trigger] dedup_runs(s)[i]),
    decreases s.len(),
{
    if s.len() > 1 {
        let t = s.drop_last();
        lemma_dedup_runs_of_sorted(t);
        let d = dedup_runs(t);
        assert forall|i: int| 0 <= i < d.len() implies s.contains(#[trigger] d[i]) by {
            let k = choose|k: int| 0 <= k < t.len() && t[k] == d[i];
            assert(s[k] == d[i]);
        }
        if s.last() != s[s.len() - 2] {
            assert forall|i: int| 0 <= i < d.len() implies #[trigger] d[i] < s.last() by {
                let k = choose|k: int| 0 <= k < t.len() && t[k] == d[i];
                assert(s[k] <= s[s.len() - 2]);
            }
            let e = d.push(s.last());
            assert forall|i: int| 0 <= i < e.len() implies s.contains(#[trigger] e[i]) by {
                if i < d.len() {
                    assert(e[i] == d[i]);
                } else {
                    assert(s[s.len() - 1] == e[i]);
                }
            }
        }
    }
}

/// The pitch windows lie inside the source, start at its first sample, end
/// at its last whole window, and are all distinct and rising.
pub proof fn lemma_pitch_windows_fit(len: int, window: int)
    requires
        MIN_PITCH_WINDOW_FRAMES <= window <= len,
    ensures
        ({
            let d = dedup_runs(pitch_window_candidates(len, window));
            &&& d.len() >= 1
            &&& d[0] == 0
            &&& d.last() == len - window
            &&& forall|i: int, j: int| 0 <= i < j < d.len() ==> d[i] < d[j]
            &&& forall|i: int| 0 <= i < d.len() ==> 0 <= #[trigger] d[i] && d[i] + window <= len
        }),
{
    let c = pitch_window_candidates(len, window);
    let l = len - window;
    assert forall|i: int, j: int| 0 <= i <= j < c.len() implies c[i] <= c[j] by {
        assert(i * l <= j * l) by (nonlinear_arith)
            requires
                0 <= i <= j,
                l >= 0,
        ;
        vstd::arithmetic::div_mod::lemma_div_is_ordered(i * l, j * l, 4);
    }
    assert(c[0] == 0);
    assert(c[4] == l);
    lemma_dedup_runs_of_sorted(c);
    let d = dedup_runs(c);
    assert forall|i: int| 0 <= i < d.len() implies 0 <= #[trigger] d[i] && d[i] + window <= len by {
        let k = choose|k: int| 0 <= k < c.len() && c[k] == d[i];
        assert(c[0] <= c[k] && c[k] <= c[4]);
    }
}

/// Sample and Rich build from a root; Grain does not.
pub open spec fn algorithm_needs_root(a: ResynthAlgorithm) -> bool {
    a == ResynthAlgorithm::Sample || a == ResynthAlgorithm::Rich
}

/// Refuse to compile an algorithm that needs a root when none is known.
pub fn check_root_available(algorithm: ResynthAlgorithm, has_root: bool) -> (r: Result<(), ImportError>)
    ensures
        r == (if algorithm_needs_root(algorithm) && !has_root {
            Err(ImportError::NoStablePitch)
        } else {
            Ok(())
        }),
{
    match algorithm {
        ResynthAlgorithm::Sample | ResynthAlgorithm::Rich => {
            if !has_root {
                return Err(ImportError::NoStablePitch);
            }
        },
        ResynthAlgorithm::Grain => {},
    }
    Ok(())
}

/// Wire codes of algorithms round-trip, and exactly codes below three decode.
pub proof fn lemma_algorithm_codes(a: ResynthAlgorithm, value: u8)
    ensures
        algorithm_from_code(algorithm_code(a)) == Some(a),
        algorithm_from_code(value) is Some <==> value < 3,
{
}

/// Direction codes round-trip, and decoding is total: unknown codes are Hold.
pub proof fn lemma_direction_codes(d: GrainDirection, value: u8)
    ensures
        direction_from_code(direction_code(d)) == d,
        value > 3 ==> direction_from_code(value) == GrainDirection::Hold,
{
}

/// Sanitising is idempotent: a sanitised control set is already canonical.
pub proof fn lemma_sanitized_is_canonical(c: ResynthControls)
    ensures
        direction_code(direction_from_code(direction_code(direction_from_code(c.grain_direction))))
            == direction_code(direction_from_code(c.grain_direction)),
        direction_code(direction_from_code(c.grain_direction)) <= 3,
{
}

} // verus!
