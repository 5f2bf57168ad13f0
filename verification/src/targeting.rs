//! Pitch-mode targeting: what each detected pitch family should become, and
//! the stable two-byte wire form of a pitch mode.
use vstd::prelude::*;

verus! {

/// Supported correction scales. Semitone sets are absolute within an octave.
#[derive(Clone, Copy, Debug, Default, PartialEq, Eq, Structural)]
pub enum ScaleId {
    #[default]
    Chromatic,
    Major,
    NaturalMinor,
    HarmonicMinor,
    Dorian,
    Mixolydian,
    MajorPentatonic,
    MinorPentatonic,
    WholeTone,
}

/// Absolute correction target for a targeting pitch mode.
#[derive(Clone, Copy, Debug, Default, PartialEq, Eq, Structural)]
pub enum TargetSet {
    /// Correct every detected pitch family toward the exact played note.
    #[default]
    PlayedNote,
    /// Map every detected pitch family to the nearest note of the scale.
    Scale(ScaleId),
}

/// Top-level pitch behaviour of the resynth oscillator.
#[derive(Clone, Copy, Debug, Default, PartialEq, Eq, Structural)]
pub enum PitchMode {
    /// Granular resampling: pitch and read speed stay coupled.
    #[default]
    Classic,
    /// Duration-preserving free spectral shift by the played interval.
    Spectral,
    /// Spectral correction toward an absolute target set.
    Target(TargetSet),
}

/// The wire code of a scale: its position in `ScaleId::ALL`.
pub open spec fn scale_code(scale: ScaleId) -> u8 {
    match scale {
        ScaleId::Chromatic => 0,
        ScaleId::Major => 1,
        ScaleId::NaturalMinor => 2,
        ScaleId::HarmonicMinor => 3,
        ScaleId::Dorian => 4,
        ScaleId::Mixolydian => 5,
        ScaleId::MajorPentatonic => 6,
        ScaleId::MinorPentatonic => 7,
        ScaleId::WholeTone => 8,
    }
}

/// The scale with wire code `value`, if there is one.
pub open spec fn scale_from_code(value: u8) -> Option<ScaleId> {
    if value == 0 {
        Some(ScaleId::Chromatic)
    } else if value == 1 {
        Some(ScaleId::Major)
    } else if value == 2 {
        Some(ScaleId::NaturalMinor)
    } else if value == 3 {
        Some(ScaleId::HarmonicMinor)
    } else if value == 4 {
        Some(ScaleId::Dorian)
    } else if value == 5 {
        Some(ScaleId::Mixolydian)
    } else if value == 6 {
        Some(ScaleId::MajorPentatonic)
    } else if value == 7 {
        Some(ScaleId::MinorPentatonic)
    } else if value == 8 {
        Some(ScaleId::WholeTone)
    } else {
        None
    }
}

/// Ascending semitone offsets of a scale from its root, within one octave.
pub open spec fn scale_degrees(scale: ScaleId) -> Seq<u8> {
    match scale {
        ScaleId::Chromatic => seq![0u8, 1, 2, 3, 4, 5, 6, 7, 8, 9, 10, 11],
        ScaleId::Major => seq![0u8, 2, 4, 5, 7, 9, 11],
        ScaleId::NaturalMinor => seq![0u8, 2, 3, 5, 7, 8, 10],
        ScaleId::HarmonicMinor => seq![0u8, 2, 3, 5, 7, 8, 11],
        ScaleId::Dorian => seq![0u8, 2, 3, 5, 7, 9, 10],
        ScaleId::Mixolydian => seq![0u8, 2, 4, 5, 7, 9, 10],
        ScaleId::MajorPentatonic => seq![0u8, 2, 4, 7, 9],
        ScaleId::MinorPentatonic => seq![0u8, 3, 5, 7, 10],
        ScaleId::WholeTone => seq![0u8, 2, 4, 6, 8, 10],
    }
}

/// Display name of a scale.
pub open spec fn scale_label(scale: ScaleId) -> Seq<char> {
    match scale {
        ScaleId::Chromatic => "Chromatic"@,
        ScaleId::Major => "Major"@,
        ScaleId::NaturalMinor => "Natural Minor"@,
        ScaleId::HarmonicMinor => "Harmonic Minor"@,
        ScaleId::Dorian => "Dorian"@,
        ScaleId::Mixolydian => "Mixolydian"@,
        ScaleId::MajorPentatonic => "Major Pentatonic"@,
        ScaleId::MinorPentatonic => "Minor Pentatonic"@,
        ScaleId::WholeTone => "Whole Tone"@,
    }
}

/// The two-byte wire form of a pitch mode: a tag, and for a scale target its
/// code plus one (zero otherwise).
pub open spec fn wire_of(mode: PitchMode) -> (u8, u8) {
    match mode {
        PitchMode::Classic => (0, 0),
        PitchMode::Spectral => (1, 0),
        PitchMode::Target(TargetSet::PlayedNote) => (2, 0),
        PitchMode::Target(TargetSet::Scale(scale)) => (2, (scale_code(scale) + 1) as u8),
    }
}

/// The pitch mode a wire pair decodes to, if any.
pub open spec fn mode_from_wire(tag: u8, scale: u8) -> Option<PitchMode> {
    if tag == 0 && scale == 0 {
        Some(PitchMode::Classic)
    } else if tag == 1 && scale == 0 {
        Some(PitchMode::Spectral)
    } else if tag == 2 && scale == 0 {
        Some(PitchMode::Target(TargetSet::PlayedNote))
    } else if tag == 2 {
        match scale_from_code((scale - 1) as u8) {
            Some(s) => Some(PitchMode::Target(TargetSet::Scale(s))),
            None => None,
        }
    } else {
        None
    }
}

impl ScaleId {
    pub const ALL: [ScaleId; 9] = [
        ScaleId::Chromatic,
        ScaleId::Major,
        ScaleId::NaturalMinor,
        ScaleId::HarmonicMinor,
        ScaleId::Dorian,
        ScaleId::Mixolydian,
        ScaleId::MajorPentatonic,
        ScaleId::MinorPentatonic,
        ScaleId::WholeTone,
    ];

    /// The scale with the given code, or `None` past the last scale.
    pub fn from_u8(value: u8) -> (r: Option<ScaleId>)
        ensures
            r == scale_from_code(value),
    {
        match value {
            0 => Some(ScaleId::Chromatic),
            1 => Some(ScaleId::Major),
            2 => Some(ScaleId::NaturalMinor),
            3 => Some(ScaleId::HarmonicMinor),
            4 => Some(ScaleId::Dorian),
            5 => Some(ScaleId::Mixolydian),
            6 => Some(ScaleId::MajorPentatonic),
            7 => Some(ScaleId::MinorPentatonic),
            8 => Some(ScaleId::WholeTone),
            _ => None,
        }
    }

    /// Display name.
    pub fn label(self) -> (r: &'static str)
        ensures
            r@ == scale_label(self),
    {
        match self {
            ScaleId::Chromatic => "Chromatic",
            ScaleId::Major => "Major",
            ScaleId::NaturalMinor => "Natural Minor",
            ScaleId::HarmonicMinor => "Harmonic Minor",
            ScaleId::Dorian => "Dorian",
            ScaleId::Mixolydian => "Mixolydian",
            ScaleId::MajorPentatonic => "Major Pentatonic",
            ScaleId::MinorPentatonic => "Minor Pentatonic",
            ScaleId::WholeTone => "Whole Tone",
        }
    }

    /// Ascending semitone offsets from the scale root, spanning one octave.
    pub fn degrees(self) -> (r: &'static [u8])
        ensures
            r@ == scale_degrees(self),
    {
        match self {
            ScaleId::Chromatic => &[0u8, 1, 2, 3, 4, 5, 6, 7, 8, 9, 10, 11],
            ScaleId::Major => &[0u8, 2, 4, 5, 7, 9, 11],
            ScaleId::NaturalMinor => &[0u8, 2, 3, 5, 7, 8, 10],
            ScaleId::HarmonicMinor => &[0u8, 2, 3, 5, 7, 8, 11],
            ScaleId::Dorian => &[0u8, 2, 3, 5, 7, 9, 10],
            ScaleId::Mixolydian => &[0u8, 2, 4, 5, 7, 9, 10],
            ScaleId::MajorPentatonic => &[0u8, 2, 4, 7, 9],
            ScaleId::MinorPentatonic => &[0u8, 3, 5, 7, 10],
            ScaleId::WholeTone => &[0u8, 2, 4, 6, 8, 10],
        }
    }
}

impl PitchMode {
    /// Number of top-level pitch modes.
    pub const COUNT: usize = 3;

    /// Position of the mode's kind among the `COUNT` kinds.
    pub fn index(self) -> (r: usize)
        ensures
            r == match self {
                PitchMode::Classic => 0usize,
                PitchMode::Spectral => 1usize,
                PitchMode::Target(_) => 2usize,
            },
            r < PitchMode::COUNT,
    {
        match self {
            PitchMode::Classic => 0,
            PitchMode::Spectral => 1,
            PitchMode::Target(_) => 2,
        }
    }

    /// Display name of the mode's kind.
    pub fn label(self) -> (r: &'static str)
        ensures
            r@ == match self {
                PitchMode::Classic => "Classic"@,
                PitchMode::Spectral => "Spectral"@,
                PitchMode::Target(_) => "Target"@,
            },
    {
        match self {
            PitchMode::Classic => "Classic",
            PitchMode::Spectral => "Spectral",
            PitchMode::Target(_) => "Target",
        }
    }

    /// The stable wire form `(tag, scale)`.
    #[must_use]
    pub fn to_wire(self) -> (r: (u8, u8))
        ensures
            r == wire_of(self),
    {
        match self {
            PitchMode::Classic => (0, 0),
            PitchMode::Spectral => (1, 0),
            PitchMode::Target(TargetSet::PlayedNote) => (2, 0),
            PitchMode::Target(TargetSet::Scale(scale)) => {
                let code: u8 = match scale {
                    ScaleId::Chromatic => 0,
                    ScaleId::Major => 1,
                    ScaleId::NaturalMinor => 2,
                    ScaleId::HarmonicMinor => 3,
                    ScaleId::Dorian => 4,
                    ScaleId::Mixolydian => 5,
                    ScaleId::MajorPentatonic => 6,
                    ScaleId::MinorPentatonic => 7,
                    ScaleId::WholeTone => 8,
                };
                (2, code + 1)
            },
        }
    }

    /// Decode a wire pair; `None` for an unknown tag or scale code.
    #[must_use]
    pub fn from_wire(tag: u8, scale: u8) -> (r: Option<PitchMode>)
        ensures
            r == mode_from_wire(tag, scale),
    {
        match tag {
            0 if scale == 0 => Some(PitchMode::Classic),
            1 if scale == 0 => Some(PitchMode::Spectral),
            2 if scale == 0 => Some(PitchMode::Target(TargetSet::PlayedNote)),
            2 => match ScaleId::from_u8(scale - 1) {
                Some(s) => Some(PitchMode::Target(TargetSet::Scale(s))),
                None => None,
            },
            _ => None,
        }
    }
}

/// Every pitch mode survives the wire: decoding its encoding gives it back.
pub proof fn lemma_wire_round_trip(mode: PitchMode)
    ensures
        mode_from_wire(wire_of(mode).0, wire_of(mode).1) == Some(mode),
{
}

/// A wire pair decodes only to the mode that encodes to it, so the encoding
/// is one to one and decoding accepts nothing else.
pub proof fn lemma_wire_decoding_is_exact(tag: u8, scale: u8, mode: PitchMode)
    requires
        mode_from_wire(tag, scale) == Some(mode),
    ensures
        wire_of(mode) == (tag, scale),
{
}

/// Scale codes round-trip, and exactly the codes below nine name a scale.
pub proof fn lemma_scale_codes(scale: ScaleId, value: u8)
    ensures
        scale_from_code(scale_code(scale)) == Some(scale),
        scale_code(scale) < 9,
        scale_from_code(value) is Some <==> value < 9,
        scale_from_code(value) matches Some(s) ==> scale_code(s) == value,
{
}

/// Every scale starts at its root, rises strictly, and stays inside the octave.
pub proof fn lemma_degrees_ascend_within_octave(scale: ScaleId)
    ensures
        scale_degrees(scale).len() >= 5,
        scale_degrees(scale)[0] == 0,
        forall|i: int, j: int|
            0 <= i < j < scale_degrees(scale).len() ==> scale_degrees(scale)[i] < scale_degrees(
                scale,
            )[j],
        forall|i: int| 0 <= i < scale_degrees(scale).len() ==> scale_degrees(scale)[i] < 12,
{
    let d = scale_degrees(scale);
    assert forall|i: int, j: int| 0 <= i < j < d.len() implies d[i] < d[j] by {
        assert forall|k: int| 0 <= k < d.len() - 1 implies #[trigger] d[k] < d[k + 1] by {}
        lemma_strictly_ascending(d, i, j);
    }
}

proof fn lemma_strictly_ascending(d: Seq<u8>, i: int, j: int)
    requires
        forall|k: int| 0 <= k < d.len() - 1 ==> #[trigger] d[k] < d[k + 1],
        0 <= i < j < d.len(),
    ensures
        d[i] < d[j],
    decreases j - i,
{
    if j > i + 1 {
        lemma_strictly_ascending(d, i, j - 1);
        assert(d[j - 1] < d[j]);
    } else {
        assert(d[i] < d[i + 1]);
    }
}

/// The scale read from its degree `k` as the new root: each degree's
/// distance above degree `k` within the octave, in ascending order.
pub open spec fn mode_of(degrees: Seq<u8>, k: int) -> Seq<int> {
    Seq::new(
        degrees.len(),
        |j: int|
            {
                let d = degrees[(j + k) % (degrees.len() as int)] as int - degrees[k] as int;
                if d < 0 {
                    d + 12
                } else {
                    d
                }
            },
    )
}

/// A degree table as integers.
pub open spec fn degree_ints(degrees: Seq<u8>) -> Seq<int> {
    degrees.map_values(|d: u8| d as int)
}

/// The major scale is the step pattern whole, whole, half, whole, whole,
/// whole, half from its root back to the octave.
pub proof fn lemma_major_step_pattern()
    ensures
        scale_degrees(ScaleId::Major).len() == 7,
        scale_degrees(ScaleId::Major)[0] == 0,
        scale_degrees(ScaleId::Major)[1] - scale_degrees(ScaleId::Major)[0] == 2,
        scale_degrees(ScaleId::Major)[2] - scale_degrees(ScaleId::Major)[1] == 2,
        scale_degrees(ScaleId::Major)[3] - scale_degrees(ScaleId::Major)[2] == 1,
        scale_degrees(ScaleId::Major)[4] - scale_degrees(ScaleId::Major)[3] == 2,
        scale_degrees(ScaleId::Major)[5] - scale_degrees(ScaleId::Major)[4] == 2,
        scale_degrees(ScaleId::Major)[6] - scale_degrees(ScaleId::Major)[5] == 2,
        12 - scale_degrees(ScaleId::Major)[6] == 1,
{
}

/// The church modes are the major scale read from another root: Dorian from
/// its second degree, Mixolydian from its fifth and natural minor (Aeolian)
/// from its sixth. Harmonic minor is natural minor with a raised seventh.
pub proof fn lemma_modes_of_major()
    ensures
        degree_ints(scale_degrees(ScaleId::Dorian)) == mode_of(scale_degrees(ScaleId::Major), 1),
        degree_ints(scale_degrees(ScaleId::Mixolydian)) == mode_of(scale_degrees(ScaleId::Major), 4),
        degree_ints(scale_degrees(ScaleId::NaturalMinor)) == mode_of(
            scale_degrees(ScaleId::Major),
            5,
        ),
        scale_degrees(ScaleId::HarmonicMinor) == scale_degrees(ScaleId::NaturalMinor).update(6, 11u8),
{
    let major = scale_degrees(ScaleId::Major);
    assert(degree_ints(scale_degrees(ScaleId::Dorian)) =~= mode_of(major, 1));
    assert(degree_ints(scale_degrees(ScaleId::Mixolydian)) =~= mode_of(major, 4));
    assert(degree_ints(scale_degrees(ScaleId::NaturalMinor)) =~= mode_of(major, 5));
    assert(scale_degrees(ScaleId::HarmonicMinor) =~= scale_degrees(ScaleId::NaturalMinor).update(6, 11u8));
}

/// The major pentatonic is the major scale without its fourth and seventh
/// degrees, and the minor pentatonic is the major pentatonic read from its
/// fifth note.
pub proof fn lemma_pentatonics()
    ensures
        scale_degrees(ScaleId::MajorPentatonic) == seq![0int, 1, 2, 4, 5].map_values(
            |k: int| scale_degrees(ScaleId::Major)[k],
        ),
        degree_ints(scale_degrees(ScaleId::MinorPentatonic)) == mode_of(
            scale_degrees(ScaleId::MajorPentatonic),
            4,
        ),
{
    let major = scale_degrees(ScaleId::Major);
    assert(scale_degrees(ScaleId::MajorPentatonic) =~= seq![0int, 1, 2, 4, 5].map_values(|k: int| major[k]));
    assert(degree_ints(scale_degrees(ScaleId::MinorPentatonic)) =~= mode_of(
        scale_degrees(ScaleId::MajorPentatonic),
        4,
    ));
}

/// The chromatic scale is every semitone and the whole-tone scale every
/// second one.
pub proof fn lemma_symmetric_scales()
    ensures
        degree_ints(scale_degrees(ScaleId::Chromatic)) == Seq::new(12, |j: int| j),
        degree_ints(scale_degrees(ScaleId::WholeTone)) == Seq::new(6, |j: int| 2 * j),
{
    assert(degree_ints(scale_degrees(ScaleId::Chromatic)) =~= Seq::new(12, |j: int| j));
    assert(degree_ints(scale_degrees(ScaleId::WholeTone)) =~= Seq::new(6, |j: int| 2 * j));
}

/// Distinct scales have distinct degree tables.
pub proof fn lemma_scales_are_distinct(a: ScaleId, b: ScaleId)
    ensures
        a != b ==> scale_degrees(a) != scale_degrees(b),
{
    if a != b && scale_degrees(a) == scale_degrees(b) {
        let d = scale_degrees(a);
        assert(d.len() == scale_degrees(b).len());
        assert(d[1] == scale_degrees(b)[1]);
        assert(d[2] == scale_degrees(b)[2]);
        assert(d[3] == scale_degrees(b)[3]);
        assert(d[4] == scale_degrees(b)[4]);
        if d.len() > 5 {
            assert(d[5] == scale_degrees(b)[5]);
        }
        if d.len() > 6 {
            assert(d[6] == scale_degrees(b)[6]);
        }
    }
}

} // verus!
