//! Source container recognition and the checks that gate decoding: which
//! names and magic bytes are audio, which WAV headers are accepted, and the
//! limits on channels, rates and lengths.
use vstd::prelude::*;
use crate::resynth::{ImportError, MAX_RESYNTH_DECODED_FRAMES, MAX_RESYNTH_SOURCE_BYTES};
use vstd::string::StringSliceAdditionalSpecFns;

verus! {

/// Sample rate and channel count of a decoded source.
#[derive(Clone, Copy, Debug, PartialEq, Eq, Structural)]
pub struct DecodedSourceSpec {
    pub sample_rate: u32,
    pub channels: u16,
}

/// Lowest accepted source sample rate.
pub const MIN_SOURCE_SAMPLE_RATE: u32 = 8000;

/// Highest accepted source sample rate.
pub const MAX_SOURCE_SAMPLE_RATE: u32 = 384000;

/// The verdict on a decoded spec: mono or stereo, at a rate in range.
pub open spec fn spec_verdict(spec: DecodedSourceSpec) -> Result<(), ImportError> {
    if !(1 <= spec.channels <= 2) {
        Err(ImportError::UnsupportedChannels(spec.channels))
    } else if !(MIN_SOURCE_SAMPLE_RATE <= spec.sample_rate <= MAX_SOURCE_SAMPLE_RATE) {
        Err(ImportError::UnsupportedSampleRate(spec.sample_rate))
    } else {
        Ok(())
    }
}

/// Accept mono or stereo sources at 8 kHz to 384 kHz; channels are checked
/// first.
pub fn validate_spec(spec: DecodedSourceSpec) -> (r: Result<(), ImportError>)
    ensures
        r == spec_verdict(spec),
{
    if !(1 <= spec.channels && spec.channels <= 2) {
        return Err(ImportError::UnsupportedChannels(spec.channels));
    }
    if !(MIN_SOURCE_SAMPLE_RATE <= spec.sample_rate && spec.sample_rate <= MAX_SOURCE_SAMPLE_RATE) {
        return Err(ImportError::UnsupportedSampleRate(spec.sample_rate));
    }
    Ok(())
}

/// `pattern` occurs in `bytes` starting at `offset`.
pub open spec fn occurs_at(bytes: Seq<u8>, offset: int, pattern: Seq<u8>) -> bool {
    &&& 0 <= offset
    &&& offset + pattern.len() <= bytes.len()
    &&& bytes.subrange(offset, offset + pattern.len()) == pattern
}

/// Whether `pattern` occurs in `bytes` at `offset`.
fn occurs_at_exec(bytes: &[u8], offset: usize, pattern: &[u8]) -> (r: bool)
    ensures
        r == occurs_at(bytes@, offset as int, pattern@),
{
    if pattern.len() > bytes.len() || offset > bytes.len() - pattern.len() {
        return false;
    }
    let mut i: usize = 0;
    while i < pattern.len()
        invariant
            offset + pattern@.len() <= bytes@.len(),
            bytes@.len() == bytes.len(),
            pattern@.len() == pattern.len(),
            i <= pattern@.len(),
            forall|j: int| 0 <= j < i ==> bytes@[offset + j] == pattern@[j],
        decreases pattern@.len() - i,
    {
        if bytes[offset + i] != pattern[i] {
            proof {
                assert(bytes@.subrange(offset as int, offset + pattern@.len())[i as int] != pattern@[i as int]);
            }
            return false;
        }
        i += 1;
    }
    proof {
        assert(bytes@.subrange(offset as int, offset + pattern@.len()) =~= pattern@);
    }
    true
}

/// ASCII "RIFF".
pub open spec fn riff_tag() -> Seq<u8> {
    seq![0x52u8, 0x49, 0x46, 0x46]
}

/// ASCII "WAVE".
pub open spec fn wave_tag() -> Seq<u8> {
    seq![0x57u8, 0x41, 0x56, 0x45]
}

/// ASCII "fLaC".
pub open spec fn flac_tag() -> Seq<u8> {
    seq![0x66u8, 0x4c, 0x61, 0x43]
}

/// ASCII "FORM".
pub open spec fn form_tag() -> Seq<u8> {
    seq![0x46u8, 0x4f, 0x52, 0x4d]
}

/// ASCII "AIFF".
pub open spec fn aiff_tag() -> Seq<u8> {
    seq![0x41u8, 0x49, 0x46, 0x46]
}

/// ASCII "AIFC".
pub open spec fn aifc_tag() -> Seq<u8> {
    seq![0x41u8, 0x49, 0x46, 0x43]
}

/// ASCII "OggS".
pub open spec fn ogg_tag() -> Seq<u8> {
    seq![0x4fu8, 0x67, 0x67, 0x53]
}

/// ASCII "ID3".
pub open spec fn id3_tag() -> Seq<u8> {
    seq![0x49u8, 0x44, 0x33]
}

/// A RIFF/WAVE container header.
pub open spec fn spec_is_wave(bytes: Seq<u8>) -> bool {
    bytes.len() >= 12 && occurs_at(bytes, 0, riff_tag()) && occurs_at(bytes, 8, wave_tag())
}

/// A FORM/AIFF or FORM/AIFC container header.
pub open spec fn spec_is_aiff(bytes: Seq<u8>) -> bool {
    &&& bytes.len() >= 12
    &&& occurs_at(bytes, 0, form_tag())
    &&& (occurs_at(bytes, 8, aiff_tag()) || occurs_at(bytes, 8, aifc_tag()))
}

/// An MPEG stream: an ID3 tag, or a frame sync (0xff then three set bits).
pub open spec fn spec_is_mpeg(bytes: Seq<u8>) -> bool {
    occurs_at(bytes, 0, id3_tag()) || (bytes.len() >= 2 && bytes[0] == 0xffu8 && bytes[1] & 0xe0u8
        == 0xe0u8)
}

/// Bytes that one of the supported containers would accept.
pub open spec fn spec_looks_like_audio(bytes: Seq<u8>) -> bool {
    spec_is_wave(bytes) || occurs_at(bytes, 0, flac_tag()) || spec_is_aiff(bytes) || occurs_at(
        bytes,
        0,
        ogg_tag(),
    ) || spec_is_mpeg(bytes)
}

/// RIFF/WAVE header test.
pub fn is_wave_container(bytes: &[u8]) -> (r: bool)
    ensures
        r == spec_is_wave(bytes@),
{
    bytes.len() >= 12 && occurs_at_exec(bytes, 0, &[0x52u8, 0x49, 0x46, 0x46]) && occurs_at_exec(
        bytes,
        8,
        &[0x57u8, 0x41, 0x56, 0x45],
    )
}

/// FORM/AIFF or FORM/AIFC header test.
pub fn is_aiff_container(bytes: &[u8]) -> (r: bool)
    ensures
        r == spec_is_aiff(bytes@),
{
    bytes.len() >= 12 && occurs_at_exec(bytes, 0, &[0x46u8, 0x4f, 0x52, 0x4d]) && (occurs_at_exec(
        bytes,
        8,
        &[0x41u8, 0x49, 0x46, 0x46],
    ) || occurs_at_exec(bytes, 8, &[0x41u8, 0x49, 0x46, 0x43]))
}

/// MPEG stream test.
pub fn is_mpeg_container(bytes: &[u8]) -> (r: bool)
    ensures
        r == spec_is_mpeg(bytes@),
{
    occurs_at_exec(bytes, 0, &[0x49u8, 0x44, 0x33]) || (bytes.len() >= 2 && bytes[0] == 0xffu8
        && bytes[1] & 0xe0u8 == 0xe0u8)
}

/// Magic-byte test for every supported container.
#[must_use]
pub fn looks_like_supported_audio(bytes: &[u8]) -> (r: bool)
    ensures
        r == spec_looks_like_audio(bytes@),
{
    is_wave_container(bytes) || occurs_at_exec(bytes, 0, &[0x66u8, 0x4c, 0x61, 0x43])
        || is_aiff_container(bytes) || occurs_at_exec(bytes, 0, &[0x4fu8, 0x67, 0x67, 0x53])
        || is_mpeg_container(bytes)
}

/// ASCII lower-casing of one byte.
pub open spec fn ascii_lower(c: u8) -> u8 {
    if 0x41u8 <= c <= 0x5au8 {
        (c + 32) as u8
    } else {
        c
    }
}

/// Byte strings equal up to ASCII case.
pub open spec fn eq_ignore_ascii_case(a: Seq<u8>, b: Seq<u8>) -> bool {
    &&& a.len() == b.len()
    &&& forall|i: int| 0 <= i < a.len() ==> ascii_lower(#[trigger] a[i]) == ascii_lower(b[i])
}

/// The accepted file extensions, in lower case: wav, wave, flac, aif, aiff,
/// ogg, oga, mp3.
pub open spec fn audio_extensions() -> Seq<Seq<u8>> {
    seq![
        seq![0x77u8, 0x61, 0x76],
        seq![0x77u8, 0x61, 0x76, 0x65],
        seq![0x66u8, 0x6c, 0x61, 0x63],
        seq![0x61u8, 0x69, 0x66],
        seq![0x61u8, 0x69, 0x66, 0x66],
        seq![0x6fu8, 0x67, 0x67],
        seq![0x6fu8, 0x67, 0x61],
        seq![0x6du8, 0x70, 0x33],
    ]
}

/// An extension that names a supported format, in any ASCII case.
pub open spec fn spec_extension_supported(ext: Seq<u8>) -> bool {
    exists|k: int| 0 <= k < 8 && #[trigger] eq_ignore_ascii_case(ext, audio_extensions()[k])
}

/// Position of the last occurrence of `x` in `b`.
pub open spec fn last_index_of(b: Seq<u8>, x: u8) -> Option<int>
    decreases b.len(),
{
    if b.len() == 0 {
        None
    } else if b.last() == x {
        Some(b.len() - 1)
    } else {
        last_index_of(b.drop_last(), x)
    }
}

/// A file name is accepted by the extension after its last dot; a name with
/// no dot is accepted when its own bytes carry a supported magic number.
pub open spec fn spec_import_name_supported(name: Seq<u8>) -> bool {
    match last_index_of(name, 0x2eu8) {
        None => spec_looks_like_audio(name),
        Some(i) => spec_extension_supported(name.subrange(i + 1, name.len() as int)),
    }
}

fn ascii_lower_byte(c: u8) -> (r: u8)
    ensures
        r == ascii_lower(c),
{
    if 0x41u8 <= c && c <= 0x5au8 {
        c + 32
    } else {
        c
    }
}

/// Whether the bytes of `bytes` from `start` on equal `candidate` up to ASCII case.
fn tail_eq_ignore_ascii_case(bytes: &[u8], start: usize, candidate: &[u8]) -> (r: bool)
    requires
        start <= bytes@.len(),
    ensures
        r == eq_ignore_ascii_case(bytes@.subrange(start as int, bytes@.len() as int), candidate@),
{
    let ghost tail = bytes@.subrange(start as int, bytes@.len() as int);
    if bytes.len() - start != candidate.len() {
        return false;
    }
    let mut i: usize = 0;
    while i < candidate.len()
        invariant
            start <= bytes@.len(),
            bytes@.len() == bytes.len(),
            candidate@.len() == candidate.len(),
            bytes.len() - start == candidate.len(),
            tail == bytes@.subrange(start as int, bytes@.len() as int),
            i <= candidate.len(),
            forall|j: int| 0 <= j < i ==> ascii_lower(#[trigger] tail[j]) == ascii_lower(candidate@[j]),
        decreases candidate.len() - i,
    {
        if ascii_lower_byte(bytes[start + i]) != ascii_lower_byte(candidate[i]) {
            proof {
                assert(tail[i as int] == bytes@[start + i]);
            }
            return false;
        }
        proof {
            assert(tail[i as int] == bytes@[start + i]);
        }
        i += 1;
    }
    true
}

/// Whether the bytes of `bytes` from `start` on name a supported format.
fn tail_is_audio_extension(bytes: &[u8], start: usize) -> (r: bool)
    requires
        start <= bytes@.len(),
    ensures
        r == spec_extension_supported(bytes@.subrange(start as int, bytes@.len() as int)),
{
    let ghost tail = bytes@.subrange(start as int, bytes@.len() as int);
    let ghost exts = audio_extensions();
    let r = tail_eq_ignore_ascii_case(bytes, start, &[0x77u8, 0x61, 0x76])
        || tail_eq_ignore_ascii_case(bytes, start, &[0x77u8, 0x61, 0x76, 0x65])
        || tail_eq_ignore_ascii_case(bytes, start, &[0x66u8, 0x6c, 0x61, 0x63])
        || tail_eq_ignore_ascii_case(bytes, start, &[0x61u8, 0x69, 0x66])
        || tail_eq_ignore_ascii_case(bytes, start, &[0x61u8, 0x69, 0x66, 0x66])
        || tail_eq_ignore_ascii_case(bytes, start, &[0x6fu8, 0x67, 0x67])
        || tail_eq_ignore_ascii_case(bytes, start, &[0x6fu8, 0x67, 0x61])
        || tail_eq_ignore_ascii_case(bytes, start, &[0x6du8, 0x70, 0x33]);
    proof {
        if r {
            assert(spec_extension_supported(tail)) by {
                if eq_ignore_ascii_case(tail, exts[0]) {
                } else if eq_ignore_ascii_case(tail, exts[1]) {
                } else if eq_ignore_ascii_case(tail, exts[2]) {
                } else if eq_ignore_ascii_case(tail, exts[3]) {
                } else if eq_ignore_ascii_case(tail, exts[4]) {
                } else if eq_ignore_ascii_case(tail, exts[5]) {
                } else if eq_ignore_ascii_case(tail, exts[6]) {
                } else {
                    assert(eq_ignore_ascii_case(tail, exts[7]));
                }
            }
        } else {
            assert(!eq_ignore_ascii_case(tail, exts[0]));
            assert(!eq_ignore_ascii_case(tail, exts[1]));
            assert(!eq_ignore_ascii_case(tail, exts[2]));
            assert(!eq_ignore_ascii_case(tail, exts[3]));
            assert(!eq_ignore_ascii_case(tail, exts[4]));
            assert(!eq_ignore_ascii_case(tail, exts[5]));
            assert(!eq_ignore_ascii_case(tail, exts[6]));
            assert(!eq_ignore_ascii_case(tail, exts[7]));
        }
    }
    r
}

/// Whether an extension (without its dot) names a supported format, in any
/// ASCII case.
#[must_use]
pub fn is_supported_audio_import_extension(extension: &str) -> (r: bool)
    ensures
        r == spec_extension_supported(extension.spec_bytes()),
{
    let bytes = extension.as_bytes();
    proof {
        assert(bytes@.subrange(0, bytes@.len() as int) =~= bytes@);
    }
    tail_is_audio_extension(bytes, 0)
}

/// Whether a file name looks importable: by the extension after its last
/// dot, or, with no dot, by the magic bytes of the name itself.
#[must_use]
pub fn is_supported_audio_import_name(name: &str) -> (r: bool)
    ensures
        r == spec_import_name_supported(name.spec_bytes()),
{
    let bytes = name.as_bytes();
    let mut i: usize = bytes.len();
    proof {
        assert(bytes@.subrange(0, bytes@.len() as int) =~= bytes@);
    }
    while i > 0
        invariant
            i <= bytes@.len(),
            bytes@.len() == bytes.len(),
            bytes@ == name.spec_bytes(),
            last_index_of(bytes@.subrange(0, i as int), 0x2eu8) == last_index_of(bytes@, 0x2eu8),
        decreases i,
    {
        let ghost prefix = bytes@.subrange(0, i as int);
        if bytes[i - 1] == 0x2eu8 {
            proof {
                assert(prefix.last() == 0x2eu8);
                assert(last_index_of(prefix, 0x2eu8) == Some(i - 1));
                assert(last_index_of(bytes@, 0x2eu8) == Some(i - 1));
                assert(bytes@.subrange((i - 1) + 1, bytes@.len() as int) == bytes@.subrange(i as int, bytes@.len() as int));
            }
            let r = tail_is_audio_extension(bytes, i);
            proof {
                assert(spec_import_name_supported(bytes@) == spec_extension_supported(bytes@.subrange(i as int, bytes@.len() as int)));
            }
            return r;
        }
        proof {
            assert(prefix.drop_last() =~= bytes@.subrange(0, i - 1));
        }
        i -= 1;
    }
    proof {
        assert(bytes@.subrange(0, 0) =~= Seq::<u8>::empty());
    }
    looks_like_supported_audio(bytes)
}

/// Where a source goes to be decoded.
#[derive(Clone, Copy, Debug, PartialEq, Eq, Structural)]
pub enum SourceRoute {
    /// A RIFF/WAVE container, read by the WAV reader.
    Wave,
    /// Any other supported container, read by the general decoder.
    Compressed,
}

/// The verdict before decoding a source: it must be non-empty and within the
/// byte limit; a WAVE header goes to the WAV reader, other magic numbers of a
/// supported container to the general decoder, and anything else is refused.
pub open spec fn route_verdict(bytes: Seq<u8>) -> Result<SourceRoute, ImportError> {
    if bytes.len() == 0 {
        Err(ImportError::Empty)
    } else if bytes.len() > MAX_RESYNTH_SOURCE_BYTES {
        Err(ImportError::Oversize { bytes: bytes.len() as usize, limit: MAX_RESYNTH_SOURCE_BYTES })
    } else if spec_is_wave(bytes) {
        Ok(SourceRoute::Wave)
    } else if spec_looks_like_audio(bytes) {
        Ok(SourceRoute::Compressed)
    } else {
        Err(ImportError::UnsupportedWav)
    }
}

/// Decide how a source is decoded, or why it is refused.
pub fn route_source(bytes: &[u8]) -> (r: Result<SourceRoute, ImportError>)
    ensures
        r == route_verdict(bytes@),
{
    if bytes.len() == 0 {
        return Err(ImportError::Empty);
    }
    if bytes.len() > MAX_RESYNTH_SOURCE_BYTES {
        return Err(ImportError::Oversize { bytes: bytes.len(), limit: MAX_RESYNTH_SOURCE_BYTES });
    }
    if is_wave_container(bytes) {
        return Ok(SourceRoute::Wave);
    }
    if looks_like_supported_audio(bytes) {
        Ok(SourceRoute::Compressed)
    } else {
        Err(ImportError::UnsupportedWav)
    }
}

/// What the WAV reader learns from a container's header.
#[derive(Clone, Copy, Debug, PartialEq, Eq, Structural)]
pub struct WavHeader {
    pub sample_rate: u32,
    pub channels: u16,
    pub bits_per_sample: u16,
    /// IEEE float samples (otherwise integer PCM).
    pub is_float: bool,
    /// Frames per channel.
    pub frames: u32,
}

/// The header that `hound`'s WAV reader parses from a byte buffer, or `None`
/// where it refuses the buffer.
pub uninterp spec fn wav_header_of(bytes: Seq<u8>) -> Option<WavHeader>;

/// Parses a WAV header with `hound::WavReader::new` over the in-memory bytes
/// and reads its `spec()` and `duration()`. The contract claims only that the
/// outcome is the named function of the bytes; the reader reports malformed
/// input as an error rather than panicking, and `duration()` divides by a
/// channel count that the reader has already checked to be non-zero.
#[verifier::external_body]
fn read_wav_header(bytes: &[u8]) -> (r: Option<WavHeader>)
    ensures
        r == wav_header_of(bytes@),
{
    match hound::WavReader::new(std::io::Cursor::new(bytes)) {
        Ok(reader) => {
            let spec = reader.spec();
            let is_float = match spec.sample_format {
                hound::SampleFormat::Float => true,
                hound::SampleFormat::Int => false,
            };
            Some(WavHeader { sample_rate: spec.sample_rate, channels: spec.channels, bits_per_sample: spec.bits_per_sample, is_float, frames: reader.duration() })
        },
        Err(_) => None,
    }
}

/// An accepted WAV source, ready for sample decoding.
#[derive(Clone, Copy, Debug, PartialEq, Eq, Structural)]
pub struct WavSource {
    pub spec: DecodedSourceSpec,
    pub frames: usize,
    pub bits_per_sample: u16,
    pub is_float: bool,
}

/// The verdict on a parsed WAV header: unparseable headers are unsupported,
/// the spec must pass `validate_spec`, and the length must be between one
/// frame and the decoded-frame limit.
pub open spec fn wav_header_verdict(header: Option<WavHeader>) -> Result<WavSource, ImportError> {
    match header {
        None => Err(ImportError::UnsupportedWav),
        Some(h) => {
            let spec = DecodedSourceSpec { sample_rate: h.sample_rate, channels: h.channels };
            match spec_verdict(spec) {
                Err(e) => Err(e),
                Ok(_) => if h.frames == 0 || h.frames > MAX_RESYNTH_DECODED_FRAMES {
                    Err(ImportError::TooManyFrames)
                } else {
                    Ok(
                        WavSource {
                            spec,
                            frames: h.frames as usize,
                            bits_per_sample: h.bits_per_sample,
                            is_float: h.is_float,
                        },
                    )
                },
            }
        },
    }
}

/// Judge a parsed WAV header.
pub fn check_wav_header(header: Option<WavHeader>) -> (r: Result<WavSource, ImportError>)
    ensures
        r == wav_header_verdict(header),
{
    match header {
        None => Err(ImportError::UnsupportedWav),
        Some(h) => {
            let spec = DecodedSourceSpec { sample_rate: h.sample_rate, channels: h.channels };
            match validate_spec(spec) {
                Err(e) => Err(e),
                Ok(()) => {
                    let frames = h.frames as usize;
                    if frames == 0 || frames > MAX_RESYNTH_DECODED_FRAMES {
                        Err(ImportError::TooManyFrames)
                    } else {
                        Ok(
                            WavSource {
                                spec,
                                frames,
                                bits_per_sample: h.bits_per_sample,
                                is_float: h.is_float,
                            },
                        )
                    }
                },
            }
        },
    }
}

/// Read and judge the header of a WAV source.
pub fn inspect_wav_source(bytes: &[u8]) -> (r: Result<WavSource, ImportError>)
    ensures
        r == wav_header_verdict(wav_header_of(bytes@)),
{
    let header = read_wav_header(bytes);
    check_wav_header(header)
}

/// The verdict on interleaved samples read from a WAV source: they must fill
/// whole frames, exactly as many as the header announced.
pub open spec fn wav_samples_verdict(samples: usize, channels: u16, frames: usize) -> Result<(), ImportError> {
    if samples % (channels as usize) != 0 || samples / (channels as usize) != frames {
        Err(ImportError::UnsupportedWav)
    } else {
        Ok(())
    }
}

/// Check that the interleaved samples read fill exactly the announced frames.
pub fn check_wav_sample_count(samples: usize, channels: u16, frames: usize) -> (r: Result<(), ImportError>)
    requires
        channels >= 1,
    ensures
        r == wav_samples_verdict(samples, channels, frames),
{
    let channel_count = channels as usize;
    if samples % channel_count != 0 || samples / channel_count != frames {
        Err(ImportError::UnsupportedWav)
    } else {
        Ok(())
    }
}

/// What one turn of the packet loop of the general decoder observed.
#[derive(Clone, Copy, Debug, PartialEq, Eq, Structural)]
pub enum PacketEvent {
    /// The caller asked to stop.
    Cancelled,
    /// The container has no more packets.
    EndOfStream,
    /// The container asks for the decoder to be reset.
    ResetRequired,
    /// The container could not deliver the next packet.
    ReadFailed,
    /// The packet belongs to another track.
    OtherTrack,
    /// The packet's data is corrupt.
    Corrupt,
    /// The decoder failed on the packet for another reason.
    DecodeFailed,
    /// The packet was decoded and its frames appended.
    Decoded,
}

/// What the packet loop does next.
#[derive(Clone, Copy, Debug, PartialEq, Eq, Structural)]
pub enum DecodeStep {
    /// Fetch the next packet.
    Next,
    /// Reset the decoder, then fetch the next packet.
    Reset,
    /// Stop; the frames decoded so far are the source.
    Finish,
    /// Stop with this error.
    Fail(ImportError),
}

/// The packet loop's decision, given the number of frames decoded so far
/// (those of the packet just decoded included) and what the turn observed:
/// corrupt packets and packets of other tracks are skipped, a reset request
/// resets the decoder, the end of the stream finishes a non-empty source, and
/// a source that grows past the frame limit is refused.
pub open spec fn decode_step_spec(frames: usize, event: PacketEvent) -> DecodeStep {
    match event {
        PacketEvent::Cancelled => DecodeStep::Fail(ImportError::Cancelled),
        PacketEvent::EndOfStream => if frames == 0 {
            DecodeStep::Fail(ImportError::Empty)
        } else {
            DecodeStep::Finish
        },
        PacketEvent::ResetRequired => DecodeStep::Reset,
        PacketEvent::ReadFailed => DecodeStep::Fail(ImportError::UnsupportedWav),
        PacketEvent::OtherTrack => DecodeStep::Next,
        PacketEvent::Corrupt => DecodeStep::Next,
        PacketEvent::DecodeFailed => DecodeStep::Fail(ImportError::UnsupportedWav),
        PacketEvent::Decoded => if frames > MAX_RESYNTH_DECODED_FRAMES {
            DecodeStep::Fail(ImportError::TooManyFrames)
        } else {
            DecodeStep::Next
        },
    }
}

/// Decide the packet loop's next step.
pub fn decode_step(frames: usize, event: PacketEvent) -> (r: DecodeStep)
    ensures
        r == decode_step_spec(frames, event),
{
    match event {
        PacketEvent::Cancelled => DecodeStep::Fail(ImportError::Cancelled),
        PacketEvent::EndOfStream => {
            if frames == 0 {
                DecodeStep::Fail(ImportError::Empty)
            } else {
                DecodeStep::Finish
            }
        },
        PacketEvent::ResetRequired => DecodeStep::Reset,
        PacketEvent::ReadFailed => DecodeStep::Fail(ImportError::UnsupportedWav),
        PacketEvent::OtherTrack | PacketEvent::Corrupt => DecodeStep::Next,
        PacketEvent::DecodeFailed => DecodeStep::Fail(ImportError::UnsupportedWav),
        PacketEvent::Decoded => {
            if frames > MAX_RESYNTH_DECODED_FRAMES {
                DecodeStep::Fail(ImportError::TooManyFrames)
            } else {
                DecodeStep::Next
            }
        },
    }
}

/// The frame counts seen by a run of the packet loop: each turn's count, and
/// the count only grows on a turn that decoded a packet.
pub open spec fn frames_follow_events(frames: Seq<usize>, events: Seq<PacketEvent>) -> bool {
    &&& frames.len() == events.len()
    &&& forall|k: int|
        0 < k < frames.len() && events[k] != PacketEvent::Decoded ==> #[trigger] frames[k] == frames[k - 1]
    &&& (frames.len() > 0 && events[0] != PacketEvent::Decoded ==> frames[0] == 0)
}

/// Every turn before the last one went on to fetch another packet.
pub open spec fn loop_continued(frames: Seq<usize>, events: Seq<PacketEvent>) -> bool {
    forall|k: int|
        0 <= k < frames.len() - 1 ==> {
            let step = decode_step_spec(#[trigger] frames[k], events[k]);
            step == DecodeStep::Next || step == DecodeStep::Reset
        }
}

/// The turn at or before `k` that last changed the frame count: a decoded
/// turn, or the first turn with no frames yet.
proof fn last_growth(frames: Seq<usize>, events: Seq<PacketEvent>, k: int) -> (j: int)
    requires
        0 <= k < frames.len(),
        frames_follow_events(frames, events),
    ensures
        0 <= j <= k,
        frames[j] == frames[k],
        events[j] == PacketEvent::Decoded || frames[k] == 0,
    decreases k,
{
    if k == 0 || events[k] == PacketEvent::Decoded {
        k
    } else {
        assert(frames[k] == frames[k - 1]);
        last_growth(frames, events, k - 1)
    }
}

/// A run of the packet loop that finishes holds at least one frame and no
/// more than the frame limit, and it finishes only at the end of the stream.
pub proof fn lemma_finished_source_is_within_limits(frames: Seq<usize>, events: Seq<PacketEvent>)
    requires
        frames.len() > 0,
        frames_follow_events(frames, events),
        loop_continued(frames, events),
        decode_step_spec(frames.last(), events.last()) == DecodeStep::Finish,
    ensures
        events.last() == PacketEvent::EndOfStream,
        1 <= frames.last() <= MAX_RESYNTH_DECODED_FRAMES,
{
    let n = frames.len() as int;
    if frames.last() > MAX_RESYNTH_DECODED_FRAMES {
        // The count last grew on a decoded turn, where the limit was checked.
        let k = last_growth(frames, events, n - 1);
        assert(k < n - 1 ==> decode_step_spec(frames[k], events[k]) == DecodeStep::Fail(
            ImportError::TooManyFrames,
        ));
    }
}

/// Only a RIFF/WAVE header is routed to the WAV reader: a source routed
/// there starts with `RIFF` and carries `WAVE` at byte 8. Every other
/// supported container within the size limit, FORM/AIFF and FORM/AIFC among
/// them, is routed to the general decoder.
pub proof fn lemma_route_sends_only_wave_to_wav_reader(bytes: Seq<u8>)
    ensures
        route_verdict(bytes) == Ok::<SourceRoute, ImportError>(SourceRoute::Wave) ==> {
            &&& bytes.len() >= 12
            &&& bytes.subrange(0, 4) == seq![0x52u8, 0x49, 0x46, 0x46]
            &&& bytes.subrange(8, 12) == seq![0x57u8, 0x41, 0x56, 0x45]
        },
        spec_is_aiff(bytes) && bytes.len() <= MAX_RESYNTH_SOURCE_BYTES ==> route_verdict(bytes)
            == Ok::<SourceRoute, ImportError>(SourceRoute::Compressed),
        spec_looks_like_audio(bytes) && !spec_is_wave(bytes) && bytes.len()
            <= MAX_RESYNTH_SOURCE_BYTES ==> route_verdict(bytes) == Ok::<SourceRoute, ImportError>(
            SourceRoute::Compressed,
        ),
{
    if spec_is_aiff(bytes) && spec_is_wave(bytes) {
        assert(bytes.subrange(0, 4)[0] == riff_tag()[0]);
        assert(bytes.subrange(0, 4)[0] == form_tag()[0]);
    }
}

/// An accepted WAV header is described exactly: the source keeps the
/// header's rate, channel count, frame count, bit depth and sample format.
/// A header is accepted exactly when it has one or two channels, a rate
/// from 8 kHz to 384 kHz, and between one frame and the frame limit.
pub proof fn lemma_accepted_wav_keeps_header(h: WavHeader)
    ensures
        wav_header_verdict(Some(h)) is Ok <==> {
            &&& 1 <= h.channels <= 2
            &&& MIN_SOURCE_SAMPLE_RATE <= h.sample_rate <= MAX_SOURCE_SAMPLE_RATE
            &&& 1 <= h.frames <= MAX_RESYNTH_DECODED_FRAMES
        },
        wav_header_verdict(Some(h)) matches Ok(s) ==> {
            &&& s.spec.sample_rate == h.sample_rate
            &&& s.spec.channels == h.channels
            &&& s.frames == h.frames
            &&& s.bits_per_sample == h.bits_per_sample
            &&& s.is_float == h.is_float
        },
        !(1 <= h.channels <= 2) ==> wav_header_verdict(Some(h)) == Err::<WavSource, ImportError>(
            ImportError::UnsupportedChannels(h.channels),
        ),
        1 <= h.channels <= 2 && !(MIN_SOURCE_SAMPLE_RATE <= h.sample_rate <= MAX_SOURCE_SAMPLE_RATE)
            ==> wav_header_verdict(Some(h)) == Err::<WavSource, ImportError>(
            ImportError::UnsupportedSampleRate(h.sample_rate),
        ),
        1 <= h.channels <= 2 && MIN_SOURCE_SAMPLE_RATE <= h.sample_rate <= MAX_SOURCE_SAMPLE_RATE
            && !(1 <= h.frames <= MAX_RESYNTH_DECODED_FRAMES) ==> wav_header_verdict(Some(h)) == Err::<
            WavSource,
            ImportError,
        >(ImportError::TooManyFrames),
        wav_header_verdict(None) == Err::<WavSource, ImportError>(ImportError::UnsupportedWav),
{
}

/// The magic numbers of the supported containers, byte by byte: a source is
/// taken for audio exactly when it starts with `fLaC`, `OggS` or `ID3`, with
/// an MPEG frame sync (`0xff`, then a byte with its top three bits set), or
/// with a 12-byte `RIFF`....`WAVE` or `FORM`....`AIFF`/`AIFC` header.
pub proof fn lemma_audio_magic_numbers(bytes: Seq<u8>)
    ensures
        spec_looks_like_audio(bytes) <==> {
            ||| bytes.len() >= 4 && bytes.subrange(0, 4) == seq![0x66u8, 0x4c, 0x61, 0x43]
            ||| bytes.len() >= 4 && bytes.subrange(0, 4) == seq![0x4fu8, 0x67, 0x67, 0x53]
            ||| bytes.len() >= 3 && bytes.subrange(0, 3) == seq![0x49u8, 0x44, 0x33]
            ||| bytes.len() >= 2 && bytes[0] == 0xffu8 && bytes[1] >= 0xe0u8
            ||| bytes.len() >= 12 && bytes.subrange(0, 4) == seq![0x52u8, 0x49, 0x46, 0x46]
                && bytes.subrange(8, 12) == seq![0x57u8, 0x41, 0x56, 0x45]
            ||| bytes.len() >= 12 && bytes.subrange(0, 4) == seq![0x46u8, 0x4f, 0x52, 0x4d] && (
            bytes.subrange(8, 12) == seq![0x41u8, 0x49, 0x46, 0x46] || bytes.subrange(8, 12)
                == seq![0x41u8, 0x49, 0x46, 0x43])
        },
{
    if bytes.len() >= 2 {
        let b = bytes[1];
        assert((b & 0xe0u8 == 0xe0u8) <==> b >= 0xe0u8) by (bit_vector);
    }
}

/// Every source gets exactly one verdict before decoding: empty sources are
/// `Empty`, sources over the byte limit are `Oversize` with their length,
/// sources within the limit are routed when they carry a supported magic
/// number and refused as `UnsupportedWav` otherwise.
pub proof fn lemma_route_verdicts(bytes: Seq<u8>)
    ensures
        bytes.len() == 0 ==> route_verdict(bytes) == Err::<SourceRoute, ImportError>(ImportError::Empty),
        bytes.len() > MAX_RESYNTH_SOURCE_BYTES ==> route_verdict(bytes) == Err::<
            SourceRoute,
            ImportError,
        >(ImportError::Oversize { bytes: bytes.len() as usize, limit: MAX_RESYNTH_SOURCE_BYTES }),
        0 < bytes.len() <= MAX_RESYNTH_SOURCE_BYTES ==> (route_verdict(bytes) is Ok
            <==> spec_looks_like_audio(bytes)),
        0 < bytes.len() <= MAX_RESYNTH_SOURCE_BYTES && !spec_looks_like_audio(bytes) ==> route_verdict(
            bytes,
        ) == Err::<SourceRoute, ImportError>(ImportError::UnsupportedWav),
        spec_is_wave(bytes) && bytes.len() <= MAX_RESYNTH_SOURCE_BYTES ==> route_verdict(bytes)
            == Ok::<SourceRoute, ImportError>(SourceRoute::Wave),
{
}

/// The last dot of `stem`, a dot, then `ext` with no dot, is the dot before
/// `ext`.
proof fn lemma_last_dot_before_extension(stem: Seq<u8>, ext: Seq<u8>)
    requires
        !ext.contains(0x2eu8),
    ensures
        last_index_of(stem.push(0x2eu8) + ext, 0x2eu8) == Some(stem.len() as int),
    decreases ext.len(),
{
    let name = stem.push(0x2eu8) + ext;
    if ext.len() == 0 {
        assert(name =~= stem.push(0x2eu8));
    } else {
        let shorter = ext.drop_last();
        assert(name.drop_last() =~= stem.push(0x2eu8) + shorter);
        assert(name.last() == ext.last());
        assert(ext.last() != 0x2eu8) by {
            assert(ext[ext.len() - 1] == ext.last());
        }
        assert forall|x: u8| shorter.contains(x) implies ext.contains(x) by {
            let k = choose|k: int| 0 <= k < shorter.len() && shorter[k] == x;
            assert(ext[k] == x);
        }
        lemma_last_dot_before_extension(stem, shorter);
    }
}

/// A file name with an extension is judged by that extension alone, in any
/// ASCII case: the accepted extensions are `wav`, `wave`, `flac`, `aif`,
/// `aiff`, `ogg`, `oga` and `mp3`. A name with no dot is judged by its own
/// bytes as if they were a source.
pub proof fn lemma_import_name_follows_extension(stem: Seq<u8>, ext: Seq<u8>, bare: Seq<u8>)
    requires
        !ext.contains(0x2eu8),
    ensures
        spec_import_name_supported(stem.push(0x2eu8) + ext) == spec_extension_supported(ext),
        spec_extension_supported(ext) <==> {
            let lower = ext.map_values(|c: u8| ascii_lower(c));
            ||| lower == seq![0x77u8, 0x61, 0x76]
            ||| lower == seq![0x77u8, 0x61, 0x76, 0x65]
            ||| lower == seq![0x66u8, 0x6c, 0x61, 0x63]
            ||| lower == seq![0x61u8, 0x69, 0x66]
            ||| lower == seq![0x61u8, 0x69, 0x66, 0x66]
            ||| lower == seq![0x6fu8, 0x67, 0x67]
            ||| lower == seq![0x6fu8, 0x67, 0x61]
            ||| lower == seq![0x6du8, 0x70, 0x33]
        },
        !bare.contains(0x2eu8) ==> spec_import_name_supported(bare) == spec_looks_like_audio(bare),
{
    lemma_last_dot_before_extension(stem, ext);
    let name = stem.push(0x2eu8) + ext;
    assert(name.subrange(stem.len() as int + 1, name.len() as int) =~= ext);
    let lower = ext.map_values(|c: u8| ascii_lower(c));
    let exts = audio_extensions();
    assert forall|k: int| 0 <= k < 8 implies #[trigger] eq_ignore_ascii_case(ext, exts[k]) == (lower
        == exts[k]) by {
        let e = exts[k];
        assert forall|i: int| 0 <= i < e.len() implies ascii_lower(e[i]) == e[i] by {}
        if eq_ignore_ascii_case(ext, e) {
            assert(lower =~= e);
        }
        if lower == e {
            assert forall|i: int| 0 <= i < ext.len() implies ascii_lower(#[trigger] ext[i]) == ascii_lower(
                e[i],
            ) by {
                assert(lower[i] == e[i]);
            }
        }
    }
    if lower == exts[0] || lower == exts[1] || lower == exts[2] || lower == exts[3] || lower == exts[4]
        || lower == exts[5] || lower == exts[6] || lower == exts[7] {
        assert(spec_extension_supported(ext)) by {
            if lower == exts[0] { assert(eq_ignore_ascii_case(ext, exts[0])); }
            if lower == exts[1] { assert(eq_ignore_ascii_case(ext, exts[1])); }
            if lower == exts[2] { assert(eq_ignore_ascii_case(ext, exts[2])); }
            if lower == exts[3] { assert(eq_ignore_ascii_case(ext, exts[3])); }
            if lower == exts[4] { assert(eq_ignore_ascii_case(ext, exts[4])); }
            if lower == exts[5] { assert(eq_ignore_ascii_case(ext, exts[5])); }
            if lower == exts[6] { assert(eq_ignore_ascii_case(ext, exts[6])); }
            if lower == exts[7] { assert(eq_ignore_ascii_case(ext, exts[7])); }
        }
    }
    if !bare.contains(0x2eu8) {
        lemma_no_dot_has_no_last_dot(bare);
    }
}

/// A byte string with no dot has no last dot.
proof fn lemma_no_dot_has_no_last_dot(b: Seq<u8>)
    requires
        !b.contains(0x2eu8),
    ensures
        last_index_of(b, 0x2eu8) is None,
    decreases b.len(),
{
    if b.len() > 0 {
        assert(b[b.len() - 1] == b.last());
        assert forall|x: u8| b.drop_last().contains(x) implies b.contains(x) by {
            let k = choose|k: int| 0 <= k < b.drop_last().len() && b.drop_last()[k] == x;
            assert(b[k] == x);
        }
        lemma_no_dot_has_no_last_dot(b.drop_last());
    }
}

} // verus!
