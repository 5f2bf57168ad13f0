//! Source digests: the BLAKE3 fingerprint that identifies an imported source
//! file, and the framed digest that identifies the PCM a visual cache was
//! built from.
use vstd::prelude::*;

verus! {

/// The 32-byte BLAKE3 hash of `data`.
pub uninterp spec fn blake3_digest(data: Seq<u8>) -> Seq<u8>;

/// Calls `blake3::hash` and copies out its 32 bytes. The contract claims only
/// that the result is the named BLAKE3 function of the input; BLAKE3 is a
/// deterministic hash of its input alone.
#[verifier::external_body]
fn blake3_hash(data: &[u8]) -> (r: [u8; 32])
    ensures
        r@ == blake3_digest(data@),
{
    *blake3::hash(data).as_bytes()
}

/// The BLAKE3 digest of a source file's exact bytes.
#[must_use]
pub fn source_digest(bytes: &[u8]) -> (r: [u8; 32])
    ensures
        r@ == blake3_digest(bytes@),
{
    blake3_hash(bytes)
}

/// Whether two digests are byte for byte equal.
#[must_use]
pub fn digests_equal(a: &[u8; 32], b: &[u8; 32]) -> (r: bool)
    ensures
        r == (a@ == b@),
{
    let mut i: usize = 0;
    while i < 32
        invariant
            i <= 32,
            a@.len() == 32,
            b@.len() == 32,
            forall|j: int| 0 <= j < i ==> a@[j] == b@[j],
        decreases 32 - i,
    {
        if a[i] != b[i] {
            return false;
        }
        i += 1;
    }
    proof {
        assert(a@ =~= b@);
    }
    true
}

/// A retained visual cache may be reused only when it was built from a
/// source with the same digest.
#[must_use]
pub fn visual_cache_is_current(cached_digest: Option<[u8; 32]>, digest: &[u8; 32]) -> (r: bool)
    ensures
        r == (cached_digest matches Some(d) && d@ == digest@),
{
    match cached_digest {
        Some(d) => digests_equal(&d, digest),
        None => false,
    }
}

/// Whether a retained visual cache belongs to the source with these bytes.
#[must_use]
pub fn cached_visuals_match(cached_digest: Option<[u8; 32]>, bytes: &[u8]) -> (r: bool)
    ensures
        r == (cached_digest matches Some(d) && d@ == blake3_digest(bytes@)),
{
    let digest = source_digest(bytes);
    visual_cache_is_current(cached_digest, &digest)
}

/// Domain tag of the visual digest: ASCII "kurv-resynth-source-visual-v1".
pub open spec fn visual_digest_tag() -> Seq<u8> {
    seq![
        0x6bu8, 0x75, 0x72, 0x76, 0x2d, 0x72, 0x65, 0x73, 0x79, 0x6e, 0x74, 0x68, 0x2d, 0x73,
        0x6f, 0x75, 0x72, 0x63, 0x65, 0x2d, 0x76, 0x69, 0x73, 0x75, 0x61, 0x6c, 0x2d, 0x76, 0x31,
    ]
}

/// Little-endian bytes of a 32-bit word.
pub open spec fn le_bytes(x: u32) -> Seq<u8> {
    seq![
        (x & 0xffu32) as u8,
        ((x >> 8u32) & 0xffu32) as u8,
        ((x >> 16u32) & 0xffu32) as u8,
        ((x >> 24u32) & 0xffu32) as u8,
    ]
}

/// Little-endian bytes of each word in turn.
pub open spec fn words_le_bytes(words: Seq<u32>) -> Seq<u8>
    decreases words.len(),
{
    if words.len() == 0 {
        Seq::empty()
    } else {
        words_le_bytes(words.drop_last()) + le_bytes(words.last())
    }
}

/// The bytes the visual digest hashes: the domain tag, the sample rate, then
/// every sample's IEEE-754 bit pattern, all little-endian.
pub open spec fn visual_digest_input(sample_bits: Seq<u32>, sample_rate: u32) -> Seq<u8> {
    visual_digest_tag() + le_bytes(sample_rate) + words_le_bytes(sample_bits)
}

fn push_le_bytes(out: &mut Vec<u8>, x: u32)
    ensures
        final(out)@ == old(out)@ + le_bytes(x),
{
    out.push((x & 0xffu32) as u8);
    out.push(((x >> 8u32) & 0xffu32) as u8);
    out.push(((x >> 16u32) & 0xffu32) as u8);
    out.push(((x >> 24u32) & 0xffu32) as u8);
    proof {
        assert(final(out)@ =~= old(out)@ + le_bytes(x));
    }
}

/// Frame the sample bit patterns and sample rate for the visual digest.
pub fn visual_digest_bytes(sample_bits: &[u32], sample_rate: u32) -> (r: Vec<u8>)
    ensures
        r@ == visual_digest_input(sample_bits@, sample_rate),
{
    let tag: &[u8] = &[
        0x6bu8, 0x75, 0x72, 0x76, 0x2d, 0x72, 0x65, 0x73, 0x79, 0x6e, 0x74, 0x68, 0x2d, 0x73,
        0x6f, 0x75, 0x72, 0x63, 0x65, 0x2d, 0x76, 0x69, 0x73, 0x75, 0x61, 0x6c, 0x2d, 0x76, 0x31,
    ];
    let mut out: Vec<u8> = Vec::new();
    let mut i: usize = 0;
    while i < tag.len()
        invariant
            tag@ == visual_digest_tag(),
            i <= tag@.len(),
            out@ == tag@.subrange(0, i as int),
        decreases tag@.len() - i,
    {
        out.push(tag[i]);
        proof {
            assert(out@ =~= tag@.subrange(0, i + 1));
        }
        i += 1;
    }
    proof {
        assert(tag@.subrange(0, tag@.len() as int) =~= tag@);
    }
    push_le_bytes(&mut out, sample_rate);
    let mut k: usize = 0;
    while k < sample_bits.len()
        invariant
            k <= sample_bits@.len(),
            out@ == visual_digest_tag() + le_bytes(sample_rate) + words_le_bytes(
                sample_bits@.subrange(0, k as int),
            ),
        decreases sample_bits@.len() - k,
    {
        push_le_bytes(&mut out, sample_bits[k]);
        proof {
            let prefix = sample_bits@.subrange(0, k + 1);
            assert(prefix.drop_last() =~= sample_bits@.subrange(0, k as int));
            assert(prefix.last() == sample_bits@[k as int]);
            assert(out@ =~= visual_digest_tag() + le_bytes(sample_rate) + words_le_bytes(prefix));
        }
        k += 1;
    }
    proof {
        assert(sample_bits@.subrange(0, sample_bits@.len() as int) =~= sample_bits@);
    }
    out
}

/// Digest of the PCM a visual cache describes.
#[must_use]
pub fn visual_source_digest(sample_bits: &[u32], sample_rate: u32) -> (r: [u8; 32])
    ensures
        r@ == blake3_digest(visual_digest_input(sample_bits@, sample_rate)),
{
    let framed = visual_digest_bytes(sample_bits, sample_rate);
    blake3_hash(framed.as_slice())
}

/// The framing is unambiguous for a given number of samples: equal framed
/// inputs of equal length come from equal rates and equal samples, so
/// distinct PCM is never framed into the same bytes.
pub proof fn lemma_visual_framing_is_injective(a: Seq<u32>, ra: u32, b: Seq<u32>, rb: u32)
    requires
        a.len() == b.len(),
        visual_digest_input(a, ra) == visual_digest_input(b, rb),
    ensures
        ra == rb,
        a == b,
{
    lemma_words_le_bytes_len(a);
    lemma_words_le_bytes_len(b);
    let ia = visual_digest_input(a, ra);
    assert(ia.subrange(29, 33) =~= le_bytes(ra));
    assert(visual_digest_input(b, rb).subrange(29, 33) =~= le_bytes(rb));
    lemma_le_bytes_injective(ra, rb);
    assert(ia.subrange(33, ia.len() as int) =~= words_le_bytes(a));
    assert(visual_digest_input(b, rb).subrange(33, ia.len() as int) =~= words_le_bytes(b));
    lemma_words_le_bytes_injective(a, b);
}

proof fn lemma_words_le_bytes_len(w: Seq<u32>)
    ensures
        words_le_bytes(w).len() == 4 * w.len(),
    decreases w.len(),
{
    if w.len() > 0 {
        lemma_words_le_bytes_len(w.drop_last());
    }
}

proof fn lemma_le_bytes_injective(x: u32, y: u32)
    requires
        le_bytes(x) == le_bytes(y),
    ensures
        x == y,
{
    assert(le_bytes(x)[0] == le_bytes(y)[0]);
    assert(le_bytes(x)[1] == le_bytes(y)[1]);
    assert(le_bytes(x)[2] == le_bytes(y)[2]);
    assert(le_bytes(x)[3] == le_bytes(y)[3]);
    assert(x == y) by (bit_vector)
        requires
            (x & 0xffu32) as u8 == (y & 0xffu32) as u8,
            ((x >> 8u32) & 0xffu32) as u8 == ((y >> 8u32) & 0xffu32) as u8,
            ((x >> 16u32) & 0xffu32) as u8 == ((y >> 16u32) & 0xffu32) as u8,
            ((x >> 24u32) & 0xffu32) as u8 == ((y >> 24u32) & 0xffu32) as u8,
    ;
}

proof fn lemma_words_le_bytes_injective(a: Seq<u32>, b: Seq<u32>)
    requires
        a.len() == b.len(),
        words_le_bytes(a) == words_le_bytes(b),
    ensures
        a == b,
    decreases a.len(),
{
    if a.len() > 0 {
        let n = a.len() as int;
        lemma_words_le_bytes_len(a.drop_last());
        lemma_words_le_bytes_len(b.drop_last());
        let wa = words_le_bytes(a);
        assert(wa.subrange(0, 4 * (n - 1)) =~= words_le_bytes(a.drop_last()));
        assert(words_le_bytes(b).subrange(0, 4 * (n - 1)) =~= words_le_bytes(b.drop_last()));
        assert(wa.subrange(4 * (n - 1), 4 * n) =~= le_bytes(a.last()));
        assert(words_le_bytes(b).subrange(4 * (n - 1), 4 * n) =~= le_bytes(b.last()));
        lemma_words_le_bytes_injective(a.drop_last(), b.drop_last());
        lemma_le_bytes_injective(a.last(), b.last());
        assert(a =~= b.drop_last().push(b.last()));
        assert(b =~= b.drop_last().push(b.last()));
    }
}

} // verus!
