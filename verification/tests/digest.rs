use kurv::digest::{
    cached_visuals_match, digests_equal, source_digest, visual_cache_is_current,
    visual_digest_bytes, visual_source_digest,
};

fn hex(bytes: &[u8]) -> String {
    bytes.iter().map(|b| format!("{b:02x}")).collect()
}

#[test]
fn source_digest_is_blake3_of_the_bytes() {
    assert_eq!(
        hex(&source_digest(b"")),
        "af1349b9f5f9a1a6a0404dea36dcc9499bcb25c9adc112b7cc9a93cae41f3262"
    );
    assert_ne!(source_digest(b"a.wav"), source_digest(b"b.wav"));
    assert_eq!(source_digest(b"same"), source_digest(b"same"));
}

#[test]
fn visual_cache_is_reused_only_for_the_same_source() {
    let digest = source_digest(b"RIFF source");
    assert!(visual_cache_is_current(Some(digest), &digest));
    assert!(!visual_cache_is_current(None, &digest));
    assert!(cached_visuals_match(Some(digest), b"RIFF source"));
    assert!(!cached_visuals_match(Some(digest), b"RIFF other"));
    assert!(!cached_visuals_match(None, b"RIFF source"));
    let mut other = digest;
    other[31] ^= 1;
    assert!(!digests_equal(&digest, &other));
    assert!(digests_equal(&digest, &digest));
}

#[test]
fn visual_digest_frames_tag_rate_and_samples() {
    let bits = [1.0f32.to_bits(), (-0.5f32).to_bits()];
    let framed = visual_digest_bytes(&bits, 48_000);
    let mut expected = b"kurv-resynth-source-visual-v1".to_vec();
    expected.extend_from_slice(&48_000u32.to_le_bytes());
    for value in bits {
        expected.extend_from_slice(&value.to_le_bytes());
    }
    assert_eq!(framed, expected);
    assert_eq!(visual_source_digest(&bits, 48_000), *blake3::hash(&expected).as_bytes());
    assert_ne!(visual_source_digest(&bits, 48_000), visual_source_digest(&bits, 44_100));
}
