use kurv::decode::{
    check_wav_header, check_wav_sample_count, decode_step, inspect_wav_source, is_aiff_container,
    is_mpeg_container, is_supported_audio_import_extension, is_supported_audio_import_name,
    is_wave_container, looks_like_supported_audio, route_source, validate_spec,
    DecodeStep, DecodedSourceSpec, PacketEvent, SourceRoute, WavHeader,
};
use kurv::resynth::{ImportError, MAX_RESYNTH_DECODED_FRAMES, MAX_RESYNTH_SOURCE_BYTES};

#[test]
fn import_names_accept_common_audio_extensions() {
    assert!(is_supported_audio_import_name("pad.FLAC"));
    assert!(is_supported_audio_import_name("loop.wav"));
    assert!(is_supported_audio_import_name("choir.aiff"));
    assert!(is_supported_audio_import_name("noise.ogg"));
    assert!(is_supported_audio_import_name("hit.mp3"));
    assert!(!is_supported_audio_import_name("table.wt"));
    assert!(!is_supported_audio_import_name("readme.txt"));
}

#[test]
fn magic_bytes_identify_wave_and_flac() {
    let mut wave = b"RIFFxxxxWAVE".to_vec();
    wave.extend_from_slice(&[0; 8]);
    assert!(looks_like_supported_audio(&wave));
    assert!(looks_like_supported_audio(b"fLaC...."));
    assert!(looks_like_supported_audio(b"OggS...."));
    assert!(!looks_like_supported_audio(b"vawt...."));
}

#[test]
fn extensions_ignore_ascii_case_and_use_the_last_dot() {
    for extension in ["wav", "WAVE", "Flac", "aif", "AIFF", "ogg", "OGA", "mp3"] {
        assert!(is_supported_audio_import_extension(extension), "{extension}");
    }
    assert!(!is_supported_audio_import_extension("wa"));
    assert!(!is_supported_audio_import_extension("mp4"));
    assert!(!is_supported_audio_import_extension(""));
    assert!(is_supported_audio_import_name("archive.txt.wav"));
    assert!(!is_supported_audio_import_name("loop.wav.txt"));
    assert!(!is_supported_audio_import_name("trailing."));
    assert!(is_supported_audio_import_name("été.MP3"));
    // Without a dot the name's own bytes are checked for a magic number.
    assert!(is_supported_audio_import_name("OggS"));
    assert!(!is_supported_audio_import_name("wav"));
}

#[test]
fn container_magic_numbers() {
    assert!(is_wave_container(b"RIFF\0\0\0\0WAVE"));
    assert!(!is_wave_container(b"RIFF\0\0\0\0WAV"));
    assert!(is_aiff_container(b"FORM\0\0\0\0AIFF"));
    assert!(is_aiff_container(b"FORM\0\0\0\0AIFC"));
    assert!(!is_aiff_container(b"FORM\0\0\0\0AIFX"));
    assert!(is_mpeg_container(b"ID3\x04"));
    assert!(is_mpeg_container(&[0xff, 0xfb]));
    assert!(!is_mpeg_container(&[0xff, 0x1f]));
    assert!(!is_mpeg_container(&[0xff]));
    assert!(looks_like_supported_audio(b"FORM\0\0\0\0AIFF"));
    assert!(!looks_like_supported_audio(b""));
}

#[test]
fn spec_limits() {
    let spec = |sample_rate, channels| DecodedSourceSpec { sample_rate, channels };
    assert_eq!(validate_spec(spec(48_000, 1)), Ok(()));
    assert_eq!(validate_spec(spec(8_000, 2)), Ok(()));
    assert_eq!(validate_spec(spec(384_000, 2)), Ok(()));
    assert_eq!(validate_spec(spec(48_000, 0)), Err(ImportError::UnsupportedChannels(0)));
    assert_eq!(validate_spec(spec(1, 3)), Err(ImportError::UnsupportedChannels(3)));
    assert_eq!(validate_spec(spec(7_999, 1)), Err(ImportError::UnsupportedSampleRate(7_999)));
    assert_eq!(validate_spec(spec(384_001, 1)), Err(ImportError::UnsupportedSampleRate(384_001)));
}

#[test]
fn sources_are_routed_by_container() {
    assert_eq!(route_source(&[]), Err(ImportError::Empty));
    assert_eq!(route_source(b"RIFF\0\0\0\0WAVEfmt "), Ok(SourceRoute::Wave));
    assert_eq!(route_source(b"fLaC...."), Ok(SourceRoute::Compressed));
    assert_eq!(route_source(b"text"), Err(ImportError::UnsupportedWav));
    let huge = vec![0u8; MAX_RESYNTH_SOURCE_BYTES + 1];
    assert_eq!(
        route_source(&huge),
        Err(ImportError::Oversize { bytes: MAX_RESYNTH_SOURCE_BYTES + 1, limit: MAX_RESYNTH_SOURCE_BYTES })
    );
}

fn wav_bytes(channels: u16, sample_rate: u32, frames: u32) -> Vec<u8> {
    let block_align = 2 * channels;
    let data_len = frames * u32::from(block_align);
    let mut bytes = Vec::new();
    bytes.extend_from_slice(b"RIFF");
    bytes.extend_from_slice(&(36 + data_len).to_le_bytes());
    bytes.extend_from_slice(b"WAVEfmt ");
    bytes.extend_from_slice(&16u32.to_le_bytes());
    bytes.extend_from_slice(&1u16.to_le_bytes());
    bytes.extend_from_slice(&channels.to_le_bytes());
    bytes.extend_from_slice(&sample_rate.to_le_bytes());
    bytes.extend_from_slice(&(sample_rate * u32::from(block_align)).to_le_bytes());
    bytes.extend_from_slice(&block_align.to_le_bytes());
    bytes.extend_from_slice(&16u16.to_le_bytes());
    bytes.extend_from_slice(b"data");
    bytes.extend_from_slice(&data_len.to_le_bytes());
    bytes.resize(bytes.len() + data_len as usize, 0);
    bytes
}

#[test]
fn wav_headers_are_read_and_judged() {
    let source = inspect_wav_source(&wav_bytes(2, 48_000, 10)).expect("stereo wav");
    assert_eq!(source.spec, DecodedSourceSpec { sample_rate: 48_000, channels: 2 });
    assert_eq!(source.frames, 10);
    assert_eq!(source.bits_per_sample, 16);
    assert!(!source.is_float);
    assert_eq!(inspect_wav_source(&wav_bytes(1, 4_000, 10)), Err(ImportError::UnsupportedSampleRate(4_000)));
    assert_eq!(inspect_wav_source(&wav_bytes(3, 48_000, 10)), Err(ImportError::UnsupportedChannels(3)));
    assert_eq!(inspect_wav_source(&wav_bytes(1, 48_000, 0)), Err(ImportError::TooManyFrames));
    assert_eq!(inspect_wav_source(b"RIFF\0\0\0\0WAVE"), Err(ImportError::UnsupportedWav));
}

#[test]
fn wav_header_verdicts() {
    let header = |frames| WavHeader { sample_rate: 44_100, channels: 1, bits_per_sample: 24, is_float: false, frames };
    assert_eq!(check_wav_header(None), Err(ImportError::UnsupportedWav));
    assert_eq!(check_wav_header(Some(header(0))), Err(ImportError::TooManyFrames));
    assert_eq!(
        check_wav_header(Some(header(MAX_RESYNTH_DECODED_FRAMES as u32 + 1))),
        Err(ImportError::TooManyFrames)
    );
    let accepted = check_wav_header(Some(header(MAX_RESYNTH_DECODED_FRAMES as u32))).expect("limit");
    assert_eq!(accepted.frames, MAX_RESYNTH_DECODED_FRAMES);
    assert_eq!(accepted.bits_per_sample, 24);
}

#[test]
fn wav_sample_counts_fill_whole_frames() {
    assert_eq!(check_wav_sample_count(20, 2, 10), Ok(()));
    assert_eq!(check_wav_sample_count(21, 2, 10), Err(ImportError::UnsupportedWav));
    assert_eq!(check_wav_sample_count(18, 2, 10), Err(ImportError::UnsupportedWav));
    assert_eq!(check_wav_sample_count(7, 1, 7), Ok(()));
}

#[test]
fn packet_loop_skips_corrupt_and_foreign_packets() {
    assert_eq!(decode_step(0, PacketEvent::Corrupt), DecodeStep::Next);
    assert_eq!(decode_step(12, PacketEvent::OtherTrack), DecodeStep::Next);
    assert_eq!(decode_step(12, PacketEvent::ResetRequired), DecodeStep::Reset);
    assert_eq!(decode_step(12, PacketEvent::Decoded), DecodeStep::Next);
}

#[test]
fn packet_loop_stops_on_cancel_end_and_failures() {
    assert_eq!(decode_step(5, PacketEvent::Cancelled), DecodeStep::Fail(ImportError::Cancelled));
    assert_eq!(decode_step(5, PacketEvent::EndOfStream), DecodeStep::Finish);
    assert_eq!(decode_step(0, PacketEvent::EndOfStream), DecodeStep::Fail(ImportError::Empty));
    assert_eq!(decode_step(5, PacketEvent::ReadFailed), DecodeStep::Fail(ImportError::UnsupportedWav));
    assert_eq!(decode_step(5, PacketEvent::DecodeFailed), DecodeStep::Fail(ImportError::UnsupportedWav));
}

#[test]
fn packet_loop_refuses_sources_past_the_frame_limit() {
    assert_eq!(decode_step(MAX_RESYNTH_DECODED_FRAMES, PacketEvent::Decoded), DecodeStep::Next);
    assert_eq!(
        decode_step(MAX_RESYNTH_DECODED_FRAMES + 1, PacketEvent::Decoded),
        DecodeStep::Fail(ImportError::TooManyFrames)
    );
}
