use kurv::quality::ResynthQuality;

#[test]
fn quality_wire_round_trips() {
    for quality in ResynthQuality::ALL {
        assert_eq!(ResynthQuality::from_u8(quality as u8), quality);
    }
    assert_eq!(ResynthQuality::from_u8(99), ResynthQuality::Standard);
}

#[test]
fn finer_quality_has_more_integer_detail() {
    let all = ResynthQuality::ALL;
    for pair in all.windows(2) {
        let (coarse, fine) = (pair[0], pair[1]);
        assert!(coarse.max_points() < fine.max_points());
        assert!(coarse.pitch_fft_size() < fine.pitch_fft_size());
        assert!(coarse.max_harmonics() <= fine.max_harmonics());
        assert!(fine.reconstruction_hop() <= coarse.reconstruction_hop());
    }
    assert!(ResynthQuality::Ultra.reconstruction_hop() < ResynthQuality::Eco.reconstruction_hop());
    assert!(ResynthQuality::Ultra.max_harmonics() > ResynthQuality::Eco.max_harmonics());
}

#[test]
fn quality_tables() {
    assert_eq!(ResynthQuality::default(), ResynthQuality::Standard);
    assert_eq!(ResynthQuality::Eco.reconstruction_hop(), 1024);
    assert_eq!(ResynthQuality::Standard.reconstruction_hop(), 512);
    assert_eq!(ResynthQuality::High.reconstruction_hop(), 512);
    assert_eq!(ResynthQuality::Ultra.reconstruction_hop(), 512);
    assert_eq!(ResynthQuality::Eco.fft_size(), 2048);
    assert_eq!(ResynthQuality::Ultra.fft_size(), 4096);
    assert_eq!(ResynthQuality::High.pitch_fft_size(), 32768);
    assert_eq!(ResynthQuality::Standard.max_points(), 2048);
    assert_eq!(ResynthQuality::Standard.max_harmonics(), 96);
    assert_eq!(ResynthQuality::Eco.label(), "ECO");
    assert_eq!(ResynthQuality::Ultra.label(), "ULTRA");
    assert_eq!(ResynthQuality::High.hint(), "Finer pitch map, more RICH harmonics");
    for value in 4..=u8::MAX {
        assert_eq!(ResynthQuality::from_u8(value), ResynthQuality::Standard);
    }
}
