use nestri_server::args::{
    audio_bitrate_bps, is_moq_output, parse_flag, parse_rate_control, parse_resolution, parse_u32,
    AudioCaptureMethod, RateControl, RateControlCBR, RateControlCQP, RateControlVBR,
};

#[test]
fn unsigned_numbers() {
    assert_eq!(parse_u32("60"), Some(60));
    assert_eq!(parse_u32("+7"), Some(7));
    assert_eq!(parse_u32("4294967295"), Some(u32::MAX));
    assert_eq!(parse_u32("4294967296"), None);
    assert_eq!(parse_u32(""), None);
    assert_eq!(parse_u32("+"), None);
    assert_eq!(parse_u32("-1"), None);
    assert_eq!(parse_u32("12a"), None);
}

#[test]
fn resolutions() {
    assert_eq!(parse_resolution("1280x720"), Some((1280, 720)));
    assert_eq!(parse_resolution("1920x1080x3"), Some((1920, 1080)));
    assert_eq!(parse_resolution("1280"), None);
    assert_eq!(parse_resolution("x720"), None);
}

#[test]
fn flags() {
    assert!(parse_flag("true"));
    assert!(parse_flag("1"));
    assert!(!parse_flag("false"));
    assert!(!parse_flag("TRUE"));
}

#[test]
fn rate_controls() {
    assert_eq!(
        parse_rate_control("cqp", "26", "6000", "8000", true),
        Some(RateControl::CQP(RateControlCQP { quality: 26 }))
    );
    assert_eq!(parse_rate_control("cqp", "26", "6000", "8000", false), None);
    assert_eq!(
        parse_rate_control("vbr", "26", "6000", "8000", true),
        Some(RateControl::VBR(RateControlVBR { target_bitrate: 6000, max_bitrate: 8000 }))
    );
    assert_eq!(
        parse_rate_control("cbr", "26", "128", "192", false),
        Some(RateControl::CBR(RateControlCBR { target_bitrate: 128 }))
    );
    assert_eq!(parse_rate_control("abr", "26", "6000", "8000", true), None);
    assert_eq!(parse_rate_control("vbr", "26", "6000", "lots", true), None);
}

#[test]
fn capture_methods_and_outputs() {
    assert_eq!(AudioCaptureMethod::from_name("pipewire"), AudioCaptureMethod::PipeWire);
    assert_eq!(AudioCaptureMethod::from_name("alsa"), AudioCaptureMethod::ALSA);
    assert_eq!(AudioCaptureMethod::from_name("jack"), AudioCaptureMethod::PulseAudio);
    assert_eq!(AudioCaptureMethod::ALSA.as_str(), "alsa");
    assert!(is_moq_output("moq"));
    assert!(!is_moq_output("whip"));
}

#[test]
fn audio_bitrates() {
    assert_eq!(audio_bitrate_bps(&RateControl::CBR(RateControlCBR { target_bitrate: 128 })), 128_000);
    assert_eq!(
        audio_bitrate_bps(&RateControl::VBR(RateControlVBR { target_bitrate: 96, max_bitrate: 192 })),
        96_000
    );
    assert_eq!(audio_bitrate_bps(&RateControl::CQP(RateControlCQP { quality: 1 })), 128);
}
