use nestri_server::args::{RateControl, RateControlCBR, RateControlCQP, RateControlVBR};
use nestri_server::encoder::{
    audio_encoder_name, classify_encoder, encoder_cbr_params, encoder_cqp_params,
    encoder_from_feature, encoder_gop_params, encoder_low_latency_params, encoder_score,
    encoder_vbr_params, get_best_compatible_encoder, get_compatible_encoders,
    get_encoder_api, get_encoder_by_name, get_encoders_by_type, get_encoders_by_videocodec,
    get_low_power_encoder, property_role, select_video_encoder, tune_video_encoder,
    EncoderAPI, EncoderFeature, EncoderType, PropertyRole, Tuning, VideoCodec, VideoEncoderInfo,
};

fn info(name: &str, codec: VideoCodec, t: EncoderType, api: EncoderAPI) -> VideoEncoderInfo {
    VideoEncoderInfo::new(name.to_string(), codec, t, api)
}

fn params(e: &VideoEncoderInfo) -> Vec<(String, String)> {
    e.parameters.clone()
}

fn pairs(items: &[(&str, &str)]) -> Vec<(String, String)> {
    items.iter().map(|(k, v)| (k.to_string(), v.to_string())).collect()
}

fn names(items: &[&str]) -> Vec<String> {
    items.iter().map(|s| s.to_string()).collect()
}

#[test]
fn hardware_query_picks_nvenc_over_excluded_software() {
    let encoders = vec![
        info("x264enc", VideoCodec::H264, EncoderType::SOFTWARE, EncoderAPI::SOFTWARE),
        info("nvcudah264enc", VideoCodec::H264, EncoderType::HARDWARE, EncoderAPI::NVENC),
    ];
    let best = get_best_compatible_encoder(&encoders, VideoCodec::H264, EncoderType::HARDWARE);
    assert_eq!(best.unwrap().name, "nvcudah264enc");
}

#[test]
fn software_query_uses_name_bonus() {
    let encoders = vec![
        info("x264enc", VideoCodec::H264, EncoderType::SOFTWARE, EncoderAPI::SOFTWARE),
        info("openh264enc", VideoCodec::H264, EncoderType::SOFTWARE, EncoderAPI::SOFTWARE),
        info("nvcudah264enc", VideoCodec::H264, EncoderType::HARDWARE, EncoderAPI::NVENC),
    ];
    let best = get_best_compatible_encoder(&encoders, VideoCodec::H264, EncoderType::SOFTWARE);
    assert_eq!(best.unwrap().name, "openh264enc");
}

#[test]
fn score_ties_keep_the_first_candidate() {
    let encoders = vec![
        info("qsvh264enc", VideoCodec::H264, EncoderType::HARDWARE, EncoderAPI::QSV),
        info("nvh264enc", VideoCodec::H264, EncoderType::HARDWARE, EncoderAPI::NVENC),
    ];
    let best = get_best_compatible_encoder(&encoders, VideoCodec::H264, EncoderType::HARDWARE);
    assert_eq!(best.unwrap().name, "qsvh264enc");
}

#[test]
fn only_match_is_picked_even_at_score_zero() {
    let encoders = vec![info("v4l2h264enc", VideoCodec::H264, EncoderType::HARDWARE, EncoderAPI::UNKNOWN)];
    assert_eq!(
        get_best_compatible_encoder(&encoders, VideoCodec::H264, EncoderType::HARDWARE).unwrap().name,
        "v4l2h264enc"
    );
    assert!(get_best_compatible_encoder(&encoders, VideoCodec::AV1, EncoderType::HARDWARE).is_none());
    assert!(get_best_compatible_encoder(&Vec::new(), VideoCodec::H264, EncoderType::HARDWARE).is_none());
}

#[test]
fn scores_follow_api_and_name() {
    assert_eq!(encoder_score(&info("vah264enc", VideoCodec::H264, EncoderType::HARDWARE, EncoderAPI::VAAPI)), 2);
    assert_eq!(encoder_score(&info("svtav1enc", VideoCodec::AV1, EncoderType::SOFTWARE, EncoderAPI::SOFTWARE)), 3);
    assert_eq!(encoder_score(&info("av1enc", VideoCodec::AV1, EncoderType::SOFTWARE, EncoderAPI::SOFTWARE)), 2);
    assert_eq!(encoder_score(&info("rav1enc", VideoCodec::AV1, EncoderType::SOFTWARE, EncoderAPI::SOFTWARE)), 1);
}

#[test]
fn codec_and_type_names() {
    assert_eq!(VideoCodec::from_str("H264"), VideoCodec::H264);
    assert_eq!(VideoCodec::from_str("h.264"), VideoCodec::H264);
    assert_eq!(VideoCodec::from_str("AVC"), VideoCodec::H264);
    assert_eq!(VideoCodec::from_str("Av1"), VideoCodec::AV1);
    assert_eq!(VideoCodec::from_str("vp9"), VideoCodec::UNKNOWN);
    assert_eq!(VideoCodec::from_lowercase("H264"), VideoCodec::UNKNOWN);
    assert_eq!(EncoderType::from_str("HARDWARE"), EncoderType::HARDWARE);
    assert_eq!(EncoderType::from_str("software"), EncoderType::SOFTWARE);
    assert_eq!(EncoderType::from_str("gpu"), EncoderType::UNKNOWN);
    assert_eq!(VideoCodec::H264.to_str(), "H.264");
    assert_eq!(EncoderAPI::NVENC.to_str(), "NVIDIA NVENC");
    assert_eq!(EncoderType::UNKNOWN.to_str(), "Unknown");
}

#[test]
fn low_power_names() {
    assert_eq!(get_low_power_encoder(&"vah264enc".to_string()), "vah264lpenc");
    assert_eq!(get_low_power_encoder(&"vah264lpenc".to_string()), "vah264lpenc");
    assert_eq!(get_low_power_encoder(&"x264enc".to_string()), "x264enc");
    assert_eq!(get_low_power_encoder(&"va".to_string()), "va");
}

#[test]
fn api_guesses() {
    let hw = EncoderType::HARDWARE;
    assert_eq!(get_encoder_api(&"qsvav1enc".to_string(), &hw), EncoderAPI::QSV);
    assert_eq!(get_encoder_api(&"vah264enc".to_string(), &hw), EncoderAPI::VAAPI);
    assert_eq!(get_encoder_api(&"nvh264enc".to_string(), &hw), EncoderAPI::NVENC);
    assert_eq!(get_encoder_api(&"amfh264enc".to_string(), &hw), EncoderAPI::AMF);
    assert_eq!(get_encoder_api(&"x264enc".to_string(), &hw), EncoderAPI::UNKNOWN);
    assert_eq!(get_encoder_api(&"x264enc".to_string(), &EncoderType::SOFTWARE), EncoderAPI::SOFTWARE);
    assert_eq!(get_encoder_api(&"x264enc".to_string(), &EncoderType::UNKNOWN), EncoderAPI::UNKNOWN);
}

#[test]
fn set_parameter_overwrites_by_key() {
    let mut e = info("x264enc", VideoCodec::H264, EncoderType::SOFTWARE, EncoderAPI::SOFTWARE);
    e.set_parameter("a", "1");
    e.set_parameter("b", "2");
    e.set_parameter("a", "3");
    assert_eq!(params(&e), pairs(&[("a", "3"), ("b", "2")]));
    assert_eq!(e.get_parameters_string(), "a=3 b=2");
    e.parameters.push(("a".to_string(), "4".to_string()));
    e.set_parameter("a", "5");
    assert_eq!(params(&e), pairs(&[("a", "5"), ("b", "2"), ("a", "5")]));
    let empty = info("x", VideoCodec::H264, EncoderType::SOFTWARE, EncoderAPI::SOFTWARE);
    assert_eq!(empty.get_parameters_string(), "");
}

#[test]
fn property_roles() {
    assert_eq!(property_role(Tuning::Quantizer, "qp-i"), PropertyRole::Primary);
    assert_eq!(property_role(Tuning::Quantizer, "qp-p"), PropertyRole::Secondary);
    assert_eq!(property_role(Tuning::Quantizer, "bitrate"), PropertyRole::Unrelated);
    assert_eq!(property_role(Tuning::VariableBitrate, "max-bitrate"), PropertyRole::Secondary);
    assert_eq!(property_role(Tuning::VariableBitrate, "bitrate"), PropertyRole::Primary);
    assert_eq!(property_role(Tuning::ConstantBitrate, "max-bitrate"), PropertyRole::Unrelated);
    assert_eq!(property_role(Tuning::GroupOfPictures, "key-int-max"), PropertyRole::Primary);
    assert_eq!(property_role(Tuning::GroupOfPictures, "preset"), PropertyRole::Unrelated);
}

#[test]
fn cqp_sets_intra_and_predicted_quantizers() {
    let e = info("vah264enc", VideoCodec::H264, EncoderType::HARDWARE, EncoderAPI::VAAPI);
    let props = names(&["QP-P", "qp-i", "bitrate"]);
    let r = encoder_cqp_params(&e, &props, 26);
    assert_eq!(params(&r), pairs(&[("QP-P", "28"), ("qp-i", "26")]));
}

#[test]
fn vbr_cbr_and_gop_passes() {
    let e = info("nvh264enc", VideoCodec::H264, EncoderType::HARDWARE, EncoderAPI::NVENC);
    let props = names(&["bitrate", "max-bitrate", "gop-size", "preset"]);
    let v = encoder_vbr_params(&e, &props, 6000, 8000);
    assert_eq!(params(&v), pairs(&[("bitrate", "6000"), ("max-bitrate", "8000")]));
    let c = encoder_cbr_params(&e, &props, 4000);
    assert_eq!(params(&c), pairs(&[("bitrate", "4000")]));
    let g = encoder_gop_params(&e, &props, 30);
    assert_eq!(params(&g), pairs(&[("gop-size", "30")]));
    let twice = encoder_gop_params(&g, &props, 60);
    assert_eq!(params(&twice), pairs(&[("gop-size", "60")]));
}

#[test]
fn low_latency_profiles() {
    let x = info("x264enc", VideoCodec::H264, EncoderType::SOFTWARE, EncoderAPI::SOFTWARE);
    let r = encoder_low_latency_params(&x, &names(&["key-int-max", "bitrate"]));
    assert_eq!(
        params(&r),
        pairs(&[("key-int-max", "30"), ("rc-lookahead", "0"), ("speed-preset", "ultrafast"), ("tune", "zerolatency")])
    );
    let q = info("qsvh264enc", VideoCodec::H264, EncoderType::HARDWARE, EncoderAPI::QSV);
    let rq = encoder_low_latency_params(&q, &Vec::new());
    assert_eq!(params(&rq), pairs(&[("low-latency", "true"), ("target-usage", "7")]));
    let n = info("nvav1enc", VideoCodec::AV1, EncoderType::HARDWARE, EncoderAPI::NVENC);
    assert_eq!(params(&encoder_low_latency_params(&n, &Vec::new())), pairs(&[("preset", "low-latency-hp")]));
    let a = info("amfav1enc", VideoCodec::AV1, EncoderType::HARDWARE, EncoderAPI::AMF);
    assert_eq!(
        params(&encoder_low_latency_params(&a, &Vec::new())),
        pairs(&[("preset", "speed"), ("usage", "low-latency")])
    );
    let again = encoder_low_latency_params(&r, &names(&["key-int-max"]));
    assert_eq!(
        params(&again),
        pairs(&[("key-int-max", "30"), ("rc-lookahead", "0"), ("speed-preset", "ultrafast"), ("tune", "zerolatency")])
    );
}

#[test]
fn tuning_for_rate_controls() {
    let e = info("vah264enc", VideoCodec::H264, EncoderType::HARDWARE, EncoderAPI::VAAPI);
    let props = names(&["qpi", "qpp", "bitrate", "max-bitrate"]);
    let cqp = tune_video_encoder(&e, &props, &RateControl::CQP(RateControlCQP { quality: 20 }));
    assert_eq!(params(&cqp), pairs(&[("target-usage", "7"), ("qpi", "20"), ("qpp", "22")]));
    let vbr = tune_video_encoder(
        &e,
        &props,
        &RateControl::VBR(RateControlVBR { target_bitrate: 6000, max_bitrate: 8000 }),
    );
    assert_eq!(
        params(&vbr),
        pairs(&[("target-usage", "7"), ("bitrate", "6000"), ("max-bitrate", "8000")])
    );
    let cbr = tune_video_encoder(&e, &props, &RateControl::CBR(RateControlCBR { target_bitrate: 5000 }));
    assert_eq!(params(&cbr), pairs(&[("target-usage", "7"), ("bitrate", "5000")]));
}

#[test]
fn registry_entries_become_encoders() {
    let hw = classify_encoder(&"nvh264enc".to_string(), "codec/encoder/video/hardware", true, false).unwrap();
    assert_eq!(hw.encoder_type, EncoderType::HARDWARE);
    assert_eq!(hw.encoder_api, EncoderAPI::NVENC);
    assert_eq!(hw.codec, VideoCodec::H264);
    assert!(classify_encoder(&"opusenc".to_string(), "codec/encoder/audio", true, false).is_none());
    assert!(classify_encoder(&"vp8enc".to_string(), "codec/encoder/video", true, false).is_none());
    let lp = classify_encoder(&"vaav1enc".to_string(), "codec/encoder/video/hardware", false, true).unwrap();
    assert_eq!(lp.name, "vaav1lpenc");
    assert_eq!(lp.codec, VideoCodec::AV1);
    assert!(classify_encoder(&"nvh264enc".to_string(), "codec/encoder/video/hardware", false, true).is_none());
    let feature = EncoderFeature {
        name: "x264enc".to_string(),
        klass: "Codec/Encoder/Video".to_string(),
        supported: true,
        low_power_supported: false,
    };
    let sw = encoder_from_feature(&feature).unwrap();
    assert_eq!(sw.encoder_type, EncoderType::SOFTWARE);
    let list = get_compatible_encoders(&vec![
        feature,
        EncoderFeature {
            name: "vah264enc".to_string(),
            klass: "Codec/Encoder/Video/Hardware".to_string(),
            supported: false,
            low_power_supported: false,
        },
        EncoderFeature {
            name: "svtav1enc".to_string(),
            klass: "Codec/Encoder/Video".to_string(),
            supported: true,
            low_power_supported: false,
        },
    ]);
    let got: Vec<String> = list.iter().map(|e| e.name.clone()).collect();
    assert_eq!(got, names(&["x264enc", "svtav1enc"]));
}

#[test]
fn lookups_and_filters() {
    let encoders = vec![
        info("x264enc", VideoCodec::H264, EncoderType::SOFTWARE, EncoderAPI::SOFTWARE),
        info("NvH264Enc", VideoCodec::H264, EncoderType::HARDWARE, EncoderAPI::NVENC),
        info("svtav1enc", VideoCodec::AV1, EncoderType::SOFTWARE, EncoderAPI::SOFTWARE),
    ];
    assert_eq!(get_encoder_by_name(&encoders, "nvh264ENC").unwrap().name, "NvH264Enc");
    assert!(get_encoder_by_name(&encoders, "vah264enc").is_none());
    let h264: Vec<String> = get_encoders_by_videocodec(&encoders, &VideoCodec::H264).iter().map(|e| e.name.clone()).collect();
    assert_eq!(h264, names(&["x264enc", "NvH264Enc"]));
    let sw: Vec<String> = get_encoders_by_type(&encoders, &EncoderType::SOFTWARE).iter().map(|e| e.name.clone()).collect();
    assert_eq!(sw, names(&["x264enc", "svtav1enc"]));
    assert_eq!(select_video_encoder(&encoders, "X264ENC", "av1", "hardware").unwrap().name, "x264enc");
    assert_eq!(select_video_encoder(&encoders, "", "AV1", "Software").unwrap().name, "svtav1enc");
    assert!(select_video_encoder(&encoders, "", "av1", "hardware").is_none());
}

#[test]
fn audio_encoder_default() {
    assert_eq!(audio_encoder_name(""), "opusenc");
    assert_eq!(audio_encoder_name("fdkaacenc"), "fdkaacenc");
}

#[test]
fn duplicate_keys_all_take_the_new_value() {
    let mut e = info("nvav1enc", VideoCodec::AV1, EncoderType::HARDWARE, EncoderAPI::NVENC);
    e.parameters = pairs(&[("preset", "a"), ("preset", "b"), ("gop-size", "1"), ("gop-size", "2")]);
    let r = encoder_low_latency_params(&e, &names(&["gop-size"]));
    assert_eq!(
        params(&r),
        pairs(&[("preset", "low-latency-hp"), ("preset", "low-latency-hp"), ("gop-size", "30"), ("gop-size", "30")])
    );
    let mut q = info("vah264enc", VideoCodec::H264, EncoderType::HARDWARE, EncoderAPI::VAAPI);
    q.parameters = pairs(&[("qpi", "1"), ("qpi", "2")]);
    let r = encoder_cqp_params(&q, &names(&["qpi"]), 20);
    assert_eq!(params(&r), pairs(&[("qpi", "20"), ("qpi", "20")]));
}
