use bluz::codec::{
    audio_profiles, codec_from_description, codec_from_profile, display_codec,
    looks_like_headphones, normalized_address,
};

#[test]
fn display_codec_known_names() {
    assert_eq!(display_codec("sbc"), "SBC");
    assert_eq!(display_codec("sbc_xq"), "SBC-XQ");
    assert_eq!(display_codec("aac"), "AAC");
    assert_eq!(display_codec("ldac"), "LDAC");
    assert_eq!(display_codec("aptx"), "aptX");
    assert_eq!(display_codec("aptx_hd"), "aptX HD");
    assert_eq!(display_codec("aptx_ll"), "aptX LL");
    assert_eq!(display_codec("aptx_ll_duplex"), "aptX LL Duplex");
    assert_eq!(display_codec("faststream"), "FastStream");
    assert_eq!(display_codec("faststream_duplex"), "FastStream Duplex");
    assert_eq!(display_codec("cvsd"), "CVSD");
    assert_eq!(display_codec("msbc"), "mSBC");
}

#[test]
fn display_codec_unknown_names_are_uppercased() {
    assert_eq!(display_codec("lc3_swb"), "LC3-SWB");
    assert_eq!(display_codec("opus_05"), "OPUS-05");
    assert_eq!(display_codec(""), "");
    assert_eq!(display_codec("SBC"), "SBC");
}

#[test]
fn normalized_address_uses_colons_and_uppercase() {
    assert_eq!(normalized_address("00_1b_66_aa_bb_cc"), "00:1B:66:AA:BB:CC");
    assert_eq!(normalized_address("00:1B:66:AA:BB:CC"), "00:1B:66:AA:BB:CC");
    assert_eq!(normalized_address("-"), "-");
}

#[test]
fn codec_from_profile_takes_the_last_part() {
    assert_eq!(codec_from_profile("a2dp-sink-aac"), Some("AAC".to_string()));
    assert_eq!(codec_from_profile("a2dp-sink-aptx_hd"), Some("aptX HD".to_string()));
    assert_eq!(codec_from_profile("headset-head-unit-msbc"), Some("mSBC".to_string()));
    assert_eq!(codec_from_profile("a2dp-sink"), None);
    assert_eq!(codec_from_profile("headset-head-unit"), None);
    assert_eq!(codec_from_profile("off"), None);
    assert_eq!(codec_from_profile("a2dp-"), Some("".to_string()));
}

#[test]
fn codec_from_description_reads_after_the_marker() {
    assert_eq!(
        codec_from_description("High Fidelity Playback (A2DP Sink, codec LDAC)"),
        Some("LDAC".to_string())
    );
    assert_eq!(
        codec_from_description("High Fidelity Playback (A2DP Sink, codec aptx_hd)"),
        Some("aptX HD".to_string())
    );
    assert_eq!(codec_from_description("Sink, codec  sbc_xq.))"), Some("SBC-XQ".to_string()));
    assert_eq!(codec_from_description("Sink, codec  sbc_xq ).."), Some("SBC-XQ )".to_string()));
    assert_eq!(codec_from_description("Headset Head Unit (HSP/HFP)"), None);
    assert_eq!(codec_from_description("codec )"), None);
    assert_eq!(codec_from_description("codec x codec aac"), Some("X CODEC AAC".to_string()));
}

#[test]
fn audio_profiles_follow_the_table_and_ignore_case() {
    let uuids = vec![
        "0000110B-0000-1000-8000-00805F9B34FB".to_string(),
        "00001108-0000-1000-8000-00805f9b34fb".to_string(),
        "0000180f-0000-1000-8000-00805f9b34fb".to_string(),
    ];
    assert_eq!(audio_profiles(&uuids), vec!["Headset".to_string(), "Audio Sink".to_string()]);
    assert!(audio_profiles(&vec![]).is_empty());
    let other = vec!["0000180f-0000-1000-8000-00805f9b34fb".to_string()];
    assert!(audio_profiles(&other).is_empty());
}

#[test]
fn looks_like_headphones_knows_audio_icons() {
    assert!(looks_like_headphones("audio-headphones"));
    assert!(looks_like_headphones("audio-headset"));
    assert!(looks_like_headphones("audio-card"));
    assert!(looks_like_headphones("audio-speakers"));
    assert!(!looks_like_headphones("input-mouse"));
    assert!(!looks_like_headphones(""));
}
