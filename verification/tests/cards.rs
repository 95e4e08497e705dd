use bluz::json::{JsonNumber, JsonValue};
use bluz::pactl::{audio_cards_by_address, codec_options_from_profiles, string_property, AudioCards};

const CARDS: &str = r#"[
  {
    "name": "bluez_card.00_1B_66_AA_BB_CC",
    "active_profile": "a2dp-sink",
    "properties": { "api.bluez5.address": "00:1B:66:AA:BB:CC", "device.string": "" },
    "profiles": {
      "a2dp-sink": { "description": "High Fidelity Playback (A2DP Sink, codec LDAC)", "sinks": 1, "sources": 0, "priority": 40, "available": true },
      "a2dp-sink-aac": { "description": "High Fidelity Playback (A2DP Sink, codec AAC)", "sinks": 1, "priority": 30, "available": true },
      "a2dp-sink-sbc": { "description": "High Fidelity Playback (A2DP Sink, codec SBC)", "sinks": 1, "priority": 30, "available": true },
      "a2dp-sink-aptx": { "description": "High Fidelity Playback (A2DP Sink, codec aptX)", "sinks": 1, "priority": 50, "available": false },
      "headset-head-unit": { "description": "Headset Head Unit (HSP/HFP)", "sinks": 1, "priority": 10, "available": true },
      "off": { "description": "Off", "sinks": 0, "priority": 0, "available": true }
    }
  },
  { "name": "alsa_card.pci", "properties": { "device.string": "" } },
  { "properties": { "api.bluez5.address": "11:22:33:44:55:66" } }
]"#;

const SINKS: &str = r#"[
  { "name": "bluez_output.00_1B_66_AA_BB_CC.1", "properties": { "api.bluez5.address": "00:1B:66:AA:BB:CC", "api.bluez5.codec": "ldac" } },
  { "name": "bluez_output.aa_bb", "properties": { "device.string": "aa_bb_cc_dd_ee_ff", "bluetooth.codec": "aptx_hd" } },
  { "name": "alsa_output", "properties": { "device.string": "hw:0" } }
]"#;

#[test]
fn cards_and_sinks_are_read_by_address() {
    let cards = audio_cards_by_address(Some(CARDS.as_bytes()), Some(SINKS.as_bytes()));
    let card = cards.get("00:1B:66:AA:BB:CC").expect("card");
    assert_eq!(card.card_name, "bluez_card.00_1B_66_AA_BB_CC");
    assert_eq!(card.active_profile.as_deref(), Some("a2dp-sink"));
    assert_eq!(card.codec.as_deref(), Some("LDAC"));
    let labels: Vec<&str> = card.codec_options.iter().map(|o| o.label.as_str()).collect();
    assert_eq!(labels, vec!["LDAC", "AAC", "SBC"]);
    let profiles: Vec<&str> = card.codec_options.iter().map(|o| o.profile.as_str()).collect();
    assert_eq!(profiles, vec!["a2dp-sink", "a2dp-sink-aac", "a2dp-sink-sbc"]);

    let sink_only = cards.get("AA:BB:CC:DD:EE:FF").expect("sink only");
    assert_eq!(sink_only.card_name, "");
    assert_eq!(sink_only.codec.as_deref(), Some("aptX HD"));
    assert!(sink_only.codec_options.is_empty());
    assert!(cards.get("11:22:33:44:55:66").is_none());
    assert!(cards.get("hw:0").is_none());
}

#[test]
fn card_codec_falls_back_to_the_profile_name() {
    let json = r#"[{"name":"c","active_profile":"a2dp-sink-aac","properties":{"device.string":"aa_bb"},"profiles":{}}]"#;
    let cards = audio_cards_by_address(Some(json.as_bytes()), None);
    assert_eq!(cards.get("AA:BB").unwrap().codec.as_deref(), Some("AAC"));
    let json = r#"[{"name":"c","active_profile":"a2dp-sink","properties":{"device.string":"aa_bb"}}]"#;
    let cards = audio_cards_by_address(Some(json.as_bytes()), None);
    assert_eq!(cards.get("AA:BB").unwrap().codec, None);
}

#[test]
fn unreadable_output_leaves_the_cards_as_they_are() {
    let cards = audio_cards_by_address(Some(b"not json"), Some(b"{}"));
    assert!(cards.get("00:1B:66:AA:BB:CC").is_none());
    let cards = audio_cards_by_address(None, None);
    assert!(cards.get("").is_none());
}

#[test]
fn a_later_card_replaces_an_earlier_one() {
    let json = r#"[{"name":"first","properties":{"device.string":"aa"}},{"name":"second","properties":{"api.bluez5.address":"AA"}}]"#;
    let cards = audio_cards_by_address(Some(json.as_bytes()), None);
    assert_eq!(cards.get("AA").unwrap().card_name, "second");
    let mut more = AudioCards::new();
    assert!(more.get("AA").is_none());
    more.set_codec("AA".to_string(), "SBC".to_string());
    more.set_codec("AA".to_string(), "AAC".to_string());
    assert_eq!(more.get("AA").unwrap().codec.as_deref(), Some("AAC"));
}

fn text(s: &str) -> JsonValue {
    JsonValue::Text(s.to_string())
}

fn number(unsigned: Option<u64>, signed: Option<i64>) -> JsonValue {
    JsonValue::Number(JsonNumber { unsigned, signed })
}

fn profile(sinks: u64, available: Option<bool>, priority: Option<i64>) -> JsonValue {
    let mut members = vec![("sinks".to_string(), number(Some(sinks), Some(sinks as i64)))];
    if let Some(a) = available {
        members.push(("available".to_string(), JsonValue::Bool(a)));
    }
    if let Some(p) = priority {
        members.push(("priority".to_string(), number(if p >= 0 { Some(p as u64) } else { None }, Some(p))));
    }
    JsonValue::Object(members)
}

#[test]
fn codec_options_sort_by_priority_then_label() {
    let profiles = vec![
        ("z-sink-ldac".to_string(), profile(1, Some(true), Some(5))),
        ("b-sink-sbc".to_string(), profile(1, Some(true), Some(5))),
        ("a-sink-aac".to_string(), profile(1, Some(true), Some(9))),
        ("c-sink".to_string(), profile(1, Some(true), Some(99))),
        ("d-sink-x".to_string(), profile(0, Some(true), Some(99))),
        ("e-sink-y".to_string(), profile(2, None, Some(99))),
        ("f-sink-opus".to_string(), profile(2, Some(true), None)),
        ("g-sink-lc3".to_string(), profile(2, Some(true), Some(-1))),
        ("off".to_string(), profile(2, Some(true), Some(100))),
    ];
    let options = codec_options_from_profiles(&profiles);
    let labels: Vec<&str> = options.iter().map(|o| o.label.as_str()).collect();
    assert_eq!(labels, vec!["AAC", "LDAC", "SBC", "OPUS", "LC3"]);
    let profiles: Vec<&str> = options.iter().map(|o| o.profile.as_str()).collect();
    assert_eq!(profiles, vec!["a-sink-aac", "z-sink-ldac", "b-sink-sbc", "f-sink-opus", "g-sink-lc3"]);
}

#[test]
fn equal_options_keep_their_profile_order() {
    let profiles = vec![
        ("x-sink-aac".to_string(), profile(1, Some(true), Some(5))),
        ("y-sink-aac".to_string(), profile(1, Some(true), Some(5))),
    ];
    let options = codec_options_from_profiles(&profiles);
    let order: Vec<&str> = options.iter().map(|o| o.profile.as_str()).collect();
    assert_eq!(order, vec!["x-sink-aac", "y-sink-aac"]);
}

#[test]
fn description_names_the_codec_before_the_profile_does() {
    let described = JsonValue::Object(vec![
        ("available".to_string(), JsonValue::Bool(true)),
        ("sinks".to_string(), number(Some(1), Some(1))),
        ("description".to_string(), text("High Fidelity Playback (A2DP Sink, codec aptx_hd)")),
    ]);
    let options = codec_options_from_profiles(&vec![("a2dp-sink".to_string(), described)]);
    assert_eq!(options.len(), 1);
    assert_eq!(options[0].label, "aptX HD");
    assert_eq!(options[0].profile, "a2dp-sink");
}

#[test]
fn string_property_wants_a_non_empty_string() {
    let props = vec![
        ("a".to_string(), text("x")),
        ("b".to_string(), text("")),
        ("c".to_string(), number(Some(3), Some(3))),
    ];
    assert_eq!(string_property(&props, "a").as_deref(), Some("x"));
    assert_eq!(string_property(&props, "b"), None);
    assert_eq!(string_property(&props, "c"), None);
    assert_eq!(string_property(&props, "d"), None);
}

#[test]
fn json_numbers_are_read_as_integers_only() {
    let json = r#"[
      {"name":"c","properties":{"device.string":"aa"},"profiles":{
        "p-sink-aac":{"available":true,"sinks":1.5,"priority":3},
        "p-sink-sbc":{"available":true,"sinks":2,"priority":-3},
        "p-sink-ldac":{"available":true,"sinks":2,"priority":1e3},
        "p-sink-opus":{"available":true,"sinks":-1}
      }}
    ]"#;
    let cards = audio_cards_by_address(Some(json.as_bytes()), None);
    let labels: Vec<String> = cards.get("AA").unwrap().codec_options.iter().map(|o| o.label.clone()).collect();
    assert_eq!(labels, vec!["LDAC".to_string(), "SBC".to_string()]);
}
