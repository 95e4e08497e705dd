use bluz::bluez::{connected_headphones, DeviceProperties, ManagedObject};
use bluz::pactl::audio_cards_by_address;

fn device(connected: Option<bool>, icon: &str, alias: Option<&str>, name: Option<&str>, address: Option<&str>) -> DeviceProperties {
    DeviceProperties {
        connected,
        uuids: None,
        icon: Some(icon.to_string()),
        alias: alias.map(str::to_string),
        name: name.map(str::to_string),
        address: address.map(str::to_string),
    }
}

fn object(path: &str, device: Option<DeviceProperties>) -> ManagedObject {
    ManagedObject { path: path.to_string(), device }
}

const CARDS: &str = r#"[{"name":"bluez_card.AA","active_profile":"a2dp-sink-aac","properties":{"api.bluez5.address":"aa:aa"},
  "profiles":{"a2dp-sink-aac":{"sinks":1,"available":true,"priority":1},"a2dp-sink-sbc":{"sinks":1,"available":true,"priority":2}}}]"#;

#[test]
fn only_connected_audio_devices_are_listed_sorted() {
    let mut with_uuid = device(Some(true), "phone", None, Some("zeta"), Some("cc:cc"));
    with_uuid.uuids = Some(vec!["0000110b-0000-1000-8000-00805f9b34fb".to_string()]);
    let objects = vec![
        object("/org/bluez", None),
        object("/org/bluez/hci0/dev_1", Some(device(Some(true), "audio-headset", Some("Beta"), Some("ignored"), Some("bb:bb")))),
        object("/org/bluez/hci0/dev_2", Some(device(Some(false), "audio-headset", Some("Off"), None, Some("dd:dd")))),
        object("/org/bluez/hci0/dev_3", Some(device(Some(true), "input-mouse", Some("Mouse"), None, Some("ee:ee")))),
        object("/org/bluez/hci0/dev_4", Some(device(Some(true), "audio-headphones", None, None, Some("aa_aa")))),
        object("/org/bluez/hci0/dev_5", Some(with_uuid)),
        object("/org/bluez/hci0/dev_6", Some(device(None, "audio-card", Some("NoState"), None, None))),
        object("/org/bluez/hci0/dev_7", Some(device(Some(true), "audio-card", Some("alpha"), None, None))),
    ];
    let cards = audio_cards_by_address(Some(CARDS.as_bytes()), None);
    let list = connected_headphones(&objects, &cards);
    let names: Vec<&str> = list.iter().map(|h| h.name.as_str()).collect();
    assert_eq!(names, vec!["alpha", "Beta", "Unknown device", "zeta"]);
    assert_eq!(list[0].address, "-");
    assert_eq!(list[0].codec, "-");
    assert_eq!(list[0].card_name, None);
    let unknown = &list[2];
    assert_eq!(unknown.address, "aa_aa");
    assert_eq!(unknown.path, "/org/bluez/hci0/dev_4");
    assert_eq!(unknown.card_name.as_deref(), Some("bluez_card.AA"));
    assert_eq!(unknown.codec, "AAC");
    let labels: Vec<&str> = unknown.codec_options.iter().map(|o| o.label.as_str()).collect();
    assert_eq!(labels, vec!["SBC", "AAC"]);
}

#[test]
fn equal_names_are_ordered_by_address() {
    let objects = vec![
        object("/b", Some(device(Some(true), "audio-card", Some("Same"), None, Some("BB")))),
        object("/a", Some(device(Some(true), "audio-card", Some("same"), None, Some("AA")))),
    ];
    let cards = audio_cards_by_address(None, None);
    let list = connected_headphones(&objects, &cards);
    let paths: Vec<&str> = list.iter().map(|h| h.path.as_str()).collect();
    assert_eq!(paths, vec!["/a", "/b"]);
}

