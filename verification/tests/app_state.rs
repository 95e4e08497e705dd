use bluz::bluez::Headphone;
use bluz::commands::{connect_result, disconnect_result, set_card_profile_result};
use bluz::controls::{codec_choices, command_for_key, Key, KeyCommand};
use bluz::pactl::CodecOption;
use bluz::state::{selected_codec_index, App, SwitchAction, SwitchEvent, SwitchStage};

fn headphone(name: &str, address: &str, card: Option<&str>, active: Option<&str>, options: &[(&str, &str)]) -> Headphone {
    Headphone {
        name: name.to_string(),
        address: address.to_string(),
        codec: "-".to_string(),
        card_name: card.map(str::to_string),
        active_profile: active.map(str::to_string),
        codec_options: options
            .iter()
            .map(|(label, profile)| CodecOption { label: label.to_string(), profile: profile.to_string() })
            .collect(),
        path: format!("/org/bluez/{name}"),
    }
}

fn two_devices() -> Vec<Headphone> {
    vec![
        headphone("Buds", "AA", Some("card_a"), Some("a2dp-sink-aac"), &[("LDAC", "a2dp-sink"), ("AAC", "a2dp-sink-aac"), ("SBC", "a2dp-sink-sbc")]),
        headphone("Phones", "BB", None, None, &[]),
    ]
}

#[test]
fn new_app_waits_for_a_refresh() {
    let app = App::new();
    assert!(app.devices.is_empty());
    assert_eq!(app.selected, 0);
    assert_eq!(app.status, "Press r to refresh, q to quit");
}

#[test]
fn refresh_keeps_the_selection_in_range() {
    let mut app = App::new();
    app.refresh(Ok(two_devices()));
    assert_eq!(app.status, "Connected bluetooth headphones: 2 | \u{2191}/\u{2193} select | \u{2190}/\u{2192} codec");
    app.select_next();
    app.select_next();
    assert_eq!(app.selected, 1);
    app.refresh(Ok(vec![headphone("Solo", "CC", None, None, &[])]));
    assert_eq!(app.selected, 0);
    app.refresh(Ok(vec![]));
    assert_eq!(app.selected, 0);
    assert_eq!(app.status, "Connected bluetooth headphones: 0 | \u{2191}/\u{2193} select | \u{2190}/\u{2192} codec");
    app.refresh(Ok(two_devices()));
    app.select_next();
    app.refresh(Err("no bus".to_string()));
    assert!(app.devices.is_empty());
    assert_eq!(app.selected, 0);
    assert_eq!(app.status, "BlueZ query failed: no bus");
}

#[test]
fn selection_moves_within_the_list() {
    let mut app = App::new();
    app.select_next();
    assert_eq!(app.selected, 0);
    app.select_previous();
    assert_eq!(app.selected, 0);
    app.refresh(Ok(two_devices()));
    app.select_next();
    assert_eq!(app.selected, 1);
    app.select_previous();
    app.select_previous();
    assert_eq!(app.selected, 0);
}

#[test]
fn current_codec_index_follows_the_active_profile() {
    let devices = two_devices();
    assert_eq!(selected_codec_index(&devices[0]), Some(1));
    assert_eq!(selected_codec_index(&devices[1]), None);
    let unknown = headphone("X", "XX", Some("c"), Some("off"), &[("SBC", "a2dp-sink-sbc")]);
    assert_eq!(selected_codec_index(&unknown), Some(0));
}

#[test]
fn cycling_codecs_wraps_around() {
    let mut app = App::new();
    app.refresh(Ok(two_devices()));
    let next = app.switch_selected_codec(1).expect("switch");
    assert_eq!(next.option.label, "SBC");
    assert_eq!(next.card_name, "card_a");
    assert!(next.stage == SwitchStage::SettingProfile);
    let wrapped = app.switch_selected_codec(2).expect("switch");
    assert_eq!(wrapped.option.label, "LDAC");
    let back = app.switch_selected_codec(-1).expect("switch");
    assert_eq!(back.option.label, "LDAC");
    let far_back = app.switch_selected_codec(-5).expect("switch");
    assert_eq!(far_back.option.label, "SBC");
    app.select_next();
    assert!(app.switch_selected_codec(1).is_none());
    assert_eq!(app.status, "Phones has no switchable codec profiles");
}

#[test]
fn choosing_a_codec_checks_the_device() {
    let mut app = App::new();
    assert!(app.switch_selected_codec_to(0).is_none());
    assert_eq!(app.status, "No bluetooth headphones available");
    app.refresh(Ok(two_devices()));
    assert!(app.switch_selected_codec_to(7).is_none());
    assert_eq!(app.status, "Buds has no codec option 8");
    let sw = app.switch_selected_codec_to(2).expect("switch");
    assert_eq!(sw.option.profile, "a2dp-sink-sbc");
    assert_eq!(sw.address, "AA");
    assert_eq!(sw.name, "Buds");
    app.select_next();
    assert!(app.switch_selected_codec_to(0).is_none());
    assert_eq!(app.status, "Phones has no PulseAudio/PipeWire card");
    let mut no_options = App::new();
    no_options.refresh(Ok(vec![headphone("C", "CC", Some("card"), None, &[])]));
    assert!(no_options.switch_selected_codec_to(0).is_none());
    assert_eq!(no_options.status, "C has no switchable codec profiles");
}

#[test]
fn refresh_after_switch_reports_the_active_profile() {
    let mut app = App::new();
    app.refresh(Ok(two_devices()));
    app.select_next();
    let option = CodecOption { label: "AAC".to_string(), profile: "a2dp-sink-aac".to_string() };
    let mut moved = two_devices();
    moved.reverse();
    assert!(app.refresh_after_switch(Ok(moved), "AA", "Buds", &option, false));
    assert_eq!(app.selected, 1);
    assert_eq!(app.status, "Switched Buds to AAC");
    assert!(app.refresh_after_switch(Ok(two_devices()), "AA", "Buds", &option, true));
    assert_eq!(app.selected, 0);
    assert_eq!(app.status, "Switched Buds to AAC after reconnect");
    let ldac = CodecOption { label: "LDAC".to_string(), profile: "a2dp-sink".to_string() };
    assert!(!app.refresh_after_switch(Ok(two_devices()), "AA", "Buds", &ldac, false));
    assert_eq!(app.status, "Requested LDAC, but active profile is a2dp-sink-aac");
    assert!(!app.refresh_after_switch(Ok(two_devices()), "ZZ", "Gone", &ldac, false));
    assert_eq!(app.selected, 0);
    assert!(!app.refresh_after_switch(Ok(vec![]), "AA", "Buds", &ldac, false));
    assert_eq!(app.status, "Requested LDAC, but active profile is -");
    assert!(!app.refresh_after_switch(Err("timeout".to_string()), "AA", "Buds", &ldac, false));
    assert_eq!(app.status, "Switched LDAC, but refresh failed: timeout");
}

#[test]
fn an_ignored_ldac_switch_reconnects_once() {
    let mut app = App::new();
    app.refresh(Ok(two_devices()));
    let mut sw = app.switch_selected_codec_to(0).expect("switch");
    assert!(app.advance_switch(&mut sw, SwitchEvent::ProfileSet(Ok(()))) == SwitchAction::Refresh);
    assert!(app.advance_switch(&mut sw, SwitchEvent::Refreshed(Ok(two_devices()))) == SwitchAction::Reconnect);
    assert!(sw.stage == SwitchStage::Reconnecting);
    assert!(app.advance_switch(&mut sw, SwitchEvent::Reconnected(Ok(()))) == SwitchAction::Refresh);
    let action = app.advance_switch(&mut sw, SwitchEvent::Refreshed(Ok(two_devices())));
    assert!(action == SwitchAction::Finish { refreshed: true });
    assert_eq!(app.status, "Requested LDAC, but active profile is a2dp-sink-aac");
    assert!(app.advance_switch(&mut sw, SwitchEvent::ProfileSet(Ok(()))) == SwitchAction::Finish { refreshed: false });
}

#[test]
fn switch_failures_end_the_switch() {
    let mut app = App::new();
    app.refresh(Ok(two_devices()));
    let mut sw = app.switch_selected_codec_to(2).expect("switch");
    let action = app.advance_switch(&mut sw, SwitchEvent::ProfileSet(Err("Failure: No such entity".to_string())));
    assert!(action == SwitchAction::Finish { refreshed: false });
    assert_eq!(app.status, "Failed to switch Buds: Failure: No such entity");

    let mut sw = app.switch_selected_codec_to(0).expect("switch");
    app.advance_switch(&mut sw, SwitchEvent::ProfileSet(Ok(())));
    app.advance_switch(&mut sw, SwitchEvent::Refreshed(Ok(two_devices())));
    let action = app.advance_switch(&mut sw, SwitchEvent::Reconnected(Err("busy".to_string())));
    assert!(action == SwitchAction::Finish { refreshed: true });
    assert_eq!(app.status, "Requested LDAC, but bluetooth reconnect failed: busy");

    let mut sw = app.switch_selected_codec_to(2).expect("switch");
    app.advance_switch(&mut sw, SwitchEvent::ProfileSet(Ok(())));
    let action = app.advance_switch(&mut sw, SwitchEvent::Refreshed(Ok(two_devices())));
    assert!(action == SwitchAction::Finish { refreshed: true });
    assert_eq!(app.status, "Requested SBC, but active profile is a2dp-sink-aac");
}

#[test]
fn keys_map_to_commands() {
    assert!(command_for_key(Key::Char('q'), true) == KeyCommand::Quit);
    assert!(command_for_key(Key::Esc, true) == KeyCommand::Quit);
    assert!(command_for_key(Key::Char('r'), true) == KeyCommand::Refresh);
    assert!(command_for_key(Key::Down, true) == KeyCommand::SelectNext);
    assert!(command_for_key(Key::Char('j'), true) == KeyCommand::SelectNext);
    assert!(command_for_key(Key::Up, true) == KeyCommand::SelectPrevious);
    assert!(command_for_key(Key::Char('k'), true) == KeyCommand::SelectPrevious);
    assert!(command_for_key(Key::Right, true) == KeyCommand::CycleCodec(1));
    assert!(command_for_key(Key::Char('l'), true) == KeyCommand::CycleCodec(1));
    assert!(command_for_key(Key::Left, true) == KeyCommand::CycleCodec(-1));
    assert!(command_for_key(Key::Char('h'), true) == KeyCommand::CycleCodec(-1));
    assert!(command_for_key(Key::Char('1'), true) == KeyCommand::ChooseCodec(0));
    assert!(command_for_key(Key::Char('9'), true) == KeyCommand::ChooseCodec(8));
    assert!(command_for_key(Key::Char('0'), true) == KeyCommand::Ignore);
    assert!(command_for_key(Key::Char('x'), true) == KeyCommand::Ignore);
    assert!(command_for_key(Key::Other, true) == KeyCommand::Ignore);
    assert!(command_for_key(Key::Char('q'), false) == KeyCommand::Ignore);
}

#[test]
fn codec_column_marks_the_active_profile() {
    let devices = two_devices();
    assert_eq!(codec_choices(&devices[0]), "LDAC, *AAC, SBC");
    assert_eq!(codec_choices(&devices[1]), "-");
}

#[test]
fn command_outcomes() {
    assert!(set_card_profile_result(true, b"ignored").is_ok());
    assert_eq!(set_card_profile_result(false, b"  Failure: No such entity\n"), Err("Failure: No such entity".to_string()));
    assert_eq!(set_card_profile_result(false, b" \n"), Err("pactl set-card-profile failed".to_string()));
    assert!(disconnect_result(true, b"", b"").is_ok());
    assert!(disconnect_result(false, b"Device AA not connected\n", b"").is_ok());
    assert!(disconnect_result(false, b"", b"No such device").is_ok());
    assert_eq!(disconnect_result(false, b"Failed to disconnect: ", b"busy\n"), Err("Failed to disconnect: busy".to_string()));
    assert!(connect_result(true, b"", b"").is_ok());
    assert_eq!(connect_result(false, b" out \n", b" err "), Err("err".to_string()));
    assert_eq!(connect_result(false, b" out \n", b"  "), Err("out".to_string()));
}

#[test]
fn stepping_forward_then_back_returns_to_the_start() {
    let start = headphone("Buds", "AA", Some("card_a"), Some("a2dp-sink-aac"), &[("LDAC", "a2dp-sink"), ("AAC", "a2dp-sink-aac"), ("SBC", "a2dp-sink-sbc")]);
    let mut app = App::new();
    app.refresh(Ok(vec![start]));
    let forward = app.switch_selected_codec(4).expect("switch");
    assert_eq!(forward.option.profile, "a2dp-sink-sbc");
    let moved = headphone("Buds", "AA", Some("card_a"), Some("a2dp-sink-sbc"), &[("LDAC", "a2dp-sink"), ("AAC", "a2dp-sink-aac"), ("SBC", "a2dp-sink-sbc")]);
    app.refresh(Ok(vec![moved]));
    let back = app.switch_selected_codec(-4).expect("switch");
    assert_eq!(back.option.profile, "a2dp-sink-aac");
}

#[test]
fn an_ignored_ldac_switch_under_another_profile_name_reconnects_too() {
    let devices = || vec![headphone("Buds", "AA", Some("card_a"), Some("a2dp-sink-aac"), &[("LDAC", "a2dp-sink-ldac"), ("AAC", "a2dp-sink-aac")])];
    let mut app = App::new();
    app.refresh(Ok(devices()));
    let mut sw = app.switch_selected_codec_to(0).expect("switch");
    assert!(app.advance_switch(&mut sw, SwitchEvent::ProfileSet(Ok(()))) == SwitchAction::Refresh);
    assert!(app.advance_switch(&mut sw, SwitchEvent::Refreshed(Ok(devices()))) == SwitchAction::Reconnect);
    assert!(app.advance_switch(&mut sw, SwitchEvent::Reconnected(Ok(()))) == SwitchAction::Refresh);
    let action = app.advance_switch(&mut sw, SwitchEvent::Refreshed(Ok(devices())));
    assert!(action == SwitchAction::Finish { refreshed: true });
    let mut other = app.switch_selected_codec_to(1).expect("switch");
    app.advance_switch(&mut other, SwitchEvent::ProfileSet(Ok(())));
    let mut moved = devices();
    moved[0].active_profile = Some("a2dp-sink".to_string());
    assert!(app.advance_switch(&mut other, SwitchEvent::Refreshed(Ok(moved))) == SwitchAction::Finish { refreshed: true });
}

#[test]
fn refresh_is_due_after_two_seconds() {
    assert!(!bluz::state::refresh_due(0));
    assert!(!bluz::state::refresh_due(1999));
    assert!(bluz::state::refresh_due(2000));
    assert!(bluz::state::refresh_due(60000));
}

#[test]
fn codec_steps_fit_for_small_deltas() {
    let mut app = App::new();
    assert!(app.codec_step_fits(isize::MAX));
    app.refresh(Ok(two_devices()));
    assert!(app.codec_step_fits(1));
    assert!(app.codec_step_fits(-1));
    assert!(!app.codec_step_fits(isize::MAX));
    assert!(app.codec_step_fits(isize::MAX - 1));
}
