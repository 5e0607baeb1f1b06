use lxst::args::{systemd_unit, Args, Task};
use lxst::commands::{read_command, Command};
use lxst::config::{phonebook_menu, AudioDeviceConfig, PinLevel, RnphoneConfig};
use lxst::hash_text::{destination_status, hex, identity_status, parse_hash, pretty_hash};
use lxst::network::telephony_dest_hash;
use lxst::pipeline::transmit_audio_frame;
use lxst::session::{
    link_signals, no_identity_error, no_path_error, HardwareOutcome, Session, SessionAction,
};
use lxst::time::{millis, secs, Nanos};
use lxst::ui::{HardwareAction, HardwareMode, HardwareUi, HW_SLEEP_TIMEOUT};
use lxst::{
    AudioFrame, AudioSink, AudioSource, CallState, CallerPolicy, CodecKind, EncodedAudioFrame, Key,
    KeyTransition, KeypadEvent, LxstPacket, PipelineError, RawCodec, Signal, SignalCode,
    TelephonyNetworkEvent,
};
use std::sync::mpsc;

const START: Nanos = 5_000_000_000;

#[test]
fn parses_phonebook_alias() {
    let config =
        RnphoneConfig::parse("[phonebook]\nMary = f3e8c3359b39d36f3baff0a616a73d3e, 123\n")
            .unwrap();
    assert_eq!(config.entry("Mary").unwrap().alias.as_deref(), Some("123"));
}

#[test]
fn parses_and_resolves_ringtone_path() {
    let mut config = RnphoneConfig::parse("[telephone]\nringtone = soft.opus\n").unwrap();
    assert_eq!(config.ringtone_path, Some("soft.opus".to_string()));

    config.resolve_paths("/tmp/rnphone-test");
    assert_eq!(
        config.ringtone_path,
        Some("/tmp/rnphone-test/soft.opus".to_string())
    );
}

#[test]
fn preserves_absolute_ringtone_path() {
    let mut config = RnphoneConfig::parse("[telephone]\nringtone = /opt/ring.opus\n").unwrap();
    config.resolve_paths("/tmp/rnphone-test");
    assert_eq!(config.ringtone_path, Some("/opt/ring.opus".to_string()));
}

#[test]
fn parses_audio_device_names() {
    let config = RnphoneConfig::parse(
        "[telephone]\nspeaker = Living Room Output\nmicrophone = Desk Mic\nringer = Bell Speaker\n",
    )
    .unwrap();

    assert_eq!(
        config.audio_devices.speaker.as_deref(),
        Some("Living Room Output")
    );
    assert_eq!(config.audio_devices.microphone.as_deref(), Some("Desk Mic"));
    assert_eq!(config.audio_devices.ringer.as_deref(), Some("Bell Speaker"));
}

#[test]
fn parses_hardware_config() {
    let config = RnphoneConfig::parse(
        "[hardware]\nkeypad = gpio_4x4\ndisplay = i2c_lcd1602\nkeypad_hook_pin = 5\namp_mute_pin = 25\namp_mute_level = high\n",
    )
    .unwrap();

    assert_eq!(config.hardware.keypad.as_deref(), Some("gpio_4x4"));
    assert_eq!(config.hardware.display.as_deref(), Some("i2c_lcd1602"));
    assert_eq!(config.hardware.keypad_hook_pin, Some(5));
    assert_eq!(config.hardware.amp_mute_pin, Some(25));
    assert_eq!(config.hardware.amp_mute_level, Some(PinLevel::High));
}

#[test]
fn hardware_config_builds_supported_keypad_and_display_drivers() {
    let config = RnphoneConfig::parse(
        "[hardware]\nkeypad = gpio_5x5\ndisplay = i2c_lcd1602\nkeypad_hook_pin = 11\n",
    )
    .unwrap();

    let keypad = config.hardware.keypad_matrix().unwrap().unwrap();
    assert_eq!(keypad.rows(), 5);
    assert_eq!(keypad.cols(), 5);
    assert_eq!(keypad.key_at(4, 4), Some(Key::Char('K')));
    assert!(keypad.is_up(Key::Hook));

    let ui = HardwareUi::from_config(&config.hardware).unwrap();
    assert!(ui.display.is_some());
}

#[test]
fn hardware_config_rejects_unknown_drivers() {
    let config = RnphoneConfig::parse("[hardware]\nkeypad = spi_keypad\n").unwrap();
    let err = config.hardware.validate().unwrap_err();
    assert_eq!(err, "unknown keypad driver spi_keypad");

    let config = RnphoneConfig::parse("[hardware]\ndisplay = oled12864\n").unwrap();
    let err = HardwareUi::from_config(&config.hardware).unwrap_err();
    assert_eq!(err, "unknown display driver oled12864");
}

#[test]
fn rejects_invalid_hardware_pin_level() {
    let err = RnphoneConfig::parse("[hardware]\namp_mute_level = floating\n").unwrap_err();
    assert!(err.contains("invalid pin level"));
}

#[test]
fn hardware_ready_display_matches_upstream() {
    let mut ui = HardwareUi::new(true);

    ui.became_available();

    assert_eq!(ui.mode, HardwareMode::Idle);
    assert_eq!(ui.input, "");
    assert_eq!(display_row(&ui, 0), "Telephone Ready ");
    assert_eq!(display_row(&ui, 1), "                ");
}

#[test]
fn hardware_keypad_digits_enter_dial_mode_and_lookup_aliases() {
    let config = phonebook_config();
    let mut ui = HardwareUi::new(true);
    ui.became_available();

    assert_eq!(
        ui.handle_keypad_event(key_down('1'), CallState::Available, &config),
        HardwareAction::Nothing
    );
    assert_eq!(ui.mode, HardwareMode::Dial);
    assert_eq!(ui.input, "1");
    assert_eq!(display_row(&ui, 0), "1               ");
    assert_eq!(display_row(&ui, 1), "Unknown         ");

    ui.handle_keypad_event(key_down('2'), CallState::Available, &config);

    assert_eq!(ui.input, "12");
    assert_eq!(display_row(&ui, 0), "12              ");
    assert_eq!(display_row(&ui, 1), "Mary            ");
}

#[test]
fn hardware_dial_mode_supports_backspace_clear_and_cancel() {
    let config = RnphoneConfig::default();
    let mut ui = HardwareUi::new(true);
    ui.handle_keypad_event(key_down('1'), CallState::Available, &config);
    ui.handle_keypad_event(key_down('2'), CallState::Available, &config);
    ui.handle_keypad_event(key_down('3'), CallState::Available, &config);

    ui.handle_keypad_event(key_down('B'), CallState::Available, &config);
    assert_eq!(ui.input, "12");
    assert_eq!(display_row(&ui, 0), "12              ");

    ui.handle_keypad_event(key_down('C'), CallState::Available, &config);
    assert_eq!(ui.input, "");
    assert_eq!(display_row(&ui, 1), "Enter number    ");

    ui.handle_keypad_event(key_down('A'), CallState::Available, &config);
    assert_eq!(ui.mode, HardwareMode::Idle);
    assert_eq!(display_row(&ui, 0), "Telephone Ready ");
    assert_eq!(display_row(&ui, 1), "                ");
}

#[test]
fn hardware_dial_key_dials_matching_alias_and_resets_input() {
    let config = phonebook_config();
    let expected_hash = parse_hash("f3e8c3359b39d36f3baff0a616a73d3e").unwrap();
    let mut ui = HardwareUi::new(true);
    ui.handle_keypad_event(key_down('1'), CallState::Available, &config);
    ui.handle_keypad_event(key_down('2'), CallState::Available, &config);

    let action = ui.handle_keypad_event(key_down('D'), CallState::Available, &config);

    assert_eq!(action, HardwareAction::Dial(expected_hash));
    assert_eq!(ui.mode, HardwareMode::Idle);
    assert_eq!(ui.input, "");
}

#[test]
fn hardware_hook_up_dials_matching_alias() {
    let config = phonebook_config();
    let expected_hash = parse_hash("f3e8c3359b39d36f3baff0a616a73d3e").unwrap();
    let mut ui = HardwareUi::new(false);
    ui.handle_keypad_event(key_down('1'), CallState::Available, &config);
    ui.handle_keypad_event(key_down('2'), CallState::Available, &config);

    let action = ui.handle_keypad_event(hook_up(), CallState::Available, &config);

    assert_eq!(action, HardwareAction::Dial(expected_hash));
    assert_eq!(ui.mode, HardwareMode::Idle);
}

#[test]
fn hardware_ringing_keys_answer_or_reject_like_upstream() {
    let config = RnphoneConfig::default();
    let mut ui = HardwareUi::new(false);

    assert_eq!(
        ui.handle_keypad_event(key_down('D'), CallState::Ringing, &config),
        HardwareAction::Answer
    );
    assert_eq!(
        ui.handle_keypad_event(hook_up(), CallState::Ringing, &config),
        HardwareAction::Answer
    );
    assert_eq!(
        ui.handle_keypad_event(key_down('C'), CallState::Ringing, &config),
        HardwareAction::Reject
    );
}

#[test]
fn hardware_active_call_keys_hang_up_like_upstream() {
    let config = RnphoneConfig::default();
    let mut ui = HardwareUi::new(false);

    for state in [
        CallState::Calling,
        CallState::Connecting,
        CallState::Established,
    ] {
        assert_eq!(
            ui.handle_keypad_event(key_down('D'), state, &config),
            HardwareAction::Hangup
        );
        assert_eq!(
            ui.handle_keypad_event(hook_down(), state, &config),
            HardwareAction::Hangup
        );
    }
}

#[test]
fn hardware_sleeping_display_wakes_and_processes_same_key_event() {
    let config = RnphoneConfig::default();
    let mut ui = HardwareUi::new(true);
    ui.became_available();
    ui.sleep();
    assert!(ui.display.as_ref().unwrap().is_sleeping());

    ui.handle_keypad_event(key_down('5'), CallState::Available, &config);

    assert_eq!(ui.mode, HardwareMode::Dial);
    assert_eq!(ui.input, "5");
    assert!(!ui.display.as_ref().unwrap().is_sleeping());
    assert_eq!(display_row(&ui, 0), "5               ");
    assert_eq!(display_row(&ui, 1), "Unknown         ");
}

#[test]
fn hardware_idle_display_sleeps_after_upstream_timeout() {
    let mut ui = HardwareUi::new(true);
    ui.became_available();

    assert!(ui.sleep_if_idle(HW_SLEEP_TIMEOUT, CallState::Available, false));

    assert_eq!(ui.mode, HardwareMode::Sleep);
    assert!(ui.display.as_ref().unwrap().is_sleeping());
    assert_eq!(display_row(&ui, 0), "                ");
    assert_eq!(display_row(&ui, 1), "                ");
}

#[test]
fn hardware_idle_sleep_is_guarded_by_state_mode_busy_and_timeout() {
    let mut ui = HardwareUi::new(true);
    ui.became_available();
    assert!(!ui.sleep_if_idle(
        HW_SLEEP_TIMEOUT - millis(1),
        CallState::Available,
        false
    ));
    assert_eq!(ui.mode, HardwareMode::Idle);

    ui.handle_keypad_event(
        key_down('1'),
        CallState::Available,
        &RnphoneConfig::default(),
    );
    assert!(!ui.sleep_if_idle(HW_SLEEP_TIMEOUT, CallState::Available, false));
    assert_eq!(ui.mode, HardwareMode::Dial);

    ui.became_available();
    assert!(!ui.sleep_if_idle(HW_SLEEP_TIMEOUT, CallState::Ringing, false));
    assert_eq!(ui.mode, HardwareMode::Idle);

    assert!(!ui.sleep_if_idle(HW_SLEEP_TIMEOUT, CallState::Available, true));
    assert_eq!(ui.mode, HardwareMode::Idle);
}

#[test]
fn empty_audio_device_names_are_ignored() {
    let config =
        RnphoneConfig::parse("[telephone]\nspeaker =    \nmicrophone =\nringer =     \n")
            .unwrap();

    assert_eq!(config.audio_devices, AudioDeviceConfig::default());
}

#[test]
fn parses_long_verbose_flag() {
    let args = Args::parse(&["--verbose".to_string(), "-vv".to_string()]).unwrap();
    assert_eq!(args.verbose, 3);
}

#[test]
fn parses_allowed_list() {
    let config = RnphoneConfig::parse(
        "[telephone]\nallowed_callers = f3e8c3359b39d36f3baff0a616a73d3e\n",
    )
    .unwrap();
    match config.allowed_callers {
        CallerPolicy::List(list) => assert_eq!(list.len(), 1),
        _ => panic!("expected list"),
    }
}

#[test]
fn phonebook_policy_allows_only_phonebook_entries() {
    let config = RnphoneConfig::parse(
        "[telephone]\nallowed_callers = phonebook\n\
         [phonebook]\nMary = f3e8c3359b39d36f3baff0a616a73d3e, 123\n",
    )
    .unwrap();
    match config.allowed_callers {
        CallerPolicy::List(list) => {
            assert!(list.contains(&parse_hash("f3e8c3359b39d36f3baff0a616a73d3e").unwrap()));
            assert!(!list.contains(&parse_hash("5d2d14619dfa0ff06278c17347c14331").unwrap()));
        }
        _ => panic!("expected phonebook caller list"),
    }
}

#[test]
fn finalization_removes_own_identity_from_phonebook_policy() {
    let own = parse_hash("f3e8c3359b39d36f3baff0a616a73d3e").unwrap();
    let mut config = RnphoneConfig::parse(
        "[telephone]\nallowed_callers = phonebook\nblocked_callers = f3e8c3359b39d36f3baff0a616a73d3e\n\
         [phonebook]\nMary = f3e8c3359b39d36f3baff0a616a73d3e, 123\n\
         Rudy = 5d2d14619dfa0ff06278c17347c14331, 241\n",
    )
    .unwrap();
    config.finalize_for_identity(&own);
    assert!(config.entry("Mary").is_none());
    assert!(!config.blocked_callers.contains(&own));
    match config.allowed_callers {
        CallerPolicy::List(list) => {
            assert_eq!(list.len(), 1);
            assert!(list.contains(&parse_hash("5d2d14619dfa0ff06278c17347c14331").unwrap()));
        }
        _ => panic!("expected phonebook caller list"),
    }
}

#[test]
fn resolves_phonebook_name_and_numeric_alias() {
    let config =
        RnphoneConfig::parse("[phonebook]\nMary = f3e8c3359b39d36f3baff0a616a73d3e, A1B2\n")
            .unwrap();
    let by_name = config.resolve_dial_target("mary").unwrap();
    let by_alias = config.resolve_dial_target("12").unwrap();
    assert_eq!(by_name.identity_hash, by_alias.identity_hash);
    assert_eq!(by_alias.label, "Mary (12)");
}

#[test]
fn formats_identity_and_destination_status_like_upstream() {
    let hash = parse_hash("f3e8c3359b39d36f3baff0a616a73d3e").unwrap();

    assert_eq!(
        identity_status(&hash),
        "Identity hash of this telephone: <f3e8c3359b39d36f3baff0a616a73d3e>\n"
    );
    assert_eq!(
        destination_status(&hash),
        "Destination hash of this telephone: <f3e8c3359b39d36f3baff0a616a73d3e>\n"
    );
}

#[test]
fn formats_empty_phonebook_like_upstream() {
    let config = RnphoneConfig::default();

    assert_eq!(phonebook_menu(&config), "\nNo entries in phonebook\n");
}

#[test]
fn formats_phonebook_in_config_order_with_aligned_aliases() {
    let config = RnphoneConfig::parse(
        "[phonebook]\nMary = f3e8c3359b39d36f3baff0a616a73d3e, A1B2\nAlexander = 5d2d14619dfa0ff06278c17347c14331\n",
    )
    .unwrap();

    assert_eq!(
        phonebook_menu(&config),
        "\nPhonebook\n  12 Mary      : <f3e8c3359b39d36f3baff0a616a73d3e>\n   2 Alexander : <5d2d14619dfa0ff06278c17347c14331>\n"
    );
}

#[test]
fn finalization_removes_own_identity_from_phonebook_order() {
    let own = parse_hash("f3e8c3359b39d36f3baff0a616a73d3e").unwrap();
    let mut config = RnphoneConfig::parse(
        "[phonebook]\nMary = f3e8c3359b39d36f3baff0a616a73d3e, 123\nRudy = 5d2d14619dfa0ff06278c17347c14331, 241\n",
    )
    .unwrap();

    config.finalize_for_identity(&own);

    let order: Vec<&str> = config
        .phonebook
        .iter()
        .map(|entry| entry.name.as_str())
        .collect();
    assert_eq!(order, vec!["Rudy"]);
    assert_eq!(
        phonebook_menu(&config),
        "\nPhonebook\n  241 Rudy : <5d2d14619dfa0ff06278c17347c14331>\n"
    );
}

fn test_app_with_config(config: RnphoneConfig) -> Session {
    Session::new(config, START).unwrap()
}

fn test_app() -> Session {
    test_app_with_config(RnphoneConfig::default())
}

fn phonebook_config() -> RnphoneConfig {
    RnphoneConfig::parse("[phonebook]\nMary = f3e8c3359b39d36f3baff0a616a73d3e, 12\n").unwrap()
}

fn display_config() -> RnphoneConfig {
    RnphoneConfig::parse("[hardware]\ndisplay = i2c_lcd1602\n").unwrap()
}

fn key_down(key: char) -> KeypadEvent {
    KeypadEvent {
        key: Key::Char(key),
        transition: KeyTransition::Down,
    }
}

fn hook_down() -> KeypadEvent {
    KeypadEvent {
        key: Key::Hook,
        transition: KeyTransition::Down,
    }
}

fn hook_up() -> KeypadEvent {
    KeypadEvent {
        key: Key::Hook,
        transition: KeyTransition::Up,
    }
}

fn display_row(ui: &HardwareUi, row: usize) -> &str {
    ui.display.as_ref().unwrap().row(row).unwrap()
}

fn link_id(byte: u8) -> [u8; 16] {
    [byte; 16]
}

fn established_link_event(link_id: [u8; 16], is_initiator: bool) -> TelephonyNetworkEvent {
    TelephonyNetworkEvent::LinkEstablished {
        link_id,
        dest_hash: [0xD0; 16],
        is_initiator,
    }
}

fn remote_identified_event(link_id: [u8; 16], identity_hash: [u8; 16]) -> TelephonyNetworkEvent {
    TelephonyNetworkEvent::RemoteIdentified {
        link_id,
        identity_hash,
    }
}

fn link_data_signal(signal: Signal) -> TelephonyNetworkEvent {
    TelephonyNetworkEvent::LinkData {
        link_id: link_id(0x77),
        context: 0,
        data: LxstPacket::signalling(signal).encode().unwrap(),
    }
}

fn press(app: &mut Session, event: KeypadEvent) -> Vec<SessionAction> {
    match app.handle_hardware_keypad_event_at(event, START) {
        HardwareOutcome::Act(actions) => actions,
        HardwareOutcome::Dial(_) => panic!("nothing is to be dialled"),
    }
}

fn sent_signals(actions: &[SessionAction]) -> Vec<([u8; 16], Signal)> {
    actions
        .iter()
        .filter_map(|action| match action {
            SessionAction::SendSignal { link_id, signal } => Some((*link_id, *signal)),
            _ => None,
        })
        .collect()
}

fn started_audio(actions: &[SessionAction]) -> Vec<[u8; 16]> {
    actions
        .iter()
        .filter_map(|action| match action {
            SessionAction::StartAudio { link_id, .. } => Some(*link_id),
            _ => None,
        })
        .collect()
}

fn count(actions: &[SessionAction], action: SessionAction) -> usize {
    actions.iter().filter(|other| **other == action).count()
}

#[test]
fn hardware_keypad_answer_routes_through_app_call_flow() {
    let mut app = test_app();
    let link_id = link_id(0x20);
    app.active_link = Some(link_id);
    assert!(app.telephone.begin_incoming_call([0x21; 16], START));

    let actions = press(&mut app, key_down('D'));

    assert_eq!(app.telephone.state(), CallState::Established);
    assert_eq!(
        sent_signals(&actions),
        vec![
            (link_id, Signal::Code(SignalCode::Connecting)),
            (link_id, Signal::Code(SignalCode::Established)),
        ]
    );
    assert_eq!(started_audio(&actions), vec![link_id]);
    assert!(app.audio_running);
}

#[test]
fn hardware_keypad_reject_routes_through_app_teardown() {
    let mut app = test_app();
    let link_id = link_id(0x22);
    app.active_link = Some(link_id);
    assert!(app.telephone.begin_incoming_call([0x23; 16], START));

    let actions = press(&mut app, key_down('C'));

    assert_eq!(app.telephone.state(), CallState::Available);
    assert_eq!(app.active_link, None);
    assert_eq!(
        sent_signals(&actions),
        vec![(link_id, Signal::Code(SignalCode::Rejected))]
    );
    assert_eq!(count(&actions, SessionAction::TeardownLink { link_id }), 1);
}

#[test]
fn hardware_hook_down_hangs_up_active_call() {
    let mut app = test_app();
    let link_id = link_id(0x24);
    app.active_link = Some(link_id);
    assert!(app.telephone.begin_outgoing_call([0x25; 16], START));
    assert!(app.telephone.establish());
    app.audio_running = true;

    let actions = press(&mut app, hook_down());

    assert_eq!(app.telephone.state(), CallState::Available);
    assert_eq!(app.active_link, None);
    assert!(!app.audio_running);
    assert_eq!(count(&actions, SessionAction::StopAudio), 1);
    assert!(sent_signals(&actions).is_empty());
}

#[test]
fn hardware_display_returns_to_ready_on_call_teardown() {
    let mut app = test_app_with_config(display_config());
    let link_id = link_id(0x26);
    press(&mut app, key_down('4'));
    assert_eq!(display_row(&app.hardware_ui, 0), "4               ");

    app.active_link = Some(link_id);
    assert!(app.telephone.begin_outgoing_call([0x27; 16], START));
    assert!(app.telephone.establish());
    app.hangup_current(START);

    assert_eq!(app.telephone.state(), CallState::Available);
    assert_eq!(display_row(&app.hardware_ui, 0), "Telephone Ready ");
    assert_eq!(display_row(&app.hardware_ui, 1), "                ");
}

#[test]
fn app_hardware_idle_poll_sleeps_display_after_last_event_timeout() {
    let mut app = test_app_with_config(display_config());
    let start = START;
    app.became_available_at(start);

    assert!(!app.poll_hardware_idle(start + HW_SLEEP_TIMEOUT - millis(1)));
    assert_eq!(app.hardware_ui.mode, HardwareMode::Idle);

    assert!(app.poll_hardware_idle(start + HW_SLEEP_TIMEOUT));
    assert_eq!(app.hardware_ui.mode, HardwareMode::Sleep);
    assert!(app.hardware_ui.display.as_ref().unwrap().is_sleeping());
}

#[test]
fn app_hardware_keypad_event_resets_idle_sleep_timer() {
    let mut app = test_app_with_config(display_config());
    let start = START;
    app.became_available_at(start);

    app.handle_hardware_keypad_event_at(hook_down(), start + secs(8));

    assert_eq!(app.hardware_ui.mode, HardwareMode::Idle);
    assert!(!app.hardware_ui.display.as_ref().unwrap().is_sleeping());
    assert!(!app.poll_hardware_idle(start + secs(20)));
}

#[test]
fn app_polls_hardware_keypad_events_from_channel() {
    let mut app = test_app_with_config(display_config());
    let (tx, rx) = mpsc::channel();
    tx.send(key_down('7')).unwrap();

    let mut handled = 0;
    for event in rx.try_iter() {
        app.handle_hardware_keypad_event_at(event, START);
        handled += 1;
    }

    assert_eq!(handled, 1);
    assert_eq!(app.hardware_ui.mode, HardwareMode::Dial);
    assert_eq!(app.hardware_ui.input, "7");
    assert_eq!(display_row(&app.hardware_ui, 0), "7               ");
}

#[test]
fn incoming_remote_identity_rings_and_tracks_link() {
    let mut app = test_app();
    let link_id = link_id(0x11);
    let caller = [0x22; 16];

    let actions = app.handle_network_event(&remote_identified_event(link_id, caller), START);

    assert_eq!(app.telephone.state(), CallState::Ringing);
    assert_eq!(app.active_link, Some(link_id));
    assert_eq!(
        sent_signals(&actions),
        vec![(link_id, Signal::Code(SignalCode::Ringing))]
    );
    assert!(app.ringer_running);
    assert_eq!(count(&actions, SessionAction::StartRinger), 1);
}

#[test]
fn inbound_link_can_establish_before_remote_identity() {
    let mut app = test_app();
    let link_id = link_id(0x33);
    let caller = [0x44; 16];

    let actions = app.handle_network_event(&established_link_event(link_id, false), START);
    assert_eq!(app.active_link, Some(link_id));
    assert_eq!(app.telephone.state(), CallState::Available);
    assert!(sent_signals(&actions).is_empty());

    let actions = app.handle_network_event(&remote_identified_event(link_id, caller), START);
    assert_eq!(app.active_link, Some(link_id));
    assert_eq!(app.telephone.state(), CallState::Ringing);
    assert_eq!(
        sent_signals(&actions),
        vec![(link_id, Signal::Code(SignalCode::Ringing))]
    );
}

#[test]
fn blocked_incoming_identity_sends_busy_on_identified_link() {
    let blocked = [0x55; 16];
    let mut config = RnphoneConfig::default();
    config.blocked_callers.insert(blocked);
    let mut app = test_app_with_config(config);
    let link_id = link_id(0x56);

    let actions = app.handle_network_event(&remote_identified_event(link_id, blocked), START);

    assert_eq!(app.telephone.state(), CallState::Available);
    assert_eq!(app.active_link, None);
    assert_eq!(
        sent_signals(&actions),
        vec![(link_id, Signal::Code(SignalCode::Busy))]
    );
    assert_eq!(count(&actions, SessionAction::StartRinger), 0);
}

#[test]
fn outgoing_link_established_sends_established_and_starts_audio() {
    let mut app = test_app();
    let remote = [0x66; 16];
    let link_id = link_id(0x67);
    assert!(app.telephone.begin_outgoing_call(remote, START));

    let actions = app.handle_network_event(&established_link_event(link_id, true), START);

    assert_eq!(app.active_link, Some(link_id));
    assert_eq!(app.telephone.state(), CallState::Established);
    assert_eq!(
        sent_signals(&actions),
        vec![(link_id, Signal::Code(SignalCode::Established))]
    );
    assert_eq!(started_audio(&actions), vec![link_id]);
    assert!(app.audio_running);
}

#[test]
fn incoming_established_signal_before_answer_does_not_start_audio() {
    let mut app = test_app();
    let link_id = link_id(0x70);
    let mut actions = app.handle_network_event(&remote_identified_event(link_id, [0x71; 16]), START);

    actions.extend(app.handle_network_event(
        &link_data_signal(Signal::Code(SignalCode::Established)),
        START,
    ));

    assert_eq!(app.telephone.state(), CallState::Ringing);
    assert!(started_audio(&actions).is_empty());
    assert!(app.ringer_running);
}

#[test]
fn outgoing_established_signal_starts_audio_once_call_is_established() {
    let mut app = test_app();
    let remote = [0x72; 16];
    let link_id = link_id(0x73);
    assert!(app.telephone.begin_outgoing_call(remote, START));
    app.active_link = Some(link_id);

    let established = link_data_signal(Signal::Code(SignalCode::Established));
    let mut actions = app.handle_network_event(&established, START);
    actions.extend(app.handle_network_event(&established, START));

    assert_eq!(app.telephone.state(), CallState::Established);
    assert_eq!(started_audio(&actions), vec![link_id]);
    assert!(app.audio_running);
}

#[test]
fn remote_busy_signal_cleans_active_link_and_audio() {
    let mut app = test_app();
    let remote = [0x80; 16];
    let link_id = link_id(0x81);
    assert!(app.telephone.begin_outgoing_call(remote, START));
    app.active_link = Some(link_id);
    app.audio_running = true;

    let actions =
        app.handle_network_event(&link_data_signal(Signal::Code(SignalCode::Busy)), START);

    assert_eq!(app.telephone.state(), CallState::Available);
    assert_eq!(app.active_link, None);
    assert!(!app.audio_running);
    assert_eq!(count(&actions, SessionAction::StopAudio), 1);
}

#[test]
fn remote_rejected_signal_cleans_active_link_and_ringer() {
    let mut app = test_app();
    let remote = [0x82; 16];
    let link_id = link_id(0x83);
    assert!(app.telephone.begin_outgoing_call(remote, START));
    app.active_link = Some(link_id);
    app.ringer_running = true;

    let actions =
        app.handle_network_event(&link_data_signal(Signal::Code(SignalCode::Rejected)), START);

    assert_eq!(app.telephone.state(), CallState::Available);
    assert_eq!(app.active_link, None);
    assert!(!app.ringer_running);
    assert_eq!(count(&actions, SessionAction::StopRinger), 1);
}

#[test]
fn closed_non_active_link_does_not_touch_current_call() {
    let mut app = test_app();
    let active = link_id(0x90);
    app.active_link = Some(active);
    assert!(app.telephone.begin_outgoing_call([0x91; 16], START));
    app.audio_running = true;
    app.ringer_running = true;

    let actions = app.handle_network_event(
        &TelephonyNetworkEvent::LinkClosed {
            link_id: link_id(0x92),
        },
        START,
    );

    assert_eq!(app.active_link, Some(active));
    assert_eq!(app.telephone.state(), CallState::Calling);
    assert!(app.audio_running);
    assert!(app.ringer_running);
    assert_eq!(count(&actions, SessionAction::StopAudio), 0);
    assert_eq!(count(&actions, SessionAction::StopRinger), 0);
}

#[test]
fn closed_active_link_cleans_call_state_and_side_effects() {
    let mut app = test_app();
    let active = link_id(0x94);
    app.active_link = Some(active);
    assert!(app.telephone.begin_outgoing_call([0x95; 16], START));
    app.audio_running = true;
    app.ringer_running = true;

    let actions =
        app.handle_network_event(&TelephonyNetworkEvent::LinkClosed { link_id: active }, START);

    assert_eq!(app.active_link, None);
    assert_eq!(app.telephone.state(), CallState::Available);
    assert!(!app.audio_running);
    assert!(!app.ringer_running);
    assert_eq!(count(&actions, SessionAction::StopAudio), 1);
    assert_eq!(count(&actions, SessionAction::StopRinger), 1);
}

fn quarter_frame() -> AudioFrame {
    AudioFrame::new(8_000, 1, vec![0.0_f32.to_bits(), 0.25_f32.to_bits()]).unwrap()
}

#[test]
fn transmit_audio_frame_obeys_sink_backpressure() {
    let mut source = FakeInputSource::with_frame(quarter_frame());
    source.start();
    let mut codec = RawCodec::default();
    let mut sink = FakeTransmitSink {
        can_receive: false,
        frames: Vec::new(),
    };

    let transmitted = transmit_audio_frame(&mut source, &mut codec, &mut sink).unwrap();

    assert!(!transmitted);
    assert_eq!(source.pulls, 0);
    assert!(sink.frames.is_empty());
}

#[test]
fn transmit_audio_frame_encodes_when_sink_can_receive() {
    let mut source = FakeInputSource::with_frame(quarter_frame());
    source.start();
    let mut codec = RawCodec::default();
    let mut sink = FakeTransmitSink {
        can_receive: true,
        frames: Vec::new(),
    };

    let transmitted = transmit_audio_frame(&mut source, &mut codec, &mut sink).unwrap();

    assert!(transmitted);
    assert_eq!(source.pulls, 1);
    assert_eq!(sink.frames.len(), 1);
    assert_eq!(sink.frames[0].codec, CodecKind::Raw);
}

struct FakeInputSource {
    frames: std::collections::VecDeque<AudioFrame>,
    running: bool,
    pulls: usize,
}

impl FakeInputSource {
    fn with_frame(frame: AudioFrame) -> Self {
        Self {
            frames: std::collections::VecDeque::from([frame]),
            running: false,
            pulls: 0,
        }
    }
}

impl AudioSource for FakeInputSource {
    fn start(&mut self) {
        self.running = true;
    }

    fn stop(&mut self) {
        self.running = false;
    }

    fn is_running(&self) -> bool {
        self.running
    }

    fn samplerate(&self) -> u32 {
        8_000
    }

    fn channels(&self) -> u8 {
        1
    }

    fn next_frame(&mut self) -> Result<Option<AudioFrame>, PipelineError> {
        self.pulls += 1;
        Ok(self.frames.pop_front())
    }
}

struct FakeTransmitSink {
    can_receive: bool,
    frames: Vec<EncodedAudioFrame>,
}

impl AudioSink for FakeTransmitSink {
    fn can_receive(&self) -> bool {
        self.can_receive
    }

    fn handle_frame(&mut self, frame: EncodedAudioFrame) -> Result<(), PipelineError> {
        self.frames.push(frame);
        Ok(())
    }
}

#[test]
fn systemd_flag_prints_unit() {
    let args = Args::parse(&["--systemd".to_string()]).unwrap();
    assert_eq!(args.task(), Task::Systemd);
    let unit = systemd_unit("mary");
    assert!(unit.contains("[Unit]"));
    assert!(unit.contains("Reticulum Telephone Service"));
    assert!(unit.contains("User=mary\n"));
    assert!(unit.contains("ExecStart=/home/mary/.local/bin/rnphone --service -vvv\n"));
}

fn parse_args(args: &[&str]) -> Result<Args, String> {
    let args: Vec<String> = args.iter().map(|arg| arg.to_string()).collect();
    Args::parse(&args)
}

#[test]
fn arguments_are_read_or_refused() {
    let args = parse_args(&["--config", "/etc/phone", "--rnsconfig", "/etc/rns", "-s"]).unwrap();
    assert_eq!(args.config.as_deref(), Some("/etc/phone"));
    assert_eq!(args.rnsconfig.as_deref(), Some("/etc/rns"));
    assert!(args.service);
    assert_eq!(args.task(), Task::Run);
    assert_eq!(parse_args(&["--version"]).unwrap().task(), Task::Version);
    assert_eq!(parse_args(&["-h", "--version"]).unwrap().task(), Task::Help);
    assert_eq!(parse_args(&["-l"]).unwrap().task(), Task::ListDevices);
    assert!(parse_args(&["--config"]).is_err());
    assert!(parse_args(&["--nonsense"]).is_err());
}

#[test]
fn hashes_are_read_and_written() {
    let hash = parse_hash("f3e8c3359b39d36f3baff0a616a73d3e").unwrap();
    assert_eq!(hash[0], 0xf3);
    assert_eq!(hash[15], 0x3e);
    assert_eq!(hex(&hash), "f3e8c3359b39d36f3baff0a616a73d3e");
    assert_eq!(parse_hash("F3E8C3359B39D36F3BAFF0A616A73D3E").unwrap(), hash);
    assert_eq!(pretty_hash(&[0x01, 0xab]), "<01ab>");
    assert!(parse_hash("f3e8").is_err());
    assert!(parse_hash("f3e8c3359b39d36f3baff0a616a73d3g").is_err());
}

#[test]
fn settings_that_cannot_be_read_are_refused() {
    assert!(RnphoneConfig::parse("[phonebook]\nMary = nothash\n").is_err());
    assert!(RnphoneConfig::parse("[telephone]\nallowed_callers = nothash\n").is_err());
    assert!(RnphoneConfig::parse("[hardware]\nkeypad_hook_pin = 300\n").is_err());
    assert!(RnphoneConfig::parse("[hardware]\namp_mute_pin = high\n").is_err());
    let config = RnphoneConfig::parse("[telephone]\nallowed_callers = NONE\n").unwrap();
    assert!(matches!(config.allowed_callers, CallerPolicy::Nobody));
    let config = RnphoneConfig::parse("[telephone]\nallowed_callers = all\n").unwrap();
    assert!(matches!(config.allowed_callers, CallerPolicy::All));
}

#[test]
fn taking_out_the_own_identity_twice_changes_nothing() {
    let own = parse_hash("f3e8c3359b39d36f3baff0a616a73d3e").unwrap();
    let mut config = RnphoneConfig::parse(
        "[telephone]\nallowed_callers = phonebook\n\
         [phonebook]\nMary = f3e8c3359b39d36f3baff0a616a73d3e\n\
         Rudy = 5d2d14619dfa0ff06278c17347c14331, 241\n",
    )
    .unwrap();
    config.finalize_for_identity(&own);
    let once = phonebook_menu(&config);
    config.finalize_for_identity(&own);
    assert_eq!(phonebook_menu(&config), once);
}

#[test]
fn lines_are_commands() {
    let config = phonebook_config();
    assert_eq!(read_command("  ", &config), Command::Empty);
    assert_eq!(read_command("h", &config), Command::Help);
    assert_eq!(read_command("?", &config), Command::Help);
    assert_eq!(read_command(" exit ", &config), Command::Quit);
    assert_eq!(read_command("identity", &config), Command::Identity);
    assert_eq!(read_command("d", &config), Command::DestHash);
    assert_eq!(read_command("p", &config), Command::Phonebook);
    assert_eq!(read_command("anounce", &config), Command::Announce);
    assert_eq!(read_command("r", &config), Command::Redial);
    assert_eq!(read_command("answer", &config), Command::Answer);
    assert_eq!(read_command("hangup", &config), Command::Hangup);
    assert_eq!(
        read_command("f3e8c3359b39d36f3baff0a616a73d3e", &config),
        Command::Dial(parse_hash("f3e8c3359b39d36f3baff0a616a73d3e").unwrap())
    );
    assert!(matches!(
        read_command("12", &config),
        Command::Call(target) if target.label == "Mary (12)"
    ));
    assert_eq!(
        read_command("nobody", &config),
        Command::Unknown("nobody".to_string())
    );
}

#[test]
fn a_second_caller_does_not_disturb_the_call() {
    let mut app = test_app();
    app.handle_network_event(&remote_identified_event(link_id(1), [0x11; 16]), START);
    let actions = app.handle_network_event(&remote_identified_event(link_id(2), [0x12; 16]), START);
    assert_eq!(app.active_link, Some(link_id(1)));
    assert_eq!(app.telephone.state(), CallState::Ringing);
    assert!(actions.is_empty());
}

#[test]
fn an_unanswered_call_stays_silent() {
    let mut app = test_app();
    let event = remote_identified_event(link_id(1), [0x11; 16]);
    let actions = app.handle_network_event(&event, START);
    assert!(started_audio(&actions).is_empty());
    assert!(!app.audio_running);
    let (answered, actions) = app.answer_current(START);
    assert!(answered);
    assert_eq!(started_audio(&actions), vec![link_id(1)]);
    assert_eq!(count(&actions, SessionAction::StopRinger), 1);
}

#[test]
fn dialling_begins_a_call_on_the_link() {
    let mut app = test_app();
    let remote = [0x61; 16];
    let (destination, text) = app.start_dial(remote);
    assert_eq!(destination, Some(telephony_dest_hash(remote)));
    assert!(!text.is_empty());
    app.finish_dial(remote, link_id(0x62), START);
    assert_eq!(app.telephone.state(), CallState::Calling);
    assert_eq!(app.active_link, Some(link_id(0x62)));
    assert_eq!(app.last_dialed, Some(remote));
    assert_eq!(app.start_dial([0x63; 16]).0, None);
    assert!(no_path_error(&remote).contains(&hex(&remote)));
    assert!(no_identity_error(&remote).contains(&hex(&remote)));
}

#[test]
fn an_empty_line_hangs_up() {
    let mut app = test_app();
    assert!(app.handle_empty_line(START).is_empty());
    app.handle_network_event(&remote_identified_event(link_id(1), [0x11; 16]), START);
    let actions = app.handle_empty_line(START);
    assert_eq!(
        sent_signals(&actions),
        vec![(link_id(1), Signal::Code(SignalCode::Rejected))]
    );
    assert_eq!(app.telephone.state(), CallState::Available);
    assert_eq!(app.active_link, None);
}

#[test]
fn a_sleeping_telephone_takes_the_key() {
    let mut app = test_app_with_config(display_config());
    app.became_available_at(START);
    assert!(app.poll_hardware_idle(START + HW_SLEEP_TIMEOUT));
    press(&mut app, key_down('9'));
    assert_eq!(app.hardware_ui.input, "9");
    assert_eq!(app.hardware_ui.mode, HardwareMode::Dial);
}

#[test]
fn keys_dial_what_the_phonebook_holds() {
    let mut app = test_app_with_config(phonebook_config());
    press(&mut app, key_down('1'));
    press(&mut app, key_down('2'));
    match app.handle_hardware_keypad_event_at(hook_up(), START) {
        HardwareOutcome::Dial(hash) => {
            assert_eq!(hash, parse_hash("f3e8c3359b39d36f3baff0a616a73d3e").unwrap())
        }
        HardwareOutcome::Act(_) => panic!("somebody is to be dialled"),
    }
}

#[test]
fn settings_are_looked_for_in_three_places() {
    assert_eq!(lxst::config::config_dir(true, Some("/home/mary"), true), "/etc/rnphone");
    assert_eq!(
        lxst::config::config_dir(false, Some("/home/mary"), true),
        "/home/mary/.config/rnphone"
    );
    assert_eq!(lxst::config::config_dir(false, Some("/home/mary/"), false), "/home/mary/.rnphone");
    assert_eq!(lxst::config::config_dir(false, None, false), "./.rnphone");
}

#[test]
fn signals_are_read_from_link_data() {
    let signals = vec![
        Signal::Code(SignalCode::Ringing),
        Signal::Code(SignalCode::Busy),
    ];
    let packet = LxstPacket {
        frames: Vec::new(),
        signals: signals.clone(),
    };
    assert_eq!(link_signals(&packet.encode().unwrap()), signals);
    assert!(link_signals(&[0xc1]).is_empty());
    assert!(link_signals(&[]).is_empty());
}
