use lxst::{
    BufferedLcd1602, I2cLcd1602, Key, KeyTransition, KeypadEvent, Lcd1602Buffer, Lcd1602Bus,
    Lcd1602Display, MatrixKeypad, MatrixKeypadBackend, MatrixKeypadScanner,
};

#[test]
fn keypad_4x4_layout_matches_python_driver() {
    let keypad = MatrixKeypad::gpio_4x4();
    assert_eq!(keypad.rows(), 4);
    assert_eq!(keypad.cols(), 4);
    assert_eq!(keypad.key_at(0, 0), Some(Key::Char('1')));
    assert_eq!(keypad.key_at(0, 3), Some(Key::Char('A')));
    assert_eq!(keypad.key_at(3, 0), Some(Key::Char('*')));
    assert_eq!(keypad.key_at(3, 3), Some(Key::Char('D')));
    assert_eq!(MatrixKeypad::GPIO_4X4_HOOK_PIN, 5);
}

#[test]
fn keypad_5x5_layout_matches_python_driver() {
    let keypad = MatrixKeypad::gpio_5x5();
    assert_eq!(keypad.rows(), 5);
    assert_eq!(keypad.cols(), 5);
    assert_eq!(keypad.key_at(0, 0), Some(Key::Char('P')));
    assert_eq!(keypad.key_at(0, 4), Some(Key::Char('+')));
    assert_eq!(keypad.key_at(4, 0), Some(Key::Char('*')));
    assert_eq!(keypad.key_at(4, 4), Some(Key::Char('K')));
    assert_eq!(MatrixKeypad::GPIO_5X5_HOOK_PIN, 11);
}

#[test]
fn keypad_reports_down_and_up_transitions_in_map_order() {
    let mut keypad = MatrixKeypad::gpio_4x4().with_hook();
    let events = keypad.update_active_keys(&[Key::Char('2'), Key::Char('1'), Key::Hook]);
    assert_eq!(events.len(), 3);
    assert_eq!(events[0].key, Key::Char('1'));
    assert_eq!(events[0].transition, KeyTransition::Down);
    assert_eq!(events[1].key, Key::Char('2'));
    assert_eq!(events[1].transition, KeyTransition::Down);
    assert_eq!(events[2].key, Key::Hook);
    assert!(keypad.is_down(Key::Hook));

    let events = keypad.update_active_keys(&[Key::Char('2')]);
    assert_eq!(events.len(), 2);
    assert_eq!(events[0].key, Key::Char('1'));
    assert_eq!(events[0].transition, KeyTransition::Up);
    assert_eq!(events[1].key, Key::Hook);
    assert_eq!(events[1].transition, KeyTransition::Up);
}

#[test]
fn keypad_scan_maps_active_rows_and_columns_to_events() {
    let mut keypad = MatrixKeypad::gpio_4x4();

    let events = keypad.scan_matrix_at(|row, col| (row, col) == (1, 2), None, 1_000);

    assert_eq!(events.len(), 1);
    assert_eq!(events[0].key, Key::Char('6'));
    assert_eq!(events[0].transition, KeyTransition::Down);
    assert!(keypad.is_down(Key::Char('6')));

    let events = keypad.scan_matrix_at(|_, _| false, None, 1_020);

    assert_eq!(events.len(), 1);
    assert_eq!(events[0].key, Key::Char('6'));
    assert_eq!(events[0].transition, KeyTransition::Up);
}

#[test]
fn keypad_scan_keeps_hook_active_during_debounce_window() {
    let mut keypad = MatrixKeypad::gpio_4x4().with_hook();

    let events = keypad.scan_matrix_at(|_, _| false, Some(true), 1_000);
    assert_eq!(events.len(), 1);
    assert_eq!(events[0].key, Key::Hook);
    assert_eq!(events[0].transition, KeyTransition::Down);

    let events = keypad.scan_matrix_at(|_, _| false, Some(false), 1_100);
    assert!(events.is_empty());
    assert!(keypad.is_down(Key::Hook));

    let events = keypad.scan_matrix_at(|_, _| false, Some(false), 1_151);
    assert_eq!(events.len(), 1);
    assert_eq!(events[0].key, Key::Hook);
    assert_eq!(events[0].transition, KeyTransition::Up);
}

#[test]
fn keypad_scanner_polls_backend_into_key_events() {
    let mut scanner = MatrixKeypadScanner::new(
        MatrixKeypad::gpio_4x4(),
        FakeKeypadBackend::with_active([(2, 1)]),
    );

    let events = scanner.poll_at(500);

    assert_eq!(events.len(), 1);
    assert_eq!(events[0].key, Key::Char('8'));
    assert_eq!(events[0].transition, KeyTransition::Down);
    assert_eq!(scanner.backend().reads.len(), 16);

    scanner.backend_mut().active.clear();
    let events = scanner.poll_at(520);

    assert_eq!(events.len(), 1);
    assert_eq!(events[0].key, Key::Char('8'));
    assert_eq!(events[0].transition, KeyTransition::Up);
}

#[test]
fn keypad_scanner_reads_hook_state_from_backend() {
    let mut scanner = MatrixKeypadScanner::new(
        MatrixKeypad::gpio_4x4().with_hook(),
        FakeKeypadBackend {
            hook_on: Some(true),
            ..FakeKeypadBackend::default()
        },
    );

    let events = scanner.poll_at(1_000);

    assert_eq!(events.len(), 1);
    assert_eq!(events[0].key, Key::Hook);
    assert_eq!(events[0].transition, KeyTransition::Down);

    scanner.backend_mut().hook_on = Some(false);
    let events = scanner.poll_at(1_200);

    assert_eq!(events.len(), 1);
    assert_eq!(events[0].key, Key::Hook);
    assert_eq!(events[0].transition, KeyTransition::Up);
}

#[test]
fn keypad_ignores_scans_with_too_many_active_keys() {
    let mut keypad = MatrixKeypad::gpio_5x5();
    let events = keypad.update_active_keys(&[
        Key::Char('1'),
        Key::Char('2'),
        Key::Char('3'),
        Key::Char('A'),
        Key::Char('B'),
    ]);
    assert!(events.is_empty());
    assert!(keypad.is_up(Key::Char('1')));
}

#[test]
fn lcd1602_buffer_print_clear_sleep_and_wake_match_driver_shape() {
    let mut lcd = Lcd1602Buffer::new();
    lcd.print("Telephone Ready", 0, 0);
    lcd.print("42", 14, 1);
    assert_eq!(lcd.row(0), Some("Telephone Ready "));
    assert_eq!(lcd.row(1), Some("              42"));

    lcd.sleep();
    assert!(lcd.is_sleeping());
    assert_eq!(lcd.row(0), Some("                "));

    lcd.print("Wake", 0, 0);
    assert!(!lcd.is_sleeping());
    assert_eq!(lcd.row(0), Some("Wake            "));

    lcd.clear();
    assert_eq!(lcd.row(0), Some("                "));
    assert_eq!(lcd.row(1), Some("                "));
}

#[test]
fn lcd1602_buffer_implements_display_backend_contract() {
    let mut display: Box<dyn Lcd1602Display> = Box::new(Lcd1602Buffer::new());

    display.print("Ready", 0, 0);
    display.sleep();
    assert!(display.is_sleeping());
    display.wake();
    assert!(!display.is_sleeping());
    display.clear();
}

#[test]
fn buffered_lcd1602_exposes_buffered_backend_for_tests_and_platform_adapters() {
    let mut display = BufferedLcd1602::new();

    drive_ready_display(&mut display);

    assert_eq!(display.buffer().row(0), Some("Telephone Ready "));
    assert_eq!(display.buffer().row(1), Some("                "));

    display.sleep();
    assert!(display.is_sleeping());
    assert!(display.buffer().is_sleeping());

    display.print("Wake", 0, 0);
    assert_eq!(display.buffer().row(0), Some("Wake            "));
    assert!(!display.is_sleeping());
}

fn drive_ready_display(display: &mut dyn Lcd1602Display) {
    display.clear();
    display.print("Telephone Ready", 0, 0);
    display.print("", 0, 1);
}

#[derive(Debug, Default)]
struct FakeKeypadBackend {
    active: Vec<(usize, usize)>,
    hook_on: Option<bool>,
    reads: Vec<(usize, usize)>,
}

impl FakeKeypadBackend {
    fn with_active(active: impl IntoIterator<Item = (usize, usize)>) -> Self {
        Self {
            active: active.into_iter().collect(),
            hook_on: None,
            reads: Vec::new(),
        }
    }
}

impl MatrixKeypadBackend for FakeKeypadBackend {
    fn read_col(&mut self, row: usize, col: usize) -> bool {
        self.reads.push((row, col));
        self.active.contains(&(row, col))
    }

    fn hook_on(&mut self) -> Option<bool> {
        self.hook_on
    }
}

#[test]
fn settled_keys_bring_no_events() {
    let mut keypad = MatrixKeypad::gpio_4x4();
    let active = [Key::Char('5'), Key::Char('9')];
    assert_eq!(keypad.update_active_keys(&active).len(), 2);
    assert!(keypad.update_active_keys(&active).is_empty());
    assert!(keypad.is_down(Key::Char('5')));
    assert!(keypad.is_up(Key::Char('1')));
}

#[test]
fn keys_without_a_place_are_not_reported() {
    let mut keypad = MatrixKeypad::new(1, 2, &['x', 'y']);
    assert_eq!(keypad.key_at(0, 1), Some(Key::Char('y')));
    assert_eq!(keypad.key_at(1, 0), None);
    assert_eq!(keypad.key_at(0, 2), None);
    let events = keypad.update_active_keys(&[Key::Char('z'), Key::Hook, Key::Char('y')]);
    assert_eq!(
        events,
        vec![KeypadEvent {
            key: Key::Char('y'),
            transition: KeyTransition::Down
        }]
    );
}

#[test]
fn readings_of_a_matrix_become_events() {
    let mut keypad = MatrixKeypad::new(2, 2, &['a', 'b', 'c', 'd']);
    let events = keypad.apply_readings(&[false, true, false, true], None, 0);
    assert_eq!(events.len(), 2);
    assert_eq!(events[0].key, Key::Char('b'));
    assert_eq!(events[1].key, Key::Char('d'));
}

#[test]
fn text_beside_the_display_is_not_shown() {
    let mut lcd = Lcd1602Buffer::new();
    lcd.print("nowhere", 0, 2);
    assert_eq!(lcd.row(0), Some("                "));
    assert_eq!(lcd.row(2), None);
    lcd.print("0123456789abcdefgh", 3, 0);
    assert_eq!(lcd.row(0), Some("   0123456789abc"));
}

#[derive(Debug, Default)]
struct FakeBus {
    bytes: Vec<u8>,
    waits: usize,
    fails: bool,
}

impl Lcd1602Bus for FakeBus {
    type Error = String;

    fn write_byte(&mut self, byte: u8) -> Result<(), String> {
        if self.fails {
            return Err("bus is gone".to_string());
        }
        self.bytes.push(byte);
        Ok(())
    }

    fn wait_pulse(&mut self) {
        self.waits += 1;
    }

    fn error_message(error: &String) -> String {
        error.clone()
    }
}

fn sent_values(bytes: &[u8]) -> Vec<(u8, bool)> {
    let nibbles: Vec<u8> = bytes
        .iter()
        .filter(|byte| **byte & 0x04 != 0)
        .copied()
        .collect();
    nibbles
        .chunks(2)
        .map(|pair| ((pair[0] & 0xf0) | (pair[1] >> 4), pair[0] & 0x01 != 0))
        .collect()
}

#[test]
fn display_on_a_bus_is_set_up_and_written_to() {
    let mut display = I2cLcd1602::new(FakeBus::default()).unwrap();
    let commands: Vec<u8> = sent_values(&display.bus().bytes)
        .iter()
        .map(|value| value.0)
        .collect();
    assert_eq!(&commands[..2], &[0x33, 0x32]);
    assert!(display.bus().waits > 0);

    display.bus_mut().bytes.clear();
    display.try_print("Hi", 2, 1).unwrap();
    let sent = sent_values(&display.bus().bytes);
    assert_eq!(sent[0], (0xc0 + 2, false));
    assert_eq!(sent[1], (b'H', true));
    assert_eq!(sent[2], (b'i', true));
    assert!(display.last_error().is_none());
}

#[test]
fn display_on_a_failing_bus_keeps_the_error() {
    assert_eq!(
        I2cLcd1602::new(FakeBus {
            fails: true,
            ..FakeBus::default()
        })
        .unwrap_err(),
        "bus is gone"
    );
    let mut display = I2cLcd1602::new(FakeBus::default()).unwrap();
    display.bus_mut().fails = true;
    display.print("Hi", 0, 0);
    assert_eq!(display.last_error(), Some("bus is gone"));
}

#[test]
fn a_line_on_a_bus_has_sixteen_characters() {
    let mut display = I2cLcd1602::new(FakeBus::default()).unwrap();
    assert_eq!(display.bus().bytes.len(), 20);
    let set_up = display.bus().bytes.clone();
    display.bus_mut().bytes.clear();

    assert_eq!(display.try_print("A", 3, 1), Ok(()));
    let mut expected = vec![0xCC, 0xC8, 0x3C, 0x38, 0x4D, 0x49, 0x1D, 0x19];
    for _ in 0..15 {
        expected.extend([0x2D, 0x29, 0x0D, 0x09]);
    }
    assert_eq!(display.bus().bytes, expected);

    display.bus_mut().bytes.clear();
    assert_eq!(display.try_sleep(), Ok(()));
    assert_eq!(display.bus().bytes, [0x04, 0x00, 0x14, 0x10]);
    assert!(display.is_sleeping());

    display.bus_mut().bytes.clear();
    assert_eq!(display.try_wake(), Ok(()));
    assert_eq!(display.bus().bytes, set_up);
    assert!(!display.is_sleeping());
}

#[test]
fn the_last_error_is_that_of_the_last_call() {
    let mut display = I2cLcd1602::new(FakeBus::default()).unwrap();
    display.bus_mut().fails = true;
    assert_eq!(display.try_clear(), Err("bus is gone".to_string()));
    assert_eq!(display.last_error(), None);
    display.sleep();
    assert_eq!(display.last_error(), Some("bus is gone"));
    display.bus_mut().fails = false;
    display.clear();
    assert_eq!(display.last_error(), None);
    assert!(!display.is_sleeping());
}

#[test]
fn a_hook_that_is_let_go_is_told_once_and_last() {
    let mut keypad = MatrixKeypad::gpio_4x4().with_hook();
    let events = keypad.scan_matrix_at(|row, col| row == 0 && col == 0, Some(true), 1_000);
    assert_eq!(
        events,
        vec![
            KeypadEvent {
                key: Key::Char('1'),
                transition: KeyTransition::Down
            },
            KeypadEvent {
                key: Key::Hook,
                transition: KeyTransition::Down
            },
        ]
    );
    let pressed = |row: usize, col: usize| row == 0 && col < 3;
    let events = keypad.scan_matrix_at(pressed, Some(false), 1_149);
    assert_eq!(events.len(), 2);
    assert!(events.iter().all(|event| event.key != Key::Hook));
    assert!(keypad.is_down(Key::Hook));
    let events = keypad.scan_matrix_at(|_, _| false, Some(false), 1_150);
    assert_eq!(events.len(), 4);
    assert!(events[..3].iter().all(|event| event.key != Key::Hook));
    assert_eq!(
        events[3],
        KeypadEvent {
            key: Key::Hook,
            transition: KeyTransition::Up
        }
    );
    assert!(keypad.is_up(Key::Hook));
    assert!(keypad.scan_matrix_at(|_, _| false, Some(false), 2_000).is_empty());
}

#[test]
fn keypads_are_equal_by_keys_and_state() {
    let keypad = MatrixKeypad::gpio_4x4();
    assert_eq!(keypad, keypad.clone());
    assert_ne!(keypad, MatrixKeypad::gpio_4x4().with_hook());
    assert_ne!(keypad, MatrixKeypad::gpio_5x5());
    assert_ne!(MatrixKeypad::new(2, 1, &['a', 'b']), MatrixKeypad::new(1, 2, &['a', 'b']));
    let mut left = MatrixKeypad::gpio_4x4();
    let mut right = MatrixKeypad::gpio_4x4();
    left.update_active_keys(&[Key::Char('1'), Key::Char('2')]);
    assert_ne!(left, right);
    right.update_active_keys(&[Key::Char('2'), Key::Char('1')]);
    assert_eq!(left, right);
    left.scan_matrix_at(|_, _| false, Some(true), 5);
    right.scan_matrix_at(|_, _| false, None, 5);
    assert_ne!(left, right);
}

#[test]
fn displays_can_be_copied() {
    let mut lcd = BufferedLcd1602::default();
    assert_eq!(lcd, BufferedLcd1602::new());
    lcd.print("Hello", 0, 0);
    let copy = lcd.clone();
    assert_eq!(copy.buffer(), lcd.buffer());
    lcd.sleep();
    assert!(!copy.is_sleeping());
    assert_ne!(copy, lcd);
}
