//! The settings of the telephone program.
use crate::hash_text::{parse_hash_chars, pretty_hash};
use crate::identity::{same_identity, IdentityHash, IdentitySet};
use crate::keypad::MatrixKeypad;
use crate::scan::{
    find_from, lower_text, only_digits, part_of, same_ignoring_case, split_at_each, split_list,
    trim,
};
use crate::std_text::{lowercase, parse_u8};
use crate::telephony::CallerPolicy;
use crate::text::{char_at, chars_of, decimal, same_text, text_of};
use vstd::prelude::*;

verus! {

/// An entry of the phonebook.
#[derive(Debug)]
pub struct PhonebookEntry {
    pub name: String,
    pub identity_hash: IdentityHash,
    pub alias: Option<String>,
}

/// An entry of the phonebook as a mathematical value.
#[verifier::ext_equal]
pub struct EntryModel {
    pub name: Seq<char>,
    pub identity: Seq<u8>,
    pub alias: Option<Seq<char>>,
}

/// Text that may be missing, as a mathematical value.
pub open spec fn text_view(text: Option<String>) -> Option<Seq<char>> {
    match text {
        Some(text) => Some(text@),
        None => None,
    }
}

impl View for PhonebookEntry {
    type V = EntryModel;

    open spec fn view(&self) -> EntryModel {
        EntryModel {
            name: self.name@,
            identity: self.identity_hash@,
            alias: text_view(self.alias),
        }
    }
}

/// Entries as mathematical values.
pub open spec fn entry_models(entries: Seq<PhonebookEntry>) -> Seq<EntryModel> {
    entries.map_values(|entry: PhonebookEntry| entry@)
}

/// The devices that sound is played on and recorded with.
#[derive(Debug, PartialEq, Eq)]
pub struct AudioDeviceConfig {
    pub speaker: Option<String>,
    pub microphone: Option<String>,
    pub ringer: Option<String>,
}

/// The devices as mathematical values.
#[verifier::ext_equal]
pub struct DevicesModel {
    pub speaker: Option<Seq<char>>,
    pub microphone: Option<Seq<char>>,
    pub ringer: Option<Seq<char>>,
}

impl View for AudioDeviceConfig {
    type V = DevicesModel;

    open spec fn view(&self) -> DevicesModel {
        DevicesModel {
            speaker: text_view(self.speaker),
            microphone: text_view(self.microphone),
            ringer: text_view(self.ringer),
        }
    }
}

impl Default for AudioDeviceConfig {
    fn default() -> (devices: Self)
        ensures
            devices@ == (DevicesModel { speaker: None, microphone: None, ringer: None }),
    {
        AudioDeviceConfig { speaker: None, microphone: None, ringer: None }
    }
}

/// The level of a pin.
#[derive(Debug, Clone, Copy, PartialEq, Eq, Structural)]
pub enum PinLevel {
    Low,
    High,
}

/// The hardware that is attached.
#[derive(Debug, PartialEq, Eq)]
pub struct HardwareConfig {
    pub keypad: Option<String>,
    pub display: Option<String>,
    pub keypad_hook_pin: Option<u8>,
    pub amp_mute_pin: Option<u8>,
    pub amp_mute_level: Option<PinLevel>,
}

/// The hardware as a mathematical value.
#[verifier::ext_equal]
pub struct HardwareModel {
    pub keypad: Option<Seq<char>>,
    pub display: Option<Seq<char>>,
    pub keypad_hook_pin: Option<u8>,
    pub amp_mute_pin: Option<u8>,
    pub amp_mute_level: Option<PinLevel>,
}

impl View for HardwareConfig {
    type V = HardwareModel;

    open spec fn view(&self) -> HardwareModel {
        HardwareModel {
            keypad: text_view(self.keypad),
            display: text_view(self.display),
            keypad_hook_pin: self.keypad_hook_pin,
            amp_mute_pin: self.amp_mute_pin,
            amp_mute_level: self.amp_mute_level,
        }
    }
}

impl Default for HardwareConfig {
    fn default() -> (hardware: Self)
        ensures
            hardware@ == HardwareModel::none(),
    {
        HardwareConfig {
            keypad: None,
            display: None,
            keypad_hook_pin: None,
            amp_mute_pin: None,
            amp_mute_level: None,
        }
    }
}

impl HardwareModel {
    /// No hardware.
    pub open spec fn none() -> HardwareModel {
        HardwareModel {
            keypad: None,
            display: None,
            keypad_hook_pin: None,
            amp_mute_pin: None,
            amp_mute_level: None,
        }
    }

    /// Why the keypad cannot be used, if it cannot.
    pub open spec fn keypad_error(self) -> Option<Seq<char>> {
        match self.keypad {
            Some(driver) => if driver == "gpio_4x4"@ || driver == "gpio_5x5"@ {
                None
            } else {
                Some("unknown keypad driver "@ + driver)
            },
            None => None,
        }
    }

    /// The keypad, where there is one that can be used.
    pub open spec fn keypad_model(self) -> Option<crate::keypad::KeypadModel> {
        match self.keypad {
            Some(driver) => {
                let bare = if driver == "gpio_4x4"@ {
                    crate::keypad::KeypadModel::fresh(4, 4, crate::keypad::keys_4x4())
                } else {
                    crate::keypad::KeypadModel::fresh(5, 5, crate::keypad::keys_5x5())
                };
                Some(
                    if self.keypad_hook_pin is Some {
                        bare.hooked()
                    } else {
                        bare
                    },
                )
            },
            None => None,
        }
    }

    /// Why the display cannot be used, if it cannot.
    pub open spec fn display_error(self) -> Option<Seq<char>> {
        match self.display {
            Some(driver) => if driver == "i2c_lcd1602"@ {
                None
            } else {
                Some("unknown display driver "@ + driver)
            },
            None => None,
        }
    }
}

impl HardwareConfig {
    /// Whether all of the hardware can be used.
    pub fn validate(&self) -> (valid: Result<(), String>)
        ensures
            match valid {
                Ok(_) => self@.keypad_error() is None && self@.display_error() is None,
                Err(error) => if self@.keypad_error() is Some {
                    self@.keypad_error() == Some(error@)
                } else {
                    self@.display_error() == Some(error@)
                },
            },
    {
        match self.keypad_matrix() {
            Ok(_) => {},
            Err(error) => return Err(error),
        }
        match self.display_enabled() {
            Ok(_) => Ok(()),
            Err(error) => Err(error),
        }
    }

    /// The keypad, with a hook where it has a pin.
    pub fn keypad_matrix(&self) -> (keypad: Result<Option<MatrixKeypad>, String>)
        ensures
            match keypad {
                Ok(Some(keypad)) => {
                    &&& self@.keypad_error() is None
                    &&& keypad.wf()
                    &&& self@.keypad_model() == Some(keypad@)
                },
                Ok(None) => self@.keypad is None,
                Err(error) => self@.keypad_error() == Some(error@),
            },
    {
        let driver = match &self.keypad {
            Some(driver) => driver,
            None => return Ok(None),
        };
        let small = same_text(driver.as_str(), "gpio_4x4");
        let keypad = if small {
            MatrixKeypad::gpio_4x4()
        } else if same_text(driver.as_str(), "gpio_5x5") {
            MatrixKeypad::gpio_5x5()
        } else {
            return Err("unknown keypad driver ".to_owned().concat(driver.as_str()));
        };
        if self.keypad_hook_pin.is_some() {
            Ok(Some(keypad.with_hook()))
        } else {
            Ok(Some(keypad))
        }
    }

    /// The pins of the keypad: those of its rows and those of its columns.
    pub fn keypad_pins(&self) -> (pins: Result<Option<(Vec<u8>, Vec<u8>)>, String>)
        ensures
            match pins {
                Ok(Some((rows, cols))) => {
                    &&& self@.keypad is Some && self@.keypad_error() is None
                    &&& if self@.keypad->0 == "gpio_4x4"@ {
                        rows@ == seq![21u8, 20u8, 16u8, 12u8] && cols@ == seq![26u8, 19u8, 13u8, 6u8]
                    } else {
                        rows@ == seq![21u8, 20u8, 16u8, 12u8, 7u8] && cols@ == seq![
                            26u8,
                            19u8,
                            13u8,
                            6u8,
                            5u8,
                        ]
                    }
                },
                Ok(None) => self@.keypad is None,
                Err(error) => self@.keypad_error() == Some(error@),
            },
    {
        let driver = match &self.keypad {
            Some(driver) => driver,
            None => return Ok(None),
        };
        if same_text(driver.as_str(), "gpio_4x4") {
            let rows = vec![21u8, 20u8, 16u8, 12u8];
            let cols = vec![26u8, 19u8, 13u8, 6u8];
            assert(rows@ =~= seq![21u8, 20u8, 16u8, 12u8]);
            assert(cols@ =~= seq![26u8, 19u8, 13u8, 6u8]);
            Ok(Some((rows, cols)))
        } else if same_text(driver.as_str(), "gpio_5x5") {
            let rows = vec![21u8, 20u8, 16u8, 12u8, 7u8];
            let cols = vec![26u8, 19u8, 13u8, 6u8, 5u8];
            assert(rows@ =~= seq![21u8, 20u8, 16u8, 12u8, 7u8]);
            assert(cols@ =~= seq![26u8, 19u8, 13u8, 6u8, 5u8]);
            Ok(Some((rows, cols)))
        } else {
            Err("unknown keypad driver ".to_owned().concat(driver.as_str()))
        }
    }

    /// Whether there is a display.
    pub fn display_enabled(&self) -> (enabled: Result<bool, String>)
        ensures
            match enabled {
                Ok(enabled) => self@.display_error() is None && enabled == (
                self@.display is Some),
                Err(error) => self@.display_error() == Some(error@),
            },
    {
        match &self.display {
            None => Ok(false),
            Some(driver) => if same_text(driver.as_str(), "i2c_lcd1602") {
                Ok(true)
            } else {
                Err("unknown display driver ".to_owned().concat(driver.as_str()))
            },
        }
    }
}

/// Who may call, as a mathematical value.
#[verifier::ext_equal]
pub enum PolicyModel {
    All,
    Nobody,
    List(Set<Seq<u8>>),
}

/// Who may call, as a mathematical value.
pub open spec fn policy_model(policy: CallerPolicy) -> PolicyModel {
    match policy {
        CallerPolicy::All => PolicyModel::All,
        CallerPolicy::Nobody => PolicyModel::Nobody,
        CallerPolicy::List(allowed) => PolicyModel::List(allowed@),
    }
}

/// Whether the set of a policy is in order.
pub open spec fn policy_wf(policy: CallerPolicy) -> bool {
    policy matches CallerPolicy::List(allowed) ==> allowed.wf()
}

/// The settings as a mathematical value.
#[verifier::ext_equal]
pub struct ConfigModel {
    /// The phonebook, in the order of the settings.
    pub phonebook: Seq<EntryModel>,
    pub allowed: PolicyModel,
    /// Whether those in the phonebook may call, and no others.
    pub allow_phonebook: bool,
    pub blocked: Set<Seq<u8>>,
    pub devices: DevicesModel,
    pub hardware: HardwareModel,
    pub ringtone: Option<Seq<char>>,
}

/// What is said of text that is no identity hash.
pub open spec fn bad_hash(text: Seq<char>) -> Seq<char> {
    "invalid identity hash "@ + text
}

/// A set with the hashes of a list more, or what is said of the first item that is none.
pub open spec fn with_hashes(set: Set<Seq<u8>>, items: Seq<Seq<char>>) -> Result<
    Set<Seq<u8>>,
    Seq<char>,
>
    decreases items.len(),
{
    if items.len() == 0 {
        Ok(set)
    } else if !crate::hash_text::is_hash_text(items[0]) {
        Err(bad_hash(items[0]))
    } else {
        with_hashes(set.insert(crate::hash_text::hex_bytes(items[0])), items.skip(1))
    }
}

/// Who may call by a setting, or what is said of a setting that is none.
pub open spec fn policy_of(value: Seq<char>) -> Result<PolicyModel, Seq<char>> {
    if crate::scan::lowered(value) == "all"@ {
        Ok(PolicyModel::All)
    } else if crate::scan::lowered(value) == "none"@ {
        Ok(PolicyModel::Nobody)
    } else {
        match with_hashes(Set::empty(), crate::scan::list_items(value)) {
            Ok(set) => Ok(PolicyModel::List(set)),
            Err(error) => Err(error),
        }
    }
}

/// A setting that may be left empty.
pub open spec fn text_setting(value: Seq<char>) -> Option<Seq<char>> {
    if crate::scan::trimmed(value).len() == 0 {
        None
    } else {
        Some(crate::scan::trimmed(value))
    }
}

/// The number of a pin, or what is said of a setting that is none.
pub open spec fn pin_setting(value: Seq<char>) -> Result<Option<u8>, Seq<char>> {
    let text = crate::scan::trimmed(value);
    if text.len() == 0 {
        Ok(None)
    } else {
        match crate::std_text::u8_of(text) {
            Some(pin) => Ok(Some(pin)),
            None => Err(
                "invalid pin value "@ + text + ": "@ + crate::std_text::parse_u8_failure(text),
            ),
        }
    }
}

/// The level of a pin, or what is said of a setting that is none.
pub open spec fn level_setting(value: Seq<char>) -> Result<Option<PinLevel>, Seq<char>> {
    let text = crate::scan::lowered(crate::scan::trimmed(value));
    if text.len() == 0 {
        Ok(None)
    } else if text == "low"@ || text == "0"@ {
        Ok(Some(PinLevel::Low))
    } else if text == "high"@ || text == "1"@ {
        Ok(Some(PinLevel::High))
    } else {
        Err("invalid pin level "@ + text)
    }
}

/// The alias that a setting gives: its digits, where there are any.
pub open spec fn alias_of(items: Seq<Seq<char>>) -> Option<Seq<char>> {
    if items.len() < 2 || crate::scan::digits_of(items[1]).len() == 0 {
        None
    } else {
        Some(crate::scan::digits_of(items[1]))
    }
}

/// The phonebook with an entry: in the place of one with the same name, or at the end.
pub open spec fn with_entry(phonebook: Seq<EntryModel>, entry: EntryModel) -> Seq<EntryModel>
    decreases phonebook.len(),
{
    if phonebook.len() == 0 {
        seq![entry]
    } else if phonebook[0].name == entry.name {
        seq![entry] + phonebook.skip(1)
    } else {
        seq![phonebook[0]] + with_entry(phonebook.skip(1), entry)
    }
}

/// The identities of the phonebook.
pub open spec fn identities(phonebook: Seq<EntryModel>) -> Set<Seq<u8>>
    decreases phonebook.len(),
{
    if phonebook.len() == 0 {
        Set::empty()
    } else {
        identities(phonebook.drop_last()).insert(phonebook.last().identity)
    }
}

/// The phonebook without an identity.
pub open spec fn without(phonebook: Seq<EntryModel>, own: Seq<u8>) -> Seq<EntryModel>
    decreases phonebook.len(),
{
    if phonebook.len() == 0 {
        Seq::empty()
    } else if phonebook.last().identity == own {
        without(phonebook.drop_last(), own)
    } else {
        without(phonebook.drop_last(), own).push(phonebook.last())
    }
}

impl ConfigModel {
    /// The settings where nothing is set.
    pub open spec fn fresh() -> ConfigModel {
        ConfigModel {
            phonebook: Seq::empty(),
            allowed: PolicyModel::All,
            allow_phonebook: false,
            blocked: Set::empty(),
            devices: DevicesModel { speaker: None, microphone: None, ringer: None },
            hardware: HardwareModel::none(),
            ringtone: None,
        }
    }

    /// The settings with one of the section on the telephone, or what is said of it.
    pub open spec fn with_telephone(self, key: Seq<char>, value: Seq<char>) -> Result<
        ConfigModel,
        Seq<char>,
    > {
        if key == "allowed_callers"@ {
            if crate::scan::alike(value, "phonebook"@) {
                Ok(
                    ConfigModel {
                        allow_phonebook: true,
                        allowed: PolicyModel::List(Set::empty()),
                        ..self
                    },
                )
            } else {
                match policy_of(value) {
                    Ok(allowed) => Ok(ConfigModel { allowed, ..self }),
                    Err(error) => Err(error),
                }
            }
        } else if key == "blocked_callers"@ {
            match with_hashes(self.blocked, crate::scan::list_items(value)) {
                Ok(blocked) => Ok(ConfigModel { blocked, ..self }),
                Err(error) => Err(error),
            }
        } else if key == "ringtone"@ {
            Ok(ConfigModel { ringtone: text_setting(value), ..self })
        } else if key == "speaker"@ {
            Ok(
                ConfigModel {
                    devices: DevicesModel { speaker: text_setting(value), ..self.devices },
                    ..self
                },
            )
        } else if key == "microphone"@ {
            Ok(
                ConfigModel {
                    devices: DevicesModel { microphone: text_setting(value), ..self.devices },
                    ..self
                },
            )
        } else if key == "ringer"@ {
            Ok(
                ConfigModel {
                    devices: DevicesModel { ringer: text_setting(value), ..self.devices },
                    ..self
                },
            )
        } else {
            Ok(self)
        }
    }

    /// The settings with one of the section on hardware, or what is said of it.
    pub open spec fn with_hardware(self, key: Seq<char>, value: Seq<char>) -> Result<
        ConfigModel,
        Seq<char>,
    > {
        if key == "keypad"@ {
            Ok(
                ConfigModel {
                    hardware: HardwareModel { keypad: text_setting(value), ..self.hardware },
                    ..self
                },
            )
        } else if key == "display"@ {
            Ok(
                ConfigModel {
                    hardware: HardwareModel { display: text_setting(value), ..self.hardware },
                    ..self
                },
            )
        } else if key == "keypad_hook_pin"@ {
            match pin_setting(value) {
                Ok(keypad_hook_pin) => Ok(
                    ConfigModel {
                        hardware: HardwareModel { keypad_hook_pin, ..self.hardware },
                        ..self
                    },
                ),
                Err(error) => Err(error),
            }
        } else if key == "amp_mute_pin"@ {
            match pin_setting(value) {
                Ok(amp_mute_pin) => Ok(
                    ConfigModel {
                        hardware: HardwareModel { amp_mute_pin, ..self.hardware },
                        ..self
                    },
                ),
                Err(error) => Err(error),
            }
        } else if key == "amp_mute_level"@ {
            match level_setting(value) {
                Ok(amp_mute_level) => Ok(
                    ConfigModel {
                        hardware: HardwareModel { amp_mute_level, ..self.hardware },
                        ..self
                    },
                ),
                Err(error) => Err(error),
            }
        } else {
            Ok(self)
        }
    }

    /// The settings with an entry of the phonebook, or what is said of it.
    pub open spec fn with_phonebook(self, name: Seq<char>, value: Seq<char>) -> Result<
        ConfigModel,
        Seq<char>,
    > {
        let items = crate::scan::list_items(value);
        if items.len() == 0 {
            Ok(self)
        } else if !crate::hash_text::is_hash_text(items[0]) {
            Err(bad_hash(items[0]))
        } else {
            Ok(
                ConfigModel {
                    phonebook: with_entry(
                        self.phonebook,
                        EntryModel {
                            name,
                            identity: crate::hash_text::hex_bytes(items[0]),
                            alias: alias_of(items),
                        },
                    ),
                    ..self
                },
            )
        }
    }

    /// The settings with one of a section, or what is said of it.
    pub open spec fn with_setting(
        self,
        section: Seq<char>,
        key: Seq<char>,
        value: Seq<char>,
    ) -> Result<ConfigModel, Seq<char>> {
        if section == "telephone"@ {
            self.with_telephone(key, value)
        } else if section == "hardware"@ {
            self.with_hardware(key, value)
        } else if section == "phonebook"@ {
            self.with_phonebook(key, value)
        } else {
            Ok(self)
        }
    }

    /// The settings with who may call taken from the phonebook, where that is set.
    pub open spec fn with_phonebook_callers(self) -> ConfigModel {
        if self.allow_phonebook {
            ConfigModel { allowed: PolicyModel::List(identities(self.phonebook)), ..self }
        } else {
            self
        }
    }

    /// The settings without this telephone's own identity: nobody calls themselves.
    pub open spec fn finalized(self, own: Seq<u8>) -> ConfigModel {
        let phonebook = without(self.phonebook, own);
        ConfigModel {
            phonebook,
            blocked: self.blocked.remove(own),
            allowed: match self.allowed {
                PolicyModel::List(allowed) => PolicyModel::List(
                    if self.allow_phonebook {
                        identities(phonebook)
                    } else {
                        allowed.remove(own)
                    },
                ),
                other => other,
            },
            ..self
        }
    }
}

/// What a line says, behind which no comment stands and around which no white space.
pub open spec fn line_body(line: Seq<char>) -> Seq<char> {
    crate::scan::trimmed(line.take(crate::scan::place_of(line, '#') as int))
}

/// Whether a line names a section.
pub open spec fn names_section(body: Seq<char>) -> bool {
    body.len() > 0 && body[0] == '[' && body.last() == ']'
}

/// What a reader of the settings knows: the section and the settings so far.
pub struct ReaderModel {
    pub section: Seq<char>,
    pub config: ConfigModel,
}

impl ReaderModel {
    /// A reader that has read a line more, or what is said of the line.
    pub open spec fn with_line(self, line: Seq<char>) -> Result<ReaderModel, Seq<char>> {
        let body = line_body(line);
        let place = crate::scan::place_of(body, '=') as int;
        if names_section(body) {
            Ok(
                ReaderModel {
                    section: crate::std_text::lowercase_text(
                        crate::scan::trimmed(body.subrange(1, body.len() - 1)),
                    ),
                    ..self
                },
            )
        } else if place >= body.len() {
            Ok(self)
        } else {
            match self.config.with_setting(
                self.section,
                crate::scan::trimmed(body.take(place)),
                crate::scan::trimmed(body.skip(place + 1)),
            ) {
                Ok(config) => Ok(ReaderModel { config, ..self }),
                Err(error) => Err(error),
            }
        }
    }

    /// A reader that has read lines more, or what is said of the first line that is wrong.
    pub open spec fn with_lines(self, lines: Seq<Seq<char>>) -> Result<ReaderModel, Seq<char>>
        decreases lines.len(),
    {
        if lines.len() == 0 {
            Ok(self)
        } else {
            match self.with_line(lines[0]) {
                Ok(next) => next.with_lines(lines.skip(1)),
                Err(error) => Err(error),
            }
        }
    }
}

/// The settings that some text says, or what is said of the first line that is wrong.
pub open spec fn config_of(text: Seq<char>) -> Result<ConfigModel, Seq<char>> {
    match (ReaderModel { section: Seq::empty(), config: ConfigModel::fresh() }).with_lines(
        crate::scan::pieces(text, '\n'),
    ) {
        Ok(reader) => Ok(reader.config.with_phonebook_callers()),
        Err(error) => Err(error),
    }
}

/// The settings of the telephone program.
#[derive(Debug)]
pub struct RnphoneConfig {
    pub phonebook: Vec<PhonebookEntry>,
    pub allowed_callers: CallerPolicy,
    pub allow_phonebook_callers: bool,
    pub blocked_callers: IdentitySet,
    pub audio_devices: AudioDeviceConfig,
    pub hardware: HardwareConfig,
    pub ringtone_path: Option<String>,
}

impl View for RnphoneConfig {
    type V = ConfigModel;

    open spec fn view(&self) -> ConfigModel {
        ConfigModel {
            phonebook: entry_models(self.phonebook@),
            allowed: policy_model(self.allowed_callers),
            allow_phonebook: self.allow_phonebook_callers,
            blocked: self.blocked_callers@,
            devices: self.audio_devices@,
            hardware: self.hardware@,
            ringtone: text_view(self.ringtone_path),
        }
    }
}

impl Default for RnphoneConfig {
    fn default() -> (config: Self)
        ensures
            config.wf(),
            config@ == ConfigModel::fresh(),
    {
        let config = RnphoneConfig {
            phonebook: Vec::new(),
            allowed_callers: CallerPolicy::All,
            allow_phonebook_callers: false,
            blocked_callers: IdentitySet::new(),
            audio_devices: AudioDeviceConfig::default(),
            hardware: HardwareConfig::default(),
            ringtone_path: None,
        };
        assert(config@.phonebook =~= Seq::<EntryModel>::empty());
        config
    }
}

/// Adds the hashes of a list to a set.
fn insert_hashes(set: &mut IdentitySet, items: &[Vec<char>]) -> (inserted: Result<(), String>)
    requires
        old(set).wf(),
    ensures
        final(set).wf(),
        match inserted {
            Ok(_) => with_hashes(old(set)@, crate::scan::char_views(items@)) == Ok::<
                Set<Seq<u8>>,
                Seq<char>,
            >(final(set)@),
            Err(error) => with_hashes(old(set)@, crate::scan::char_views(items@)) == Err::<
                Set<Seq<u8>>,
                Seq<char>,
            >(error@),
        },
{
    let ghost all = crate::scan::char_views(items@);
    let mut i: usize = 0;
    assert(all.skip(0) =~= all);
    while i < items.len()
        invariant
            i <= items@.len(),
            all == crate::scan::char_views(items@),
            set.wf(),
            with_hashes(old(set)@, all) == with_hashes(set@, all.skip(i as int)),
        decreases items.len() - i,
    {
        assert(all.skip(i as int)[0] == items@[i as int]@);
        assert(all.skip(i as int).skip(1) =~= all.skip(i + 1));
        match parse_hash_chars(&items[i]) {
            Ok(hash) => {
                set.insert(hash);
            },
            Err(error) => return Err(error),
        }
        i += 1;
    }
    Ok(())
}

/// Reads who may call.
pub fn parse_allowed_callers(value: &[char]) -> (policy: Result<CallerPolicy, String>)
    ensures
        match policy {
            Ok(policy) => policy_wf(policy) && policy_of(value@) == Ok::<PolicyModel, Seq<char>>(
                policy_model(policy),
            ),
            Err(error) => policy_of(value@) == Err::<PolicyModel, Seq<char>>(error@),
        },
{
    let small = lower_text(value);
    if same_text(small.as_str(), "all") {
        return Ok(CallerPolicy::All);
    }
    if same_text(small.as_str(), "none") {
        return Ok(CallerPolicy::Nobody);
    }
    let items = split_list(value);
    let mut allowed = IdentitySet::new();
    match insert_hashes(&mut allowed, &items) {
        Ok(()) => Ok(CallerPolicy::List(allowed)),
        Err(error) => Err(error),
    }
}

/// Reads a setting that may be left empty.
pub fn non_empty_config_value(value: &[char]) -> (setting: Option<String>)
    ensures
        text_view(setting) == text_setting(value@),
{
    let text = trim(value);
    if text.len() == 0 {
        None
    } else {
        Some(text_of(&text))
    }
}

/// Reads the number of a pin.
pub fn parse_optional_u8(value: &[char]) -> (pin: Result<Option<u8>, String>)
    ensures
        match pin {
            Ok(pin) => pin_setting(value@) == Ok::<Option<u8>, Seq<char>>(pin),
            Err(error) => pin_setting(value@) == Err::<Option<u8>, Seq<char>>(error@),
        },
{
    let chars = trim(value);
    if chars.len() == 0 {
        return Ok(None);
    }
    let text = text_of(&chars);
    match parse_u8(text.as_str()) {
        Ok(pin) => Ok(Some(pin)),
        Err(error) => Err(
            "invalid pin value ".to_owned().concat(text.as_str()).concat(": ").concat(
                error.as_str(),
            ),
        ),
    }
}

/// Reads the level of a pin.
pub fn parse_pin_level(value: &[char]) -> (level: Result<Option<PinLevel>, String>)
    ensures
        match level {
            Ok(level) => level_setting(value@) == Ok::<Option<PinLevel>, Seq<char>>(level),
            Err(error) => level_setting(value@) == Err::<Option<PinLevel>, Seq<char>>(error@),
        },
{
    let trimmed = trim(value);
    let text = lower_text(&trimmed);
    if text.as_str().is_empty() {
        Ok(None)
    } else if same_text(text.as_str(), "low") || same_text(text.as_str(), "0") {
        Ok(Some(PinLevel::Low))
    } else if same_text(text.as_str(), "high") || same_text(text.as_str(), "1") {
        Ok(Some(PinLevel::High))
    } else {
        Err("invalid pin level ".to_owned().concat(text.as_str()))
    }
}

impl RnphoneConfig {
    /// What holds of all settings: the sets of hashes are in order.
    pub open spec fn wf(&self) -> bool {
        self.blocked_callers.wf() && policy_wf(self.allowed_callers)
    }

    fn set_telephone(&mut self, key: &str, value: &[char]) -> (done: Result<(), String>)
        requires
            old(self).wf(),
        ensures
            final(self).wf(),
            match done {
                Ok(_) => old(self)@.with_telephone(key@, value@) == Ok::<ConfigModel, Seq<char>>(
                    final(self)@,
                ),
                Err(error) => old(self)@.with_telephone(key@, value@) == Err::<
                    ConfigModel,
                    Seq<char>,
                >(error@),
            },
    {
        if same_text(key, "allowed_callers") {
            let word = chars_of("phonebook");
            if same_ignoring_case(value, &word) {
                self.allow_phonebook_callers = true;
                self.allowed_callers = CallerPolicy::List(IdentitySet::new());
            } else {
                self.allowed_callers = match parse_allowed_callers(value) {
                    Ok(policy) => policy,
                    Err(error) => return Err(error),
                };
            }
        } else if same_text(key, "blocked_callers") {
            let items = split_list(value);
            return insert_hashes(&mut self.blocked_callers, &items);
        } else if same_text(key, "ringtone") {
            self.ringtone_path = non_empty_config_value(value);
        } else if same_text(key, "speaker") {
            self.audio_devices.speaker = non_empty_config_value(value);
        } else if same_text(key, "microphone") {
            self.audio_devices.microphone = non_empty_config_value(value);
        } else if same_text(key, "ringer") {
            self.audio_devices.ringer = non_empty_config_value(value);
        }
        Ok(())
    }

    fn set_hardware(&mut self, key: &str, value: &[char]) -> (done: Result<(), String>)
        requires
            old(self).wf(),
        ensures
            final(self).wf(),
            match done {
                Ok(_) => old(self)@.with_hardware(key@, value@) == Ok::<ConfigModel, Seq<char>>(
                    final(self)@,
                ),
                Err(error) => old(self)@.with_hardware(key@, value@) == Err::<
                    ConfigModel,
                    Seq<char>,
                >(error@),
            },
    {
        if same_text(key, "keypad") {
            self.hardware.keypad = non_empty_config_value(value);
        } else if same_text(key, "display") {
            self.hardware.display = non_empty_config_value(value);
        } else if same_text(key, "keypad_hook_pin") {
            self.hardware.keypad_hook_pin = match parse_optional_u8(value) {
                Ok(pin) => pin,
                Err(error) => return Err(error),
            };
        } else if same_text(key, "amp_mute_pin") {
            self.hardware.amp_mute_pin = match parse_optional_u8(value) {
                Ok(pin) => pin,
                Err(error) => return Err(error),
            };
        } else if same_text(key, "amp_mute_level") {
            self.hardware.amp_mute_level = match parse_pin_level(value) {
                Ok(level) => level,
                Err(error) => return Err(error),
            };
        }
        Ok(())
    }

    fn put_entry(&mut self, entry: PhonebookEntry)
        requires
            old(self).wf(),
        ensures
            final(self).wf(),
            final(self)@ == (ConfigModel {
                phonebook: with_entry(old(self)@.phonebook, entry@),
                ..old(self)@
            }),
    {
        let ghost all = self@.phonebook;
        let ghost model = entry@;
        let mut i: usize = 0;
        proof {
            assert(all.skip(0) =~= all);
            assert(all.take(0) + with_entry(all, model) =~= with_entry(all, model));
        }
        while i < self.phonebook.len()
            invariant
                i <= self.phonebook@.len(),
                *self == *old(self),
                self.wf(),
                all == self@.phonebook,
                model == entry@,
                all.take(i as int) + with_entry(all.skip(i as int), model) == with_entry(all, model),
            decreases self.phonebook.len() - i,
        {
            let ghost rest = all.skip(i as int);
            assert(rest[0] == self.phonebook@[i as int]@);
            assert(rest.skip(1) =~= all.skip(i + 1));
            if same_text(self.phonebook[i].name.as_str(), entry.name.as_str()) {
                self.phonebook.remove(i);
                self.phonebook.insert(i, entry);
                proof {
                    assert(self@.phonebook =~= all.take(i as int) + (seq![model] + rest.skip(1)));
                }
                return;
            }
            proof {
                assert(all.take(i as int) + (seq![rest[0]] + with_entry(all.skip(i + 1), model))
                    =~= all.take(i + 1) + with_entry(all.skip(i + 1), model));
            }
            i += 1;
        }
        self.phonebook.push(entry);
        assert(self@.phonebook =~= all.take(i as int) + seq![model]);
    }

    fn set_phonebook(&mut self, key: &str, value: &[char]) -> (done: Result<(), String>)
        requires
            old(self).wf(),
        ensures
            final(self).wf(),
            match done {
                Ok(_) => old(self)@.with_phonebook(key@, value@) == Ok::<ConfigModel, Seq<char>>(
                    final(self)@,
                ),
                Err(error) => old(self)@.with_phonebook(key@, value@) == Err::<
                    ConfigModel,
                    Seq<char>,
                >(error@),
            },
    {
        let items = split_list(value);
        let ghost models = crate::scan::char_views(items@);
        if items.len() == 0 {
            return Ok(());
        }
        assert(models[0] == items@[0]@);
        let identity_hash = match parse_hash_chars(&items[0]) {
            Ok(hash) => hash,
            Err(error) => return Err(error),
        };
        let alias = if items.len() < 2 {
            None
        } else {
            assert(models[1] == items@[1]@);
            let digits = only_digits(&items[1]);
            if digits.as_str().is_empty() {
                None
            } else {
                Some(digits)
            }
        };
        self.put_entry(PhonebookEntry { name: key.to_owned(), identity_hash, alias });
        Ok(())
    }

    fn set(&mut self, section: &str, key: &str, value: &[char]) -> (done: Result<(), String>)
        requires
            old(self).wf(),
        ensures
            final(self).wf(),
            match done {
                Ok(_) => old(self)@.with_setting(section@, key@, value@) == Ok::<
                    ConfigModel,
                    Seq<char>,
                >(final(self)@),
                Err(error) => old(self)@.with_setting(section@, key@, value@) == Err::<
                    ConfigModel,
                    Seq<char>,
                >(error@),
            },
    {
        if same_text(section, "telephone") {
            self.set_telephone(key, value)
        } else if same_text(section, "hardware") {
            self.set_hardware(key, value)
        } else if same_text(section, "phonebook") {
            self.set_phonebook(key, value)
        } else {
            Ok(())
        }
    }

    /// The identities of the phonebook.
    fn phonebook_identities(&self) -> (set: IdentitySet)
        ensures
            set.wf(),
            set@ == identities(self@.phonebook),
    {
        let mut set = IdentitySet::new();
        let ghost all = self@.phonebook;
        let mut i: usize = 0;
        while i < self.phonebook.len()
            invariant
                i <= self.phonebook@.len(),
                all == self@.phonebook,
                set.wf(),
                set@ == identities(all.take(i as int)),
            decreases self.phonebook.len() - i,
        {
            assert(all.take(i + 1).drop_last() =~= all.take(i as int));
            assert(all.take(i + 1).last() == self.phonebook@[i as int]@);
            set.insert(self.phonebook[i].identity_hash);
            i += 1;
        }
        assert(all.take(i as int) =~= all);
        set
    }

    /// Reads settings.
    pub fn parse(input: &str) -> (config: Result<Self, String>)
        ensures
            match config {
                Ok(config) => config.wf() && config_of(input@) == Ok::<ConfigModel, Seq<char>>(
                    config@,
                ),
                Err(error) => config_of(input@) == Err::<ConfigModel, Seq<char>>(error@),
            },
    {
        let text = chars_of(input);
        let lines = split_at_each(&text, '\n');
        let ghost all = crate::scan::char_views(lines@);
        let ghost start = ReaderModel { section: Seq::empty(), config: ConfigModel::fresh() };
        let mut config = RnphoneConfig::default();
        let mut section = String::new();
        let mut i: usize = 0;
        proof {
            assert(all.skip(0) =~= all);
            assert(section@ =~= Seq::<char>::empty());
        }
        while i < lines.len()
            invariant
                i <= lines@.len(),
                all == crate::scan::char_views(lines@),
                all == crate::scan::pieces(input@, '\n'),
                start == (ReaderModel { section: Seq::empty(), config: ConfigModel::fresh() }),
                config.wf(),
                start.with_lines(all) == (ReaderModel {
                    section: section@,
                    config: config@,
                }).with_lines(all.skip(i as int)),
            decreases lines.len() - i,
        {
            let ghost reader = ReaderModel { section: section@, config: config@ };
            assert(all.skip(i as int)[0] == lines@[i as int]@);
            assert(all.skip(i as int).skip(1) =~= all.skip(i + 1));
            match read_line(&mut config, &mut section, &lines[i]) {
                Ok(()) => {},
                Err(error) => return Err(error),
            }
            i += 1;
        }
        if config.allow_phonebook_callers {
            config.allowed_callers = CallerPolicy::List(config.phonebook_identities());
        }
        Ok(config)
    }

    /// Takes this telephone's own identity out of the settings.
    pub fn finalize_for_identity(&mut self, own_hash: &IdentityHash)
        requires
            old(self).wf(),
        ensures
            final(self).wf(),
            final(self)@ == old(self)@.finalized(own_hash@),
    {
        let ghost before = self@;
        let mut phonebook: Vec<PhonebookEntry> = Vec::new();
        core::mem::swap(&mut phonebook, &mut self.phonebook);
        self.phonebook = without_identity(phonebook, own_hash);
        self.blocked_callers.remove(own_hash);
        let mut policy = CallerPolicy::All;
        core::mem::swap(&mut policy, &mut self.allowed_callers);
        self.allowed_callers = match policy {
            CallerPolicy::List(allowed) => {
                if self.allow_phonebook_callers {
                    CallerPolicy::List(self.phonebook_identities())
                } else {
                    let mut allowed = allowed;
                    allowed.remove(own_hash);
                    CallerPolicy::List(allowed)
                }
            },
            CallerPolicy::All => CallerPolicy::All,
            CallerPolicy::Nobody => CallerPolicy::Nobody,
        };
        assert(self@ =~= before.finalized(own_hash@));
    }
}

/// Reads a line of the settings.
fn read_line(config: &mut RnphoneConfig, section: &mut String, line: &[char]) -> (done: Result<
    (),
    String,
>)
    requires
        old(config).wf(),
    ensures
        final(config).wf(),
        match done {
            Ok(_) => (ReaderModel { section: old(section)@, config: old(config)@ }).with_line(line@)
                == Ok::<ReaderModel, Seq<char>>(
                ReaderModel { section: final(section)@, config: final(config)@ },
            ),
            Err(error) => (ReaderModel {
                section: old(section)@,
                config: old(config)@,
            }).with_line(line@) == Err::<ReaderModel, Seq<char>>(error@),
        },
{
    assert(line@.skip(0) =~= line@);
    let end = find_from(line, 0, '#');
    let open_part = part_of(line, 0, end);
    assert(open_part@ =~= line@.take(end as int));
    let body = trim(&open_part);
    assert(body@ == line_body(line@));
    if body.len() == 0 {
        return Ok(());
    }
    if char_at(&body, 0) == '[' && char_at(&body, body.len() - 1) == ']' {
        assert(body.len() >= 2);
        let inner = part_of(&body, 1, body.len() - 1);
        let name = trim(&inner);
        *section = lowercase(text_of(&name).as_str());
        return Ok(());
    }
    assert(body@.skip(0) =~= body@);
    let place = find_from(&body, 0, '=');
    if place >= body.len() {
        return Ok(());
    }
    let left = part_of(&body, 0, place);
    let right = part_of(&body, place + 1, body.len());
    assert(left@ =~= body@.take(place as int));
    assert(right@ =~= body@.skip(place + 1));
    let key = text_of(&trim(&left));
    let value = trim(&right);
    config.set(section.as_str(), key.as_str(), &value)
}

/// Entries without an identity.
fn without_identity(entries: Vec<PhonebookEntry>, own_hash: &IdentityHash) -> (kept: Vec<
    PhonebookEntry,
>)
    ensures
        entry_models(kept@) == without(entry_models(entries@), own_hash@),
{
    let ghost all = entry_models(entries@);
    let mut rest = entries;
    let mut kept: Vec<PhonebookEntry> = Vec::new();
    proof {
        assert(without(all, own_hash@) + entry_models(kept@) =~= without(all, own_hash@));
    }
    while rest.len() > 0
        invariant
            without(entry_models(rest@), own_hash@) + entry_models(kept@) == without(
                all,
                own_hash@,
            ),
        decreases rest.len(),
    {
        let ghost before = entry_models(rest@);
        let ghost kept_before = entry_models(kept@);
        let entry = rest.pop();
        if let Some(entry) = entry {
            proof {
                assert(before.drop_last() =~= entry_models(rest@));
                assert(before.last() == entry@);
            }
            if !same_identity(&entry.identity_hash, own_hash) {
                kept.insert(0, entry);
                proof {
                    assert(entry_models(kept@) =~= seq![entry@] + kept_before);
                    let head = without(entry_models(rest@), own_hash@);
                    assert(head.push(entry@) + kept_before =~= head + (seq![entry@] + kept_before));
                }
            }
        }
    }
    assert(without(entry_models(rest@), own_hash@) + entry_models(kept@) =~= entry_models(kept@));
    kept
}

/// Whether a path starts at the root.
pub open spec fn is_absolute(path: Seq<char>) -> bool {
    path.len() > 0 && path[0] == '/'
}

/// A path below a directory.
pub open spec fn joined(dir: Seq<char>, path: Seq<char>) -> Seq<char> {
    if dir.len() == 0 || dir.last() == '/' {
        dir + path
    } else {
        dir + "/"@ + path
    }
}

/// A path below a directory.
fn join_path(dir: &str, path: &str) -> (full: String)
    ensures
        full@ == joined(dir@, path@),
{
    let chars = chars_of(dir);
    if chars.len() == 0 || char_at(&chars, chars.len() - 1) == '/' {
        dir.to_owned().concat(path)
    } else {
        dir.to_owned().concat("/").concat(path)
    }
}

/// The directory of the settings where none is given: that of the system where it has
/// settings, else one below the home directory, or below the current one where there is no
/// home; of the two that are used there, the one that has settings already.
pub fn config_dir(etc_has_config: bool, home: Option<&str>, home_has_config: bool) -> (dir: String)
    ensures
        dir@ == (if etc_has_config {
            "/etc/rnphone"@
        } else {
            joined(
                match home {
                    Some(home) => home@,
                    None => "."@,
                },
                if home_has_config {
                    ".config/rnphone"@
                } else {
                    ".rnphone"@
                },
            )
        }),
{
    if etc_has_config {
        return "/etc/rnphone".to_owned();
    }
    let home = match home {
        Some(home) => home,
        None => ".",
    };
    join_path(
        home,
        if home_has_config {
            ".config/rnphone"
        } else {
            ".rnphone"
        },
    )
}

/// Whom a dialled text stands for.
#[derive(Debug, PartialEq, Eq)]
pub struct DialTarget {
    pub label: String,
    pub identity_hash: IdentityHash,
}

impl EntryModel {
    /// Whether a dialled text stands for this entry: it is the alias, or the name in any case.
    pub open spec fn answers_to(self, input: Seq<char>) -> bool {
        self.alias == Some(input) || crate::scan::alike(self.name, input)
    }

    /// How the entry is named.
    pub open spec fn label(self) -> Seq<char> {
        match self.alias {
            Some(alias) => self.name + " ("@ + alias + ")"@,
            None => self.name,
        }
    }
}

/// The first entry that a dialled text stands for.
pub open spec fn dialled(phonebook: Seq<EntryModel>, input: Seq<char>) -> Option<EntryModel>
    decreases phonebook.len(),
{
    if phonebook.len() == 0 {
        None
    } else if phonebook[0].answers_to(input) {
        Some(phonebook[0])
    } else {
        dialled(phonebook.skip(1), input)
    }
}

/// The first entry with an alias.
pub open spec fn aliased(phonebook: Seq<EntryModel>, alias: Seq<char>) -> Option<EntryModel>
    decreases phonebook.len(),
{
    if phonebook.len() == 0 {
        None
    } else if phonebook[0].alias == Some(alias) {
        Some(phonebook[0])
    } else {
        aliased(phonebook.skip(1), alias)
    }
}

impl PhonebookEntry {
    fn has_alias(&self, input: &str) -> (found: bool)
        ensures
            found == (self@.alias == Some(input@)),
    {
        match &self.alias {
            Some(alias) => same_text(alias.as_str(), input),
            None => false,
        }
    }

    fn label(&self) -> (label: String)
        ensures
            label@ == self@.label(),
    {
        match &self.alias {
            Some(alias) => {
                self.name.clone().concat(" (").concat(alias.as_str()).concat(")")
            },
            None => self.name.clone(),
        }
    }
}

impl RnphoneConfig {
    /// Lets a relative path of the ringtone be one below the directory of the settings.
    pub fn resolve_paths(&mut self, config_dir: &str)
        requires
            old(self).wf(),
        ensures
            final(self).wf(),
            final(self)@ == (ConfigModel {
                ringtone: match old(self)@.ringtone {
                    Some(path) => Some(
                        if is_absolute(path) {
                            path
                        } else {
                            joined(config_dir@, path)
                        },
                    ),
                    None => None,
                },
                ..old(self)@
            }),
    {
        let resolved = match &self.ringtone_path {
            Some(path) => {
                let chars = chars_of(path.as_str());
                if chars.len() > 0 && char_at(&chars, 0) == '/' {
                    return;
                }
                join_path(config_dir, path.as_str())
            },
            None => return,
        };
        self.ringtone_path = Some(resolved);
    }

    /// The entry with a name, where there is one.
    pub fn entry(&self, name: &str) -> (entry: Option<&PhonebookEntry>)
        ensures
            match entry {
                Some(entry) => entry@.name == name@ && self@.phonebook.contains(entry@),
                None => forall|i: int|
                    0 <= i < self@.phonebook.len() ==> (#[trigger] self@.phonebook[i]).name
                        != name@,
            },
    {
        let mut i: usize = 0;
        while i < self.phonebook.len()
            invariant
                i <= self.phonebook@.len(),
                forall|j: int|
                    0 <= j < i ==> (#[trigger] self@.phonebook[j]).name != name@,
            decreases self.phonebook.len() - i,
        {
            if same_text(self.phonebook[i].name.as_str(), name) {
                assert(self@.phonebook[i as int] == self.phonebook@[i as int]@);
                return Some(&self.phonebook[i]);
            }
            i += 1;
        }
        None
    }

    /// Whom a dialled text stands for: the first entry with it as its alias, or as its name in
    /// any case.
    pub fn resolve_dial_target(&self, input: &str) -> (target: Option<DialTarget>)
        ensures
            match target {
                Some(target) => dialled(self@.phonebook, input@) matches Some(entry)
                    && target.label@ == entry.label() && target.identity_hash@ == entry.identity,
                None => dialled(self@.phonebook, input@) is None,
            },
    {
        let ghost all = self@.phonebook;
        let input_chars = chars_of(input);
        let mut i: usize = 0;
        assert(all.skip(0) =~= all);
        while i < self.phonebook.len()
            invariant
                i <= self.phonebook@.len(),
                all == self@.phonebook,
                input_chars@ == input@,
                dialled(all, input@) == dialled(all.skip(i as int), input@),
            decreases self.phonebook.len() - i,
        {
            let entry = &self.phonebook[i];
            assert(all.skip(i as int)[0] == entry@);
            assert(all.skip(i as int).skip(1) =~= all.skip(i + 1));
            let name_chars = chars_of(entry.name.as_str());
            if entry.has_alias(input) || same_ignoring_case(&name_chars, &input_chars) {
                return Some(
                    DialTarget { label: entry.label(), identity_hash: entry.identity_hash },
                );
            }
            i += 1;
        }
        None
    }

    /// The name of the first entry with an alias.
    pub fn resolve_dial_alias_name(&self, input: &str) -> (name: Option<&str>)
        ensures
            match name {
                Some(name) => aliased(self@.phonebook, input@) matches Some(entry) && name@
                    == entry.name,
                None => aliased(self@.phonebook, input@) is None,
            },
    {
        let ghost all = self@.phonebook;
        let mut i: usize = 0;
        assert(all.skip(0) =~= all);
        while i < self.phonebook.len()
            invariant
                i <= self.phonebook@.len(),
                all == self@.phonebook,
                aliased(all, input@) == aliased(all.skip(i as int), input@),
            decreases self.phonebook.len() - i,
        {
            let entry = &self.phonebook[i];
            assert(all.skip(i as int)[0] == entry@);
            assert(all.skip(i as int).skip(1) =~= all.skip(i + 1));
            if entry.has_alias(input) {
                return Some(entry.name.as_str());
            }
            i += 1;
        }
        None
    }
}

/// How many bytes some text takes.
pub open spec fn byte_len(text: Seq<char>) -> usize {
    vstd::utf8::encode_utf8(text).len() as usize
}

/// The larger of two numbers.
pub open spec fn larger(left: usize, right: usize) -> usize {
    if left < right {
        right
    } else {
        left
    }
}

/// The number of bytes of the longest name.
pub open spec fn name_width(phonebook: Seq<EntryModel>) -> usize
    decreases phonebook.len(),
{
    if phonebook.len() == 0 {
        0
    } else {
        larger(name_width(phonebook.drop_last()), byte_len(phonebook.last().name))
    }
}

/// The number of bytes of the longest alias.
pub open spec fn alias_width(phonebook: Seq<EntryModel>) -> usize
    decreases phonebook.len(),
{
    if phonebook.len() == 0 {
        0
    } else {
        match phonebook.last().alias {
            Some(alias) => larger(alias_width(phonebook.drop_last()), byte_len(alias)),
            None => alias_width(phonebook.drop_last()),
        }
    }
}

/// Spaces.
pub open spec fn spaces(count: int) -> Seq<char>
    decreases count,
{
    if count <= 0 {
        Seq::empty()
    } else {
        spaces(count - 1).push(' ')
    }
}

/// What an entry is dialled by: its alias, or its number in the phonebook.
pub open spec fn dial_text(entry: EntryModel, number: int) -> Seq<char> {
    match entry.alias {
        Some(alias) => alias,
        None => crate::text::decimal_text(number as nat),
    }
}

/// A line of the phonebook: what is dialled, moved to the right, the name, and the identity.
pub open spec fn menu_line(
    entry: EntryModel,
    number: int,
    dial_width: int,
    name_width: int,
) -> Seq<char> {
    let dial = dial_text(entry, number);
    "  "@ + spaces(dial_width - dial.len()) + dial + " "@ + entry.name + spaces(
        name_width - entry.name.len(),
    ) + " : "@ + crate::hash_text::pretty_text(entry.identity) + "\n"@
}

/// The first lines of the phonebook.
pub open spec fn menu_lines(
    phonebook: Seq<EntryModel>,
    count: int,
    dial_width: int,
    name_width: int,
) -> Seq<char>
    decreases count,
{
    if count <= 0 {
        Seq::empty()
    } else {
        menu_lines(phonebook, count - 1, dial_width, name_width) + menu_line(
            phonebook[count - 1],
            count,
            dial_width,
            name_width,
        )
    }
}

/// The phonebook as it is shown.
pub open spec fn menu_text(phonebook: Seq<EntryModel>) -> Seq<char> {
    if phonebook.len() == 0 {
        "\nNo entries in phonebook\n"@
    } else {
        "\nPhonebook\n"@ + menu_lines(
            phonebook,
            phonebook.len() as int,
            larger(
                alias_width(phonebook),
                byte_len(crate::text::decimal_text(phonebook.len())),
            ) as int,
            name_width(phonebook) as int,
        )
    }
}

/// Spaces that fill some text up to a width.
fn filling(width: usize, text: &str) -> (filled: String)
    ensures
        filled@ == spaces(width - text@.len()),
{
    let chars = chars_of(text);
    let mut filled = String::new();
    let mut i: usize = chars.len();
    assert(filled@ =~= spaces(i - chars@.len()));
    if i >= width {
        assert(filled@ =~= spaces(width - text@.len()));
        return filled;
    }
    while i < width
        invariant
            chars@.len() <= i <= width,
            chars@ == text@,
            filled@ == spaces(i - chars@.len()),
        decreases width - i,
    {
        filled.push(' ');
        i += 1;
    }
    filled
}

/// The phonebook as it is shown.
pub fn phonebook_menu(config: &RnphoneConfig) -> (menu: String)
    ensures
        menu@ == menu_text(config@.phonebook),
{
    let ghost all = config@.phonebook;
    if config.phonebook.len() == 0 {
        return "\nNo entries in phonebook\n".to_owned();
    }
    let mut max_name_len: usize = 0;
    let mut max_alias_len: usize = 0;
    let mut i: usize = 0;
    while i < config.phonebook.len()
        invariant
            i <= config.phonebook@.len(),
            all == config@.phonebook,
            max_name_len == name_width(all.take(i as int)),
            max_alias_len == alias_width(all.take(i as int)),
        decreases config.phonebook.len() - i,
    {
        let entry = &config.phonebook[i];
        assert(all.take(i + 1).drop_last() =~= all.take(i as int));
        assert(all.take(i + 1).last() == entry@);
        let name_len = entry.name.as_str().len();
        if max_name_len < name_len {
            max_name_len = name_len;
        }
        if let Some(alias) = &entry.alias {
            let alias_len = alias.as_str().len();
            if max_alias_len < alias_len {
                max_alias_len = alias_len;
            }
        }
        i += 1;
    }
    assert(all.take(i as int) =~= all);
    let last_number = decimal(config.phonebook.len() as u64);
    let index_len = last_number.as_str().len();
    let dial_width: usize = if max_alias_len < index_len {
        index_len
    } else {
        max_alias_len
    };
    let mut output = "\nPhonebook\n".to_owned();
    let mut k: usize = 0;
    assert(output@ =~= "\nPhonebook\n"@ + menu_lines(
        all,
        0,
        dial_width as int,
        max_name_len as int,
    ));
    while k < config.phonebook.len()
        invariant
            k <= config.phonebook@.len(),
            all == config@.phonebook,
            output@ == "\nPhonebook\n"@ + menu_lines(
                all,
                k as int,
                dial_width as int,
                max_name_len as int,
            ),
        decreases config.phonebook.len() - k,
    {
        let entry = &config.phonebook[k];
        assert(all[k as int] == entry@);
        let number: u64 = k as u64 + 1;
        let dial = match &entry.alias {
            Some(alias) => alias.clone(),
            None => decimal(number),
        };
        assert(dial@ == dial_text(entry@, k + 1));
        let line = "  ".to_owned().concat(filling(dial_width, dial.as_str()).as_str()).concat(
            dial.as_str(),
        ).concat(" ").concat(entry.name.as_str()).concat(
            filling(max_name_len, entry.name.as_str()).as_str(),
        ).concat(" : ").concat(pretty_hash(&entry.identity_hash).as_str()).concat("\n");
        let ghost before = output@;
        assert(line@ == menu_line(entry@, k + 1, dial_width as int, max_name_len as int));
        output = output.concat(line.as_str());
        assert(output@ =~= "\nPhonebook\n"@ + (menu_lines(
            all,
            k as int,
            dial_width as int,
            max_name_len as int,
        ) + line@));
        k += 1;
    }
    output
}

/// Once the own identity was taken out, nobody in the phonebook, among the blocked or among
/// the allowed is this telephone itself.
pub proof fn law_own_identity_is_taken_out(config: ConfigModel, own: Seq<u8>)
    ensures
        forall|i: int|
            0 <= i < config.finalized(own).phonebook.len() ==> (
            #[trigger] config.finalized(own).phonebook[i]).identity != own,
        !config.finalized(own).blocked.contains(own),
        config.finalized(own).allowed matches PolicyModel::List(allowed) ==> !allowed.contains(own),
{
    lemma_without(config.phonebook, own);
}

proof fn lemma_without(phonebook: Seq<EntryModel>, own: Seq<u8>)
    ensures
        forall|i: int|
            0 <= i < without(phonebook, own).len() ==> (
            #[trigger] without(phonebook, own)[i]).identity != own,
        !identities(without(phonebook, own)).contains(own),
    decreases phonebook.len(),
{
    if phonebook.len() > 0 {
        let rest = without(phonebook.drop_last(), own);
        lemma_without(phonebook.drop_last(), own);
        if phonebook.last().identity != own {
            assert(rest.push(phonebook.last()).drop_last() =~= rest);
        }
    }
}

/// Taking the own identity out once is enough.
pub proof fn law_taking_out_twice_changes_nothing(config: ConfigModel, own: Seq<u8>)
    ensures
        config.finalized(own).finalized(own) == config.finalized(own),
{
    let once = config.finalized(own);
    lemma_without(config.phonebook, own);
    lemma_nothing_to_take_out(once.phonebook, own);
    assert(once.blocked.remove(own) =~= once.blocked);
    if let PolicyModel::List(allowed) = once.allowed {
        assert(!allowed.contains(own));
        assert(allowed.remove(own) =~= allowed);
    }
    assert(once.finalized(own) =~= once);
}

proof fn lemma_nothing_to_take_out(phonebook: Seq<EntryModel>, own: Seq<u8>)
    requires
        forall|i: int| 0 <= i < phonebook.len() ==> (#[trigger] phonebook[i]).identity != own,
    ensures
        without(phonebook, own) == phonebook,
    decreases phonebook.len(),
{
    if phonebook.len() > 0 {
        lemma_nothing_to_take_out(phonebook.drop_last(), own);
        assert(phonebook.drop_last().push(phonebook.last()) =~= phonebook);
    } else {
        assert(without(phonebook, own) =~= phonebook);
    }
}

/// Where those in the phonebook may call, nobody else may.
pub proof fn law_phonebook_callers_are_those_in_the_phonebook(config: ConfigModel, caller: Seq<u8>)
    requires
        config.allow_phonebook,
    ensures
        config.with_phonebook_callers().allowed matches PolicyModel::List(allowed) && (
        allowed.contains(caller) <==> exists|i: int|
            0 <= i < config.phonebook.len() && (#[trigger] config.phonebook[i]).identity == caller),
{
    lemma_identities(config.phonebook, caller);
}

proof fn lemma_identities(phonebook: Seq<EntryModel>, caller: Seq<u8>)
    ensures
        identities(phonebook).contains(caller) <==> exists|i: int|
            0 <= i < phonebook.len() && (#[trigger] phonebook[i]).identity == caller,
    decreases phonebook.len(),
{
    if phonebook.len() > 0 {
        let rest = phonebook.drop_last();
        lemma_identities(rest, caller);
        if identities(rest).contains(caller) {
            let i = choose|i: int|
                0 <= i < rest.len() && (#[trigger] rest[i]).identity == caller;
            assert(phonebook[i].identity == caller);
        }
        if phonebook.last().identity == caller {
            assert(phonebook[phonebook.len() - 1].identity == caller);
        }
        if exists|i: int| 0 <= i < phonebook.len() && (#[trigger] phonebook[i]).identity == caller {
            let i = choose|i: int|
                0 <= i < phonebook.len() && (#[trigger] phonebook[i]).identity == caller;
            if i < rest.len() {
                assert(rest[i].identity == caller);
            }
        }
    }
}

/// Whether no two entries have the same name.
pub open spec fn names_distinct(phonebook: Seq<EntryModel>) -> bool {
    forall|i: int, j: int|
        0 <= i < j < phonebook.len() ==> (#[trigger] phonebook[i]).name != (
        #[trigger] phonebook[j]).name
}

/// Whether some entry has a name.
pub open spec fn has_name(phonebook: Seq<EntryModel>, name: Seq<char>) -> bool {
    exists|i: int| 0 <= i < phonebook.len() && (#[trigger] phonebook[i]).name == name
}

proof fn lemma_with_entry(phonebook: Seq<EntryModel>, entry: EntryModel)
    requires
        names_distinct(phonebook),
    ensures
        names_distinct(with_entry(phonebook, entry)),
        forall|k: int|
            0 <= k < with_entry(phonebook, entry).len() ==> (#[trigger] with_entry(
                phonebook,
                entry,
            )[k]).name == entry.name || has_name(phonebook, with_entry(phonebook, entry)[k].name),
    decreases phonebook.len(),
{
    let after = with_entry(phonebook, entry);
    if phonebook.len() > 0 {
        let first = phonebook[0];
        let rest = phonebook.skip(1);
        assert forall|i: int, j: int| 0 <= i < j < rest.len() implies (#[trigger] rest[i]).name != (
        #[trigger] rest[j]).name by {
            assert(phonebook[i + 1].name != phonebook[j + 1].name);
        }
        if first.name == entry.name {
            assert forall|i: int, j: int| 0 <= i < j < after.len() implies (
            #[trigger] after[i]).name != (#[trigger] after[j]).name by {
                assert(after[j] == phonebook[j]);
                if i > 0 {
                    assert(after[i] == phonebook[i]);
                }
                assert(phonebook[i].name != phonebook[j].name);
            }
            assert forall|k: int| 0 <= k < after.len() implies (#[trigger] after[k]).name
                == entry.name || has_name(phonebook, after[k].name) by {
                if k > 0 {
                    assert(phonebook[k].name == after[k].name);
                }
            }
        } else {
            lemma_with_entry(rest, entry);
            let tail = with_entry(rest, entry);
            assert forall|k: int| 0 <= k < tail.len() implies (#[trigger] tail[k]).name
                != first.name && (tail[k].name == entry.name || has_name(
                phonebook,
                tail[k].name,
            )) by {
                if tail[k].name != entry.name {
                    let m = choose|m: int|
                        0 <= m < rest.len() && (#[trigger] rest[m]).name == tail[k].name;
                    assert(phonebook[m + 1].name == tail[k].name);
                    assert(phonebook[0].name != phonebook[m + 1].name);
                }
            }
            assert forall|i: int, j: int| 0 <= i < j < after.len() implies (
            #[trigger] after[i]).name != (#[trigger] after[j]).name by {
                assert(after[j] == tail[j - 1]);
                if i > 0 {
                    assert(after[i] == tail[i - 1]);
                }
            }
            assert forall|k: int| 0 <= k < after.len() implies (#[trigger] after[k]).name
                == entry.name || has_name(phonebook, after[k].name) by {
                if k > 0 {
                    assert(after[k] == tail[k - 1]);
                } else {
                    assert(phonebook[0].name == after[0].name);
                }
            }
        }
    }
}

proof fn lemma_lines_keep_names(reader: ReaderModel, lines: Seq<Seq<char>>)
    requires
        names_distinct(reader.config.phonebook),
    ensures
        reader.with_lines(lines) matches Ok(after) ==> names_distinct(after.config.phonebook),
    decreases lines.len(),
{
    if lines.len() > 0 {
        let body = line_body(lines[0]);
        let place = crate::scan::place_of(body, '=') as int;
        if place < body.len() {
            let items = crate::scan::list_items(crate::scan::trimmed(body.skip(place + 1)));
            if items.len() > 0 {
                lemma_with_entry(
                    reader.config.phonebook,
                    EntryModel {
                        name: crate::scan::trimmed(body.take(place)),
                        identity: crate::hash_text::hex_bytes(items[0]),
                        alias: alias_of(items),
                    },
                );
            }
        }
        if let Ok(next) = reader.with_line(lines[0]) {
            lemma_lines_keep_names(next, lines.skip(1));
        }
    }
}

/// No two entries of a phonebook that was read have the same name.
pub proof fn law_phonebook_names_are_distinct(text: Seq<char>)
    ensures
        config_of(text) matches Ok(config) ==> names_distinct(config.phonebook),
{
    lemma_lines_keep_names(
        ReaderModel { section: Seq::empty(), config: ConfigModel::fresh() },
        crate::scan::pieces(text, '\n'),
    );
}

proof fn lemma_sections_differ()
    ensures
        "telephone"@ != "hardware"@,
        "telephone"@ != "phonebook"@,
        "hardware"@ != "phonebook"@,
{
    reveal_strlit("telephone");
    reveal_strlit("hardware");
    reveal_strlit("phonebook");
    assert("telephone"@.len() != "hardware"@.len());
    assert("telephone"@[0] != "phonebook"@[0]);
    assert("hardware"@.len() != "phonebook"@.len());
}

proof fn lemma_telephone_keys_differ()
    ensures
        "allowed_callers"@ != "blocked_callers"@,
        "allowed_callers"@ != "ringtone"@,
        "allowed_callers"@ != "speaker"@,
        "allowed_callers"@ != "microphone"@,
        "allowed_callers"@ != "ringer"@,
        "blocked_callers"@ != "ringtone"@,
        "blocked_callers"@ != "speaker"@,
        "blocked_callers"@ != "microphone"@,
        "blocked_callers"@ != "ringer"@,
        "ringtone"@ != "speaker"@,
        "ringtone"@ != "microphone"@,
        "ringtone"@ != "ringer"@,
        "speaker"@ != "microphone"@,
        "speaker"@ != "ringer"@,
        "microphone"@ != "ringer"@,
{
    reveal_strlit("allowed_callers");
    reveal_strlit("blocked_callers");
    reveal_strlit("ringtone");
    reveal_strlit("speaker");
    reveal_strlit("microphone");
    reveal_strlit("ringer");
    assert("allowed_callers"@[0] != "blocked_callers"@[0]);
    assert("allowed_callers"@.len() != "ringtone"@.len());
    assert("allowed_callers"@.len() != "speaker"@.len());
    assert("allowed_callers"@.len() != "microphone"@.len());
    assert("allowed_callers"@.len() != "ringer"@.len());
    assert("blocked_callers"@.len() != "ringtone"@.len());
    assert("blocked_callers"@.len() != "speaker"@.len());
    assert("blocked_callers"@.len() != "microphone"@.len());
    assert("blocked_callers"@.len() != "ringer"@.len());
    assert("ringtone"@.len() != "speaker"@.len());
    assert("ringtone"@.len() != "microphone"@.len());
    assert("ringtone"@.len() != "ringer"@.len());
    assert("speaker"@.len() != "microphone"@.len());
    assert("speaker"@.len() != "ringer"@.len());
    assert("microphone"@.len() != "ringer"@.len());
}

proof fn lemma_hardware_keys_differ()
    ensures
        "keypad"@ != "display"@,
        "keypad"@ != "keypad_hook_pin"@,
        "keypad"@ != "amp_mute_pin"@,
        "keypad"@ != "amp_mute_level"@,
        "display"@ != "keypad_hook_pin"@,
        "display"@ != "amp_mute_pin"@,
        "display"@ != "amp_mute_level"@,
        "keypad_hook_pin"@ != "amp_mute_pin"@,
        "keypad_hook_pin"@ != "amp_mute_level"@,
        "amp_mute_pin"@ != "amp_mute_level"@,
{
    reveal_strlit("keypad");
    reveal_strlit("display");
    reveal_strlit("keypad_hook_pin");
    reveal_strlit("amp_mute_pin");
    reveal_strlit("amp_mute_level");
    assert("keypad"@.len() != "display"@.len());
    assert("keypad"@.len() != "keypad_hook_pin"@.len());
    assert("keypad"@.len() != "amp_mute_pin"@.len());
    assert("keypad"@.len() != "amp_mute_level"@.len());
    assert("display"@.len() != "keypad_hook_pin"@.len());
    assert("display"@.len() != "amp_mute_pin"@.len());
    assert("display"@.len() != "amp_mute_level"@.len());
    assert("keypad_hook_pin"@.len() != "amp_mute_pin"@.len());
    assert("keypad_hook_pin"@.len() != "amp_mute_level"@.len());
    assert("amp_mute_pin"@.len() != "amp_mute_level"@.len());
}

proof fn lemma_words_differ()
    ensures
        "all"@ != "none"@,
        "all"@ != "phonebook"@,
        "none"@ != "phonebook"@,
{
    reveal_strlit("all");
    reveal_strlit("none");
    reveal_strlit("phonebook");
    assert("all"@.len() != "none"@.len());
    assert("all"@.len() != "phonebook"@.len());
    assert("none"@.len() != "phonebook"@.len());
}

proof fn lemma_levels_differ()
    ensures
        "low"@ != "high"@,
        "low"@ != "0"@,
        "low"@ != "1"@,
        "high"@ != "0"@,
        "high"@ != "1"@,
        "0"@ != "1"@,
{
    reveal_strlit("low");
    reveal_strlit("high");
    reveal_strlit("0");
    reveal_strlit("1");
    assert("low"@.len() != "high"@.len());
    assert("low"@.len() != "0"@.len());
    assert("low"@.len() != "1"@.len());
    assert("high"@.len() != "0"@.len());
    assert("high"@.len() != "1"@.len());
    assert("0"@[0] != "1"@[0]);
}

/// A list of hashes is added to a set exactly if every item is a hash; then the set holds what it
/// held and the bytes of every item, and nothing else. Otherwise the first item that is no hash
/// is told.
pub proof fn law_listed_hashes_are_added(
    set: Set<Seq<u8>>,
    items: Seq<Seq<char>>,
    hash: Seq<u8>,
)
    ensures
        with_hashes(set, items) is Ok <==> forall|i: int|
            0 <= i < items.len() ==> crate::hash_text::is_hash_text(#[trigger] items[i]),
        with_hashes(set, items) matches Ok(after) ==> (after.contains(hash) <==> set.contains(hash)
            || exists|i: int|
            0 <= i < items.len() && crate::hash_text::hex_bytes(#[trigger] items[i]) == hash),
        with_hashes(set, items) matches Err(error) ==> exists|i: int|
            0 <= i < items.len() && !crate::hash_text::is_hash_text(#[trigger] items[i]) && error
                == "invalid identity hash "@ + items[i] && forall|j: int|
                0 <= j < i ==> crate::hash_text::is_hash_text(#[trigger] items[j]),
    decreases items.len(),
{
    if items.len() > 0 {
        let rest = items.skip(1);
        if crate::hash_text::is_hash_text(items[0]) {
            let first = crate::hash_text::hex_bytes(items[0]);
            let more = set.insert(first);
            law_listed_hashes_are_added(more, rest, hash);
            assert forall|i: int| 0 < i < items.len() implies #[trigger] items[i] == rest[
            i - 1] by {}
            assert forall|i: int| 0 <= i < rest.len() implies #[trigger] rest[i] == items[
            i + 1] by {}
            match with_hashes(more, rest) {
                Ok(after) => {
                    assert forall|i: int|
                        0 <= i < items.len() implies crate::hash_text::is_hash_text(
                        #[trigger] items[i],
                    ) by {
                        if i > 0 {
                            assert(crate::hash_text::is_hash_text(rest[i - 1]));
                        }
                    }
                    if exists|i: int|
                        0 <= i < items.len() && crate::hash_text::hex_bytes(#[trigger] items[i])
                            == hash {
                        let i = choose|i: int|
                            0 <= i < items.len() && crate::hash_text::hex_bytes(
                                #[trigger] items[i],
                            ) == hash;
                        if i > 0 {
                            assert(crate::hash_text::hex_bytes(rest[i - 1]) == hash);
                        }
                    }
                    if after.contains(hash) && !set.contains(hash) && first != hash {
                        let i = choose|i: int|
                            0 <= i < rest.len() && crate::hash_text::hex_bytes(#[trigger] rest[i])
                                == hash;
                        assert(crate::hash_text::hex_bytes(items[i + 1]) == hash);
                    }
                    if first == hash {
                        assert(crate::hash_text::hex_bytes(items[0]) == hash);
                    }
                },
                Err(error) => {
                    let i = choose|i: int|
                        0 <= i < rest.len() && !crate::hash_text::is_hash_text(#[trigger] rest[i])
                            && error == "invalid identity hash "@ + rest[i] && forall|j: int|
                            0 <= j < i ==> crate::hash_text::is_hash_text(#[trigger] rest[j]);
                    assert(!crate::hash_text::is_hash_text(items[i + 1]));
                    assert forall|j: int| 0 <= j < i + 1 implies crate::hash_text::is_hash_text(
                        #[trigger] items[j],
                    ) by {
                        if j > 0 {
                            assert(crate::hash_text::is_hash_text(rest[j - 1]));
                        }
                    }
                },
            }
        } else {
            assert(!crate::hash_text::is_hash_text(items[0]));
        }
    }
}

/// The setting of those who may not call adds the hashes of its list to them, or says which is
/// none; nobody is taken out, and nothing else is set.
pub proof fn law_blocked_callers_are_added(config: ConfigModel, value: Seq<char>, hash: Seq<u8>)
    ensures
        ({
            let items = crate::scan::list_items(value);
            match config.with_setting("telephone"@, "blocked_callers"@, value) {
                Ok(after) => {
                    &&& after == (ConfigModel { blocked: after.blocked, ..config })
                    &&& after.blocked.contains(hash) <==> config.blocked.contains(hash)
                        || exists|i: int|
                        0 <= i < items.len() && crate::hash_text::hex_bytes(#[trigger] items[i])
                            == hash
                    &&& forall|i: int|
                        0 <= i < items.len() ==> crate::hash_text::is_hash_text(
                            #[trigger] items[i],
                        )
                },
                Err(error) => exists|i: int|
                    0 <= i < items.len() && !crate::hash_text::is_hash_text(#[trigger] items[i])
                        && error == "invalid identity hash "@ + items[i],
            }
        }),
{
    lemma_telephone_keys_differ();
    law_listed_hashes_are_added(config.blocked, crate::scan::list_items(value), hash);
}

/// The setting of those who may call says that all may, that nobody may, or who may: those in
/// the phonebook, or those of a list, and nobody else. The words may be written in any case.
pub proof fn law_allowed_callers_are_set(config: ConfigModel, value: Seq<char>, hash: Seq<u8>)
    ensures
        ({
            let items = crate::scan::list_items(value);
            let word = crate::scan::lowered(value);
            let after = config.with_setting("telephone"@, "allowed_callers"@, value);
            &&& word == "phonebook"@ ==> after == Ok::<ConfigModel, Seq<char>>(
                ConfigModel {
                    allow_phonebook: true,
                    allowed: PolicyModel::List(Set::empty()),
                    ..config
                },
            )
            &&& word == "all"@ ==> after == Ok::<ConfigModel, Seq<char>>(
                ConfigModel { allowed: PolicyModel::All, ..config },
            )
            &&& word == "none"@ ==> after == Ok::<ConfigModel, Seq<char>>(
                ConfigModel { allowed: PolicyModel::Nobody, ..config },
            )
            &&& word != "phonebook"@ && word != "all"@ && word != "none"@ ==> match after {
                Ok(after) => {
                    &&& after == (ConfigModel { allowed: after.allowed, ..config })
                    &&& after.allowed matches PolicyModel::List(allowed) && (allowed.contains(hash)
                        <==> exists|i: int|
                        0 <= i < items.len() && crate::hash_text::hex_bytes(#[trigger] items[i])
                            == hash)
                    &&& forall|i: int|
                        0 <= i < items.len() ==> crate::hash_text::is_hash_text(
                            #[trigger] items[i],
                        )
                },
                Err(error) => exists|i: int|
                    0 <= i < items.len() && !crate::hash_text::is_hash_text(#[trigger] items[i])
                        && error == "invalid identity hash "@ + items[i],
            }
        }),
{
    lemma_telephone_keys_differ();
    lemma_words_differ();
    law_listed_hashes_are_added(Set::empty(), crate::scan::list_items(value), hash);
    crate::scan::law_alike_texts_are_the_same_in_small_letters(value, "phonebook"@);
    reveal_strlit("phonebook");
    crate::scan::law_lowering_keeps_all_but_large_letters("phonebook"@);
    assert(crate::scan::lowered("phonebook"@) =~= "phonebook"@);
}

/// The settings of the ringtone and of the devices are what is written, trimmed; where nothing
/// is written they are not set. Each sets nothing but itself.
pub proof fn law_sound_settings_are_set(config: ConfigModel, value: Seq<char>)
    ensures
        ({
            let text = if crate::scan::trimmed(value).len() == 0 {
                None
            } else {
                Some(crate::scan::trimmed(value))
            };
            &&& config.with_setting("telephone"@, "ringtone"@, value) == Ok::<
                ConfigModel,
                Seq<char>,
            >(ConfigModel { ringtone: text, ..config })
            &&& config.with_setting("telephone"@, "speaker"@, value) == Ok::<
                ConfigModel,
                Seq<char>,
            >(
                ConfigModel {
                    devices: DevicesModel { speaker: text, ..config.devices },
                    ..config
                },
            )
            &&& config.with_setting("telephone"@, "microphone"@, value) == Ok::<
                ConfigModel,
                Seq<char>,
            >(
                ConfigModel {
                    devices: DevicesModel { microphone: text, ..config.devices },
                    ..config
                },
            )
            &&& config.with_setting("telephone"@, "ringer"@, value) == Ok::<
                ConfigModel,
                Seq<char>,
            >(
                ConfigModel { devices: DevicesModel { ringer: text, ..config.devices }, ..config },
            )
        }),
{
    lemma_telephone_keys_differ();
}

/// The settings of the hardware are set each by its own key: the drivers are what is written,
/// trimmed, and the pins are numbers below 256; where nothing is written they are not set. Text
/// that is no such number is refused.
pub proof fn law_hardware_settings_are_set(config: ConfigModel, value: Seq<char>)
    ensures
        ({
            let text = crate::scan::trimmed(value);
            let given = if text.len() == 0 {
                None
            } else {
                Some(text)
            };
            let pin = crate::std_text::u8_of(text);
            let hook = config.with_setting("hardware"@, "keypad_hook_pin"@, value);
            let mute = config.with_setting("hardware"@, "amp_mute_pin"@, value);
            &&& config.with_setting("hardware"@, "keypad"@, value) == Ok::<ConfigModel, Seq<char>>(
                ConfigModel { hardware: HardwareModel { keypad: given, ..config.hardware }, ..config },
            )
            &&& config.with_setting("hardware"@, "display"@, value) == Ok::<
                ConfigModel,
                Seq<char>,
            >(
                ConfigModel {
                    hardware: HardwareModel { display: given, ..config.hardware },
                    ..config
                },
            )
            &&& text.len() == 0 || pin is Some ==> hook == Ok::<ConfigModel, Seq<char>>(
                ConfigModel {
                    hardware: HardwareModel {
                        keypad_hook_pin: if text.len() == 0 {
                            None
                        } else {
                            pin
                        },
                        ..config.hardware
                    },
                    ..config
                },
            )
            &&& text.len() == 0 || pin is Some ==> mute == Ok::<ConfigModel, Seq<char>>(
                ConfigModel {
                    hardware: HardwareModel {
                        amp_mute_pin: if text.len() == 0 {
                            None
                        } else {
                            pin
                        },
                        ..config.hardware
                    },
                    ..config
                },
            )
            &&& text.len() > 0 && pin is None ==> hook is Err && mute is Err
        }),
{
    lemma_sections_differ();
    lemma_hardware_keys_differ();
}

/// The level of the pin that mutes is low or high, as a word in any case or as a digit, or is
/// not set where nothing is written. Anything else is refused.
pub proof fn law_mute_level_is_set(config: ConfigModel, value: Seq<char>)
    ensures
        ({
            let word = crate::scan::lowered(crate::scan::trimmed(value));
            let after = config.with_setting("hardware"@, "amp_mute_level"@, value);
            &&& word.len() == 0 || word == "low"@ || word == "0"@ || word == "high"@ || word == "1"@
                ==> after == Ok::<ConfigModel, Seq<char>>(
                ConfigModel {
                    hardware: HardwareModel {
                        amp_mute_level: if word.len() == 0 {
                            None
                        } else if word == "low"@ || word == "0"@ {
                            Some(PinLevel::Low)
                        } else {
                            Some(PinLevel::High)
                        },
                        ..config.hardware
                    },
                    ..config
                },
            )
            &&& !(word.len() == 0 || word == "low"@ || word == "0"@ || word == "high"@ || word
                == "1"@) ==> after == Err::<ConfigModel, Seq<char>>("invalid pin level "@ + word)
        }),
{
    lemma_sections_differ();
    lemma_hardware_keys_differ();
    lemma_levels_differ();
    reveal_strlit("low");
    reveal_strlit("high");
    reveal_strlit("0");
    reveal_strlit("1");
}

/// What stands in another section, or has another key, sets nothing.
pub proof fn law_other_settings_set_nothing(
    config: ConfigModel,
    section: Seq<char>,
    key: Seq<char>,
    value: Seq<char>,
)
    requires
        section != "phonebook"@,
        section == "telephone"@ ==> key != "allowed_callers"@ && key != "blocked_callers"@ && key
            != "ringtone"@ && key != "speaker"@ && key != "microphone"@ && key != "ringer"@,
        section == "hardware"@ ==> key != "keypad"@ && key != "display"@ && key
            != "keypad_hook_pin"@ && key != "amp_mute_pin"@ && key != "amp_mute_level"@,
    ensures
        config.with_setting(section, key, value) == Ok::<ConfigModel, Seq<char>>(config),
{
}

/// An entry of the phonebook has the name before the sign, the hash that comes first, and the
/// digits of what comes second as its alias. It stands in the place of an entry of that name,
/// or at the end; nothing else is set. Without a value nothing is, and what is no hash is
/// refused.
pub proof fn law_phonebook_entries_are_set(config: ConfigModel, name: Seq<char>, value: Seq<char>)
    ensures
        ({
            let items = crate::scan::list_items(value);
            let after = config.with_setting("phonebook"@, name, value);
            &&& items.len() == 0 ==> after == Ok::<ConfigModel, Seq<char>>(config)
            &&& items.len() > 0 && !crate::hash_text::is_hash_text(items[0]) ==> after == Err::<
                ConfigModel,
                Seq<char>,
            >("invalid identity hash "@ + items[0])
            &&& items.len() > 0 && crate::hash_text::is_hash_text(items[0]) ==> {
                let digits = if items.len() > 1 {
                    crate::scan::digits_of(items[1])
                } else {
                    Seq::empty()
                };
                let entry = EntryModel {
                    name,
                    identity: crate::hash_text::hex_bytes(items[0]),
                    alias: if digits.len() == 0 {
                        None
                    } else {
                        Some(digits)
                    },
                };
                &&& after matches Ok(after)
                &&& after == (ConfigModel { phonebook: after.phonebook, ..config })
                &&& is_entered(config.phonebook, entry, after.phonebook)
            }
        }),
{
    lemma_sections_differ();
    let items = crate::scan::list_items(value);
    if items.len() > 0 {
        lemma_entered(
            config.phonebook,
            EntryModel {
                name,
                identity: crate::hash_text::hex_bytes(items[0]),
                alias: alias_of(items),
            },
        );
    }
}

/// Whether a phonebook is another one with an entry: in the place of the first of that name, or
/// at the end where there is none.
pub open spec fn is_entered(
    before: Seq<EntryModel>,
    entry: EntryModel,
    after: Seq<EntryModel>,
) -> bool {
    ||| after == before.push(entry) && forall|i: int|
        0 <= i < before.len() ==> (#[trigger] before[i]).name != entry.name
    ||| exists|i: int|
        0 <= i < before.len() && (#[trigger] before[i]).name == entry.name && after
            == before.update(i, entry) && forall|j: int|
            0 <= j < i ==> (#[trigger] before[j]).name != entry.name
}

proof fn lemma_entered(phonebook: Seq<EntryModel>, entry: EntryModel)
    ensures
        is_entered(phonebook, entry, with_entry(phonebook, entry)),
    decreases phonebook.len(),
{
    let after = with_entry(phonebook, entry);
    if phonebook.len() == 0 {
        assert(after =~= phonebook.push(entry));
    } else if phonebook[0].name == entry.name {
        assert(after =~= phonebook.update(0, entry));
    } else {
        let rest = phonebook.skip(1);
        let tail = with_entry(rest, entry);
        lemma_entered(rest, entry);
        if tail == rest.push(entry) && (forall|i: int|
            0 <= i < rest.len() ==> (#[trigger] rest[i]).name != entry.name) {
            assert(after =~= phonebook.push(entry));
            assert forall|i: int| 0 <= i < phonebook.len() implies (#[trigger] phonebook[i]).name
                != entry.name by {
                if i > 0 {
                    assert(rest[i - 1].name != entry.name);
                }
            }
        } else {
            let i = choose|i: int|
                0 <= i < rest.len() && (#[trigger] rest[i]).name == entry.name && tail
                    == rest.update(i, entry) && forall|j: int|
                    0 <= j < i ==> (#[trigger] rest[j]).name != entry.name;
            assert(after =~= phonebook.update(i + 1, entry));
            assert(phonebook[i + 1].name == entry.name);
            assert forall|j: int| 0 <= j < i + 1 implies (#[trigger] phonebook[j]).name
                != entry.name by {
                if j > 0 {
                    assert(rest[j - 1].name != entry.name);
                }
            }
        }
    }
}

/// What stands behind a comment sign is not read, and a line without anything else says
/// nothing.
pub proof fn law_comments_are_not_read(reader: ReaderModel, line: Seq<char>, comment: Seq<char>)
    requires
        !line.contains('#'),
    ensures
        reader.with_line(line + seq!['#'] + comment) == reader.with_line(line),
        crate::scan::trimmed(line).len() == 0 ==> reader.with_line(line) == Ok::<
            ReaderModel,
            Seq<char>,
        >(reader),
{
    let full = line + seq!['#'] + comment;
    crate::scan::law_place_is_the_first(full, '#');
    crate::scan::law_place_is_the_first(line, '#');
    let place = crate::scan::place_of(full, '#') as int;
    if place < line.len() {
        assert(full[place] == line[place]);
        assert(line.contains('#'));
    }
    if place > line.len() {
        assert(full[line.len() as int] == '#');
    }
    let end = crate::scan::place_of(line, '#') as int;
    if end < line.len() {
        assert(line.contains('#'));
    }
    assert(full.take(place) =~= line.take(end));
    assert(line.take(end) =~= line);
}

/// A line in square brackets names the section, without white space and in small letters, and
/// sets nothing.
pub proof fn law_brackets_name_the_section(reader: ReaderModel, line: Seq<char>)
    requires
        line_body(line).len() >= 2,
        line_body(line)[0] == '[',
        line_body(line).last() == ']',
    ensures
        reader.with_line(line) matches Ok(after) && after.config == reader.config && after.section
            == crate::std_text::lowercase_text(
            crate::scan::trimmed(line_body(line).subrange(1, line_body(line).len() - 1)),
        ),
{
}

/// A line with an equals sign sets what stands before it, in the section that was named last,
/// to what stands behind it, both trimmed; a line without one says nothing.
pub proof fn law_lines_set_keys_to_values(
    reader: ReaderModel,
    line: Seq<char>,
    key: Seq<char>,
    value: Seq<char>,
)
    requires
        !(line_body(line).len() > 0 && line_body(line)[0] == '[' && line_body(line).last() == ']'),
    ensures
        !line_body(line).contains('=') ==> reader.with_line(line) == Ok::<ReaderModel, Seq<char>>(
            reader,
        ),
        line_body(line) == key + seq!['='] + value && !key.contains('=') ==> match reader.with_line(
            line,
        ) {
            Ok(after) => after.section == reader.section && reader.config.with_setting(
                reader.section,
                crate::scan::trimmed(key),
                crate::scan::trimmed(value),
            ) == Ok::<ConfigModel, Seq<char>>(after.config),
            Err(error) => reader.config.with_setting(
                reader.section,
                crate::scan::trimmed(key),
                crate::scan::trimmed(value),
            ) == Err::<ConfigModel, Seq<char>>(error),
        },
{
    let body = line_body(line);
    let place = crate::scan::place_of(body, '=') as int;
    crate::scan::law_place_is_the_first(body, '=');
    if !body.contains('=') {
        if place < body.len() {
            assert(body[place] == '=');
        }
    }
    if body == key + seq!['='] + value && !key.contains('=') {
        if place < key.len() {
            assert(body[place] == key[place]);
            assert(key.contains('='));
        }
        if place > key.len() {
            assert(body[key.len() as int] == '=');
        }
        assert(body.take(place) =~= key);
        assert(body.skip(place + 1) =~= value);
    }
}

/// Lines are read one after another, and all of them, up to the first that is wrong.
pub proof fn law_lines_are_read_in_order(
    reader: ReaderModel,
    first: Seq<Seq<char>>,
    second: Seq<Seq<char>>,
)
    ensures
        reader.with_lines(first + second) == (match reader.with_lines(first) {
            Ok(middle) => middle.with_lines(second),
            Err(error) => Err(error),
        }),
    decreases first.len(),
{
    if first.len() == 0 {
        assert(first + second =~= second);
    } else {
        assert((first + second)[0] == first[0]);
        assert((first + second).skip(1) =~= first.skip(1) + second);
        if let Ok(next) = reader.with_line(first[0]) {
            law_lines_are_read_in_order(next, first.skip(1), second);
        }
    }
}

proof fn lemma_setting_keeps_blocked(
    config: ConfigModel,
    section: Seq<char>,
    key: Seq<char>,
    value: Seq<char>,
    hash: Seq<u8>,
)
    ensures
        config.with_setting(section, key, value) matches Ok(after) ==> (config.blocked.contains(
            hash,
        ) ==> after.blocked.contains(hash)),
{
    law_listed_hashes_are_added(config.blocked, crate::scan::list_items(value), hash);
}

/// Whoever is blocked stays so, whatever lines are read.
pub proof fn law_blocked_callers_stay_blocked(
    reader: ReaderModel,
    lines: Seq<Seq<char>>,
    hash: Seq<u8>,
)
    requires
        reader.config.blocked.contains(hash),
    ensures
        reader.with_lines(lines) matches Ok(after) ==> after.config.blocked.contains(hash),
    decreases lines.len(),
{
    if lines.len() > 0 {
        let body = line_body(lines[0]);
        let place = crate::scan::place_of(body, '=') as int;
        lemma_setting_keeps_blocked(
            reader.config,
            reader.section,
            crate::scan::trimmed(body.take(place)),
            crate::scan::trimmed(body.skip(place + 1)),
            hash,
        );
        if let Ok(next) = reader.with_line(lines[0]) {
            law_blocked_callers_stay_blocked(next, lines.skip(1), hash);
        }
    }
}

/// Whoever is listed in a line of the telephone section as blocked is blocked by the settings;
/// an item there that is no hash makes them wrong.
pub proof fn law_listed_callers_are_blocked(
    text: Seq<char>,
    index: int,
    key: Seq<char>,
    value: Seq<char>,
    item: Seq<char>,
)
    requires
        ({
            let lines = crate::scan::pieces(text, '\n');
            let start = ReaderModel { section: Seq::empty(), config: ConfigModel::fresh() };
            &&& 0 <= index < lines.len()
            &&& start.with_lines(lines.take(index)) matches Ok(before) && before.section
                == "telephone"@
            &&& line_body(lines[index]) == key + seq!['='] + value
            &&& !key.contains('=')
            &&& crate::scan::trimmed(key) == "blocked_callers"@
            &&& !(line_body(lines[index])[0] == '[' && line_body(lines[index]).last() == ']')
            &&& crate::scan::list_items(crate::scan::trimmed(value)).contains(item)
        }),
    ensures
        match config_of(text) {
            Ok(config) => crate::hash_text::is_hash_text(item) && config.blocked.contains(
                crate::hash_text::hex_bytes(item),
            ),
            Err(_) => true,
        },
        !crate::hash_text::is_hash_text(item) ==> config_of(text) is Err,
{
    let lines = crate::scan::pieces(text, '\n');
    let start = ReaderModel { section: Seq::empty(), config: ConfigModel::fresh() };
    let before = start.with_lines(lines.take(index))->Ok_0;
    let line = lines[index];
    let hash = crate::hash_text::hex_bytes(item);
    let items = crate::scan::list_items(crate::scan::trimmed(value));
    assert(lines =~= lines.take(index) + lines.skip(index));
    law_lines_are_read_in_order(start, lines.take(index), lines.skip(index));
    assert(lines.skip(index)[0] == line);
    law_lines_set_keys_to_values(before, line, key, value);
    law_blocked_callers_are_added(before.config, crate::scan::trimmed(value), hash);
    let k = choose|k: int| 0 <= k < items.len() && items[k] == item;
    if let Ok(next) = before.with_line(line) {
        assert(crate::hash_text::is_hash_text(items[k]));
        assert(next.config.blocked.contains(hash));
        law_blocked_callers_stay_blocked(next, lines.skip(index).skip(1), hash);
    }
}

/// Settings in which nothing is said let everybody call, block nobody, and name neither
/// devices nor hardware.
pub proof fn law_silent_settings(text: Seq<char>)
    requires
        forall|i: int|
            0 <= i < crate::scan::pieces(text, '\n').len() ==> line_body(
                #[trigger] crate::scan::pieces(text, '\n')[i],
            ).len() == 0,
    ensures
        config_of(text) matches Ok(config) && {
            &&& config.phonebook.len() == 0
            &&& config.allowed is All
            &&& !config.allow_phonebook
            &&& config.blocked == Set::<Seq<u8>>::empty()
            &&& config.devices.speaker is None && config.devices.microphone is None
                && config.devices.ringer is None
            &&& config.hardware.keypad is None && config.hardware.display is None
            &&& config.hardware.keypad_hook_pin is None && config.hardware.amp_mute_pin is None
            &&& config.hardware.amp_mute_level is None
            &&& config.ringtone is None
        },
{
    lemma_silent_lines(
        ReaderModel { section: Seq::empty(), config: ConfigModel::fresh() },
        crate::scan::pieces(text, '\n'),
    );
}

proof fn lemma_silent_lines(reader: ReaderModel, lines: Seq<Seq<char>>)
    requires
        forall|i: int| 0 <= i < lines.len() ==> line_body(#[trigger] lines[i]).len() == 0,
    ensures
        reader.with_lines(lines) == Ok::<ReaderModel, Seq<char>>(reader),
    decreases lines.len(),
{
    if lines.len() > 0 {
        let rest = lines.skip(1);
        assert(line_body(lines[0]).len() == 0);
        assert forall|i: int| 0 <= i < rest.len() implies line_body(#[trigger] rest[i]).len()
            == 0 by {
            assert(rest[i] == lines[i + 1]);
        }
        lemma_silent_lines(reader, rest);
    }
}

/// Settings that do not ask for it keep who may call as it was set, and everything else is kept
/// in any case.
pub proof fn law_phonebook_callers_change_nothing_else(config: ConfigModel)
    ensures
        !config.allow_phonebook ==> config.with_phonebook_callers() == config,
        config.with_phonebook_callers() == (ConfigModel {
            allowed: config.with_phonebook_callers().allowed,
            ..config
        }),
{
}

/// Taking the own identity out takes nobody else out: all others stay in the phonebook in their
/// order, stay blocked, and may call as before; the other settings are kept.
pub proof fn law_only_the_own_identity_is_taken_out(
    config: ConfigModel,
    own: Seq<u8>,
    other: Seq<u8>,
)
    requires
        other != own,
    ensures
        ({
            let after = config.finalized(own);
            &&& after.blocked.contains(other) == config.blocked.contains(other)
            &&& after.phonebook == config.phonebook.filter(
                |entry: EntryModel| entry.identity != own,
            )
            &&& config.allowed is All ==> after.allowed is All
            &&& config.allowed is Nobody ==> after.allowed is Nobody
            &&& config.allowed matches PolicyModel::List(allowed) ==> (
            after.allowed matches PolicyModel::List(kept) && (kept.contains(other) <==> (
            if config.allow_phonebook {
                exists|i: int|
                    0 <= i < config.phonebook.len() && (#[trigger] config.phonebook[i]).identity
                        == other
            } else {
                allowed.contains(other)
            })))
            &&& after.allow_phonebook == config.allow_phonebook
            &&& after.devices == config.devices
            &&& after.hardware == config.hardware
            &&& after.ringtone == config.ringtone
        }),
{
    lemma_without_keeps(config.phonebook, own, other);
    lemma_identities(config.phonebook, other);
    lemma_identities(without(config.phonebook, own), other);
}

proof fn lemma_without_keeps(phonebook: Seq<EntryModel>, own: Seq<u8>, other: Seq<u8>)
    requires
        other != own,
    ensures
        without(phonebook, own) == phonebook.filter(|entry: EntryModel| entry.identity != own),
        identities(without(phonebook, own)).contains(other) == identities(phonebook).contains(
            other,
        ),
    decreases phonebook.len(),
{
    reveal(Seq::filter);
    if phonebook.len() > 0 {
        let rest = phonebook.drop_last();
        lemma_without_keeps(rest, own, other);
        if phonebook.last().identity != own {
            let kept = without(rest, own);
            assert(kept.push(phonebook.last()).drop_last() =~= kept);
        }
    } else {
        assert(without(phonebook, own) =~= phonebook.filter(
            |entry: EntryModel| entry.identity != own,
        ));
    }
}

/// A dialled text stands for the first entry that has it as its alias, or as its name in any
/// case; where no entry has, for none.
pub proof fn law_dialled_entry_is_the_first(phonebook: Seq<EntryModel>, input: Seq<char>)
    ensures
        match dialled(phonebook, input) {
            Some(entry) => exists|i: int|
                0 <= i < phonebook.len() && #[trigger] phonebook[i] == entry && (entry.alias
                    == Some(input) || crate::scan::alike(entry.name, input)) && forall|j: int|
                    0 <= j < i ==> (#[trigger] phonebook[j]).alias != Some(input)
                        && !crate::scan::alike(phonebook[j].name, input),
            None => forall|j: int|
                0 <= j < phonebook.len() ==> (#[trigger] phonebook[j]).alias != Some(input)
                    && !crate::scan::alike(phonebook[j].name, input),
        },
    decreases phonebook.len(),
{
    if phonebook.len() > 0 {
        if phonebook[0].answers_to(input) {
            assert(phonebook[0] == dialled(phonebook, input)->0);
        } else {
            let rest = phonebook.skip(1);
            law_dialled_entry_is_the_first(rest, input);
            match dialled(rest, input) {
                Some(entry) => {
                    let i = choose|i: int|
                        0 <= i < rest.len() && #[trigger] rest[i] == entry && (entry.alias == Some(
                            input,
                        ) || crate::scan::alike(entry.name, input)) && forall|j: int|
                            0 <= j < i ==> (#[trigger] rest[j]).alias != Some(input)
                                && !crate::scan::alike(rest[j].name, input);
                    assert(phonebook[i + 1] == entry);
                    assert forall|j: int| 0 <= j < i + 1 implies (#[trigger] phonebook[j]).alias
                        != Some(input) && !crate::scan::alike(phonebook[j].name, input) by {
                        if j > 0 {
                            assert(rest[j - 1] == phonebook[j]);
                        }
                    }
                },
                None => {
                    assert forall|j: int| 0 <= j < phonebook.len() implies (
                    #[trigger] phonebook[j]).alias != Some(input) && !crate::scan::alike(
                        phonebook[j].name,
                        input,
                    ) by {
                        if j > 0 {
                            assert(rest[j - 1] == phonebook[j]);
                        }
                    }
                },
            }
        }
    }
}

/// The entry that an alias stands for is the first that has it.
pub proof fn law_aliased_entry_is_the_first(phonebook: Seq<EntryModel>, alias: Seq<char>)
    ensures
        match aliased(phonebook, alias) {
            Some(entry) => exists|i: int|
                0 <= i < phonebook.len() && #[trigger] phonebook[i] == entry && entry.alias == Some(
                    alias,
                ) && forall|j: int|
                    0 <= j < i ==> (#[trigger] phonebook[j]).alias != Some(alias),
            None => forall|j: int|
                0 <= j < phonebook.len() ==> (#[trigger] phonebook[j]).alias != Some(alias),
        },
    decreases phonebook.len(),
{
    if phonebook.len() > 0 {
        if phonebook[0].alias == Some(alias) {
            assert(phonebook[0] == aliased(phonebook, alias)->0);
        } else {
            let rest = phonebook.skip(1);
            law_aliased_entry_is_the_first(rest, alias);
            match aliased(rest, alias) {
                Some(entry) => {
                    let i = choose|i: int|
                        0 <= i < rest.len() && #[trigger] rest[i] == entry && entry.alias == Some(
                            alias,
                        ) && forall|j: int|
                            0 <= j < i ==> (#[trigger] rest[j]).alias != Some(alias);
                    assert(phonebook[i + 1] == entry);
                    assert forall|j: int| 0 <= j < i + 1 implies (#[trigger] phonebook[j]).alias
                        != Some(alias) by {
                        if j > 0 {
                            assert(rest[j - 1] == phonebook[j]);
                        }
                    }
                },
                None => {
                    assert forall|j: int| 0 <= j < phonebook.len() implies (
                    #[trigger] phonebook[j]).alias != Some(alias) by {
                        if j > 0 {
                            assert(rest[j - 1] == phonebook[j]);
                        }
                    }
                },
            }
        }
    }
}

/// A keypad or a display can be used exactly if none is named or the name is a known one; what
/// is refused is told by its name.
pub proof fn law_known_hardware_can_be_used(hardware: HardwareModel)
    ensures
        hardware.keypad_error() is None <==> (hardware.keypad matches Some(driver) ==> driver
            == "gpio_4x4"@ || driver == "gpio_5x5"@),
        hardware.keypad_error() matches Some(error) ==> error == "unknown keypad driver "@
            + hardware.keypad->0,
        hardware.display_error() is None <==> (hardware.display matches Some(driver) ==> driver
            == "i2c_lcd1602"@),
        hardware.display_error() matches Some(error) ==> error == "unknown display driver "@
            + hardware.display->0,
{
}

/// The keypad that is named has as many rows and columns as its name says, nothing pressed, and
/// a hook exactly if the hook has a pin.
pub proof fn law_named_keypad_is_used(hardware: HardwareModel)
    requires
        hardware.keypad_error() is None,
    ensures
        hardware.keypad is None <==> hardware.keypad_model() is None,
        hardware.keypad_model() matches Some(keypad) ==> {
            let side: usize = if hardware.keypad->0 == "gpio_4x4"@ {
                4
            } else {
                5
            };
            &&& keypad.rows == side && keypad.cols == side
            &&& keypad.down == Set::<crate::keypad::Key>::empty()
            &&& keypad.hook_last_active_ms is None
            &&& keypad.keys.contains(crate::keypad::Key::Hook) <==> hardware.keypad_hook_pin is Some
        },
{
    if let Some(keypad) = hardware.keypad_model() {
        if hardware.keypad_hook_pin is Some {
            assert(keypad.keys.last() == crate::keypad::Key::Hook || keypad.keys.contains(
                crate::keypad::Key::Hook,
            ));
            if keypad.keys.len() > 0 {
                assert(keypad.keys[keypad.keys.len() - 1] == keypad.keys.last());
            }
        }
    }
}

/// A path below a directory is the two with one slash between them, where the directory does
/// not end with one.
pub proof fn law_paths_are_joined_by_one_slash(dir: Seq<char>, path: Seq<char>)
    ensures
        dir.len() == 0 || dir.last() == '/' ==> joined(dir, path) == dir + path,
        dir.len() > 0 && dir.last() != '/' ==> joined(dir, path) == dir + seq!['/'] + path,
        is_absolute(path) <==> path.len() > 0 && path[0] == '/',
{
    reveal_strlit("/");
    assert("/"@ =~= seq!['/']);
}

/// An entry is named by its name, with its alias in brackets where it has one, and is dialled by
/// its alias, or else by its number.
pub proof fn law_entries_are_named_by_name_and_alias(entry: EntryModel, number: int)
    ensures
        entry.alias is None ==> entry.label() == entry.name && dial_text(entry, number)
            == crate::text::decimal_text(number as nat),
        entry.alias matches Some(alias) ==> entry.label() == entry.name + " ("@ + alias + ")"@
            && dial_text(entry, number) == alias,
{
}

/// The widths of the phonebook's columns are those of its longest name and alias.
pub proof fn law_columns_are_as_wide_as_the_longest(phonebook: Seq<EntryModel>)
    ensures
        forall|i: int|
            0 <= i < phonebook.len() ==> byte_len((#[trigger] phonebook[i]).name) <= name_width(
                phonebook,
            ),
        forall|i: int|
            0 <= i < phonebook.len() ==> ((#[trigger] phonebook[i]).alias matches Some(alias)
                ==> byte_len(alias) <= alias_width(phonebook)),
        name_width(phonebook) == 0 || exists|i: int|
            0 <= i < phonebook.len() && byte_len((#[trigger] phonebook[i]).name) == name_width(
                phonebook,
            ),
        alias_width(phonebook) == 0 || exists|i: int|
            0 <= i < phonebook.len() && ((#[trigger] phonebook[i]).alias matches Some(alias)
                && byte_len(alias) == alias_width(phonebook)),
    decreases phonebook.len(),
{
    if phonebook.len() > 0 {
        let rest = phonebook.drop_last();
        let last = phonebook.len() - 1;
        law_columns_are_as_wide_as_the_longest(rest);
        assert forall|i: int| 0 <= i < phonebook.len() implies byte_len(
            (#[trigger] phonebook[i]).name,
        ) <= name_width(phonebook) by {
            if i < rest.len() {
                assert(rest[i] == phonebook[i]);
            }
        }
        assert forall|i: int| 0 <= i < phonebook.len() implies ((
        #[trigger] phonebook[i]).alias matches Some(alias) ==> byte_len(alias) <= alias_width(
            phonebook,
        )) by {
            if i < rest.len() {
                assert(rest[i] == phonebook[i]);
            }
        }
        if name_width(phonebook) != byte_len(phonebook[last].name) && name_width(rest) != 0 {
            let i = choose|i: int|
                0 <= i < rest.len() && byte_len((#[trigger] rest[i]).name) == name_width(rest);
            assert(phonebook[i] == rest[i]);
        }
        assert(phonebook[last] == phonebook.last());
        if alias_width(rest) != 0 {
            let i = choose|i: int|
                0 <= i < rest.len() && ((#[trigger] rest[i]).alias matches Some(alias) && byte_len(
                    alias,
                ) == alias_width(rest));
            assert(phonebook[i] == rest[i]);
        }
    }
}

} // verus!
