//! The keypad and the display as a telephone that can be dialled on.
use crate::config::{HardwareConfig, RnphoneConfig};
use crate::identity::IdentityHash;
use crate::keypad::{Key, KeyTransition, KeypadEvent};
use crate::lcd::Lcd1602Buffer;
use crate::scan::is_decimal_digit;
use crate::telephony::CallState;
use crate::text::{chars_of, text_of_range};
use crate::time::Nanos;
use vstd::prelude::*;

verus! {

/// After how long without use the display sleeps.
pub const HW_SLEEP_TIMEOUT: Nanos = 15_000_000_000;

/// What the keypad is used for.
#[derive(Debug, Clone, Copy, PartialEq, Eq, Structural)]
pub enum HardwareMode {
    Idle,
    Dial,
    Sleep,
}

/// What a key asks for.
#[derive(Debug, Clone, Copy, PartialEq, Eq)]
pub enum HardwareAction {
    Nothing,
    Answer,
    Reject,
    Hangup,
    Dial(IdentityHash),
}

/// What a key asks for, as a mathematical value.
pub enum ActionModel {
    Nothing,
    Answer,
    Reject,
    Hangup,
    Dial(Seq<u8>),
}

impl View for HardwareAction {
    type V = ActionModel;

    open spec fn view(&self) -> ActionModel {
        match self {
            HardwareAction::Nothing => ActionModel::Nothing,
            HardwareAction::Answer => ActionModel::Answer,
            HardwareAction::Reject => ActionModel::Reject,
            HardwareAction::Hangup => ActionModel::Hangup,
            HardwareAction::Dial(identity_hash) => ActionModel::Dial(identity_hash@),
        }
    }
}

/// Whether a key went down.
pub open spec fn goes_down(event: KeypadEvent, key: char) -> bool {
    event.key == Key::Char(key) && event.transition is Down
}

/// Whether the hook went up.
pub open spec fn hook_goes_up(event: KeypadEvent) -> bool {
    event.key is Hook && event.transition is Up
}

/// Whether the hook went down.
pub open spec fn hook_goes_down(event: KeypadEvent) -> bool {
    event.key is Hook && event.transition is Down
}

/// The digit whose key went down, if it is one.
pub open spec fn digit_down(event: KeypadEvent) -> Option<char> {
    match event.key {
        Key::Char(ch) => if event.transition is Down && crate::scan::is_digit(ch) {
            Some(ch)
        } else {
            None
        },
        Key::Hook => None,
    }
}

/// The digit whose key went down, if it is one.
pub fn down_digit(event: KeypadEvent) -> (digit: Option<char>)
    ensures
        digit == digit_down(event),
{
    match event.key {
        Key::Char(ch) => {
            if event.transition == KeyTransition::Down && is_decimal_digit(ch) {
                Some(ch)
            } else {
                None
            }
        },
        Key::Hook => None,
    }
}

/// Whether a key went down.
pub fn is_key_down(event: KeypadEvent, key: char) -> (down: bool)
    ensures
        down == goes_down(event, key),
{
    event.key == Key::Char(key) && event.transition == KeyTransition::Down
}

/// Whether the hook went down.
pub fn is_hook_down(event: KeypadEvent) -> (down: bool)
    ensures
        down == hook_goes_down(event),
{
    event.key == Key::Hook && event.transition == KeyTransition::Down
}

/// Whether the hook went up.
pub fn is_hook_up(event: KeypadEvent) -> (up: bool)
    ensures
        up == hook_goes_up(event),
{
    event.key == Key::Hook && event.transition == KeyTransition::Up
}

/// How the display changes.
pub enum DisplayChange {
    /// It stays as it is.
    Keep,
    /// It says that the telephone is ready.
    Ready,
    /// It shows what was dialled so far.
    Dialling,
}

/// What a key brings about.
pub struct UiStep {
    pub mode: HardwareMode,
    pub input: Seq<char>,
    pub action: ActionModel,
    pub display: DisplayChange,
}

/// The keypad and the display as a mathematical value.
#[verifier::ext_equal]
pub struct UiModel {
    pub mode: HardwareMode,
    /// What was dialled so far.
    pub input: Seq<char>,
    pub display: Option<crate::lcd::LcdModel>,
}

/// What a display shows while the telephone is ready.
pub open spec fn ready_lcd() -> crate::lcd::LcdModel {
    crate::lcd::LcdModel {
        top: "Telephone Ready "@,
        bottom: crate::lcd::blank_row(),
        sleeping: false,
    }
}

/// Whether a row shows some text, cut off or filled with spaces.
pub open spec fn shows(row: Seq<char>, text: Seq<char>) -> bool {
    &&& row.len() == Lcd1602Buffer::COLS
    &&& forall|i: int|
        0 <= i < row.len() ==> #[trigger] row[i] == (if i < text.len() {
            text[i]
        } else {
            ' '
        })
}

/// What is shown of who has a number.
pub open spec fn lookup_text(
    phonebook: Seq<crate::config::EntryModel>,
    input: Seq<char>,
) -> Seq<char> {
    if input.len() == 0 {
        "Enter number"@
    } else {
        match crate::config::aliased(phonebook, input) {
            Some(entry) => entry.name,
            None => "Unknown"@,
        }
    }
}

/// Whether a display changed as it should.
pub open spec fn display_changed(
    before: Option<crate::lcd::LcdModel>,
    change: DisplayChange,
    phonebook: Seq<crate::config::EntryModel>,
    input: Seq<char>,
    after: Option<crate::lcd::LcdModel>,
) -> bool {
    match (before, after) {
        (None, None) => true,
        (Some(before), Some(after)) => match change {
            DisplayChange::Keep => after == before,
            DisplayChange::Ready => after == ready_lcd(),
            DisplayChange::Dialling => {
                &&& shows(after.top, input)
                &&& shows(after.bottom, lookup_text(phonebook, input))
                &&& !after.sleeping
            },
        },
        _ => false,
    }
}

impl UiModel {
    /// What holds of every such telephone.
    pub open spec fn sound(self) -> bool {
        self.display matches Some(display) ==> display.sound()
    }

    /// What a key brings about while a number is dialled.
    pub open spec fn dial_step(
        self,
        event: KeypadEvent,
        phonebook: Seq<crate::config::EntryModel>,
    ) -> UiStep {
        let typed = if digit_down(event) is Some {
            self.input.push(digit_down(event)->0)
        } else if goes_down(event, 'B') {
            if self.input.len() > 0 {
                self.input.drop_last()
            } else {
                self.input
            }
        } else if goes_down(event, 'C') {
            Seq::empty()
        } else {
            self.input
        };
        let dials = goes_down(event, 'D') || hook_goes_up(event);
        if goes_down(event, 'A') {
            UiStep {
                mode: HardwareMode::Idle,
                input: Seq::empty(),
                action: ActionModel::Nothing,
                display: DisplayChange::Ready,
            }
        } else if dials && crate::config::dialled(phonebook, typed) is Some {
            UiStep {
                mode: HardwareMode::Idle,
                input: Seq::empty(),
                action: ActionModel::Dial(crate::config::dialled(phonebook, typed)->0.identity),
                display: DisplayChange::Keep,
            }
        } else {
            UiStep {
                mode: HardwareMode::Dial,
                input: typed,
                action: ActionModel::Nothing,
                display: DisplayChange::Dialling,
            }
        }
    }

    /// What a key brings about. A display that sleeps is woken first.
    pub open spec fn step(
        self,
        event: KeypadEvent,
        call_state: CallState,
        phonebook: Seq<crate::config::EntryModel>,
    ) -> UiStep {
        let slept = self.mode is Sleep;
        let kept = UiStep {
            mode: if slept {
                HardwareMode::Idle
            } else {
                self.mode
            },
            input: if slept {
                Seq::empty()
            } else {
                self.input
            },
            action: ActionModel::Nothing,
            display: if slept {
                DisplayChange::Ready
            } else {
                DisplayChange::Keep
            },
        };
        match call_state {
            CallState::Ringing => UiStep {
                action: if goes_down(event, 'D') || hook_goes_up(event) {
                    ActionModel::Answer
                } else if goes_down(event, 'C') {
                    ActionModel::Reject
                } else {
                    ActionModel::Nothing
                },
                ..kept
            },
            CallState::Calling | CallState::Connecting | CallState::Established => UiStep {
                action: if goes_down(event, 'D') || hook_goes_down(event) {
                    ActionModel::Hangup
                } else {
                    ActionModel::Nothing
                },
                ..kept
            },
            CallState::Available => if self.mode is Dial {
                self.dial_step(event, phonebook)
            } else if goes_down(event, 'A') {
                UiStep {
                    mode: HardwareMode::Dial,
                    input: Seq::empty(),
                    display: DisplayChange::Dialling,
                    ..kept
                }
            } else if digit_down(event) is Some {
                UiStep {
                    mode: HardwareMode::Dial,
                    input: kept.input.push(digit_down(event)->0),
                    display: DisplayChange::Dialling,
                    ..kept
                }
            } else {
                kept
            },
            CallState::Terminating => kept,
        }
    }

    /// Whether a key led from one state to another, and asked for an action.
    pub open spec fn handles(
        self,
        event: KeypadEvent,
        call_state: CallState,
        phonebook: Seq<crate::config::EntryModel>,
        action: ActionModel,
        after: UiModel,
    ) -> bool {
        let step = self.step(event, call_state, phonebook);
        &&& action == step.action
        &&& after.mode == step.mode
        &&& after.input == step.input
        &&& display_changed(self.display, step.display, phonebook, step.input, after.display)
    }

    /// The telephone ready: nothing is dialled, and the display says so.
    pub open spec fn made_ready(self) -> UiModel {
        UiModel {
            mode: HardwareMode::Idle,
            input: Seq::empty(),
            display: match self.display {
                Some(_) => Some(ready_lcd()),
                None => None,
            },
        }
    }

    /// The telephone asleep.
    pub open spec fn put_to_sleep(self) -> UiModel {
        UiModel {
            mode: HardwareMode::Sleep,
            display: match self.display {
                Some(display) => Some(
                    crate::lcd::LcdModel { sleeping: true, ..display.cleared() },
                ),
                None => None,
            },
            ..self
        }
    }

    /// Whether the display is to sleep.
    pub open spec fn tires(self, idle_for: Nanos, call_state: CallState, busy: bool) -> bool {
        &&& call_state is Available
        &&& self.mode is Idle
        &&& !busy
        &&& idle_for >= HW_SLEEP_TIMEOUT
    }
}

/// The keypad and the display as a telephone that can be dialled on.
#[derive(Debug)]
pub struct HardwareUi {
    pub mode: HardwareMode,
    pub input: String,
    pub display: Option<Lcd1602Buffer>,
}

impl View for HardwareUi {
    type V = UiModel;

    open spec fn view(&self) -> UiModel {
        UiModel {
            mode: self.mode,
            input: self.input@,
            display: match self.display {
                Some(display) => Some(display@),
                None => None,
            },
        }
    }
}

/// Shows that the telephone is ready.
fn show_ready(display: &mut Lcd1602Buffer)
    requires
        old(display).wf(),
    ensures
        final(display).wf(),
        final(display)@ == ready_lcd(),
{
    display.clear();
    display.print("Telephone Ready", 0, 0);
    display.print("", 0, 1);
    proof {
        reveal_strlit("Telephone Ready");
        reveal_strlit("Telephone Ready ");
        reveal_strlit("");
        assert(display@.top =~= "Telephone Ready "@);
        assert(display@.bottom =~= crate::lcd::blank_row());
    }
}

/// Shows what was dialled so far, and who has that number.
fn show_dialling(display: &mut Lcd1602Buffer, input: &str, name: &str)
    requires
        old(display).wf(),
    ensures
        final(display).wf(),
        shows(final(display)@.top, input@),
        shows(final(display)@.bottom, name@),
        !final(display)@.sleeping,
{
    display.print(input, 0, 0);
    display.print(name, 0, 1);
}

impl HardwareUi {
    /// What holds of every such telephone.
    pub open spec fn wf(&self) -> bool {
        self@.sound()
    }

    /// A telephone, with or without a display.
    pub fn new(display_enabled: bool) -> (ui: Self)
        ensures
            ui.wf(),
            ui@ == (UiModel {
                mode: HardwareMode::Idle,
                input: Seq::empty(),
                display: if display_enabled {
                    Some(
                        crate::lcd::LcdModel {
                            top: crate::lcd::blank_row(),
                            bottom: crate::lcd::blank_row(),
                            sleeping: false,
                        },
                    )
                } else {
                    None
                },
            }),
    {
        let ui = HardwareUi {
            mode: HardwareMode::Idle,
            input: String::new(),
            display: if display_enabled {
                Some(Lcd1602Buffer::new())
            } else {
                None
            },
        };
        assert(ui.input@ =~= Seq::<char>::empty());
        ui
    }

    /// The telephone that is set, where all of the hardware can be used.
    pub fn from_config(config: &HardwareConfig) -> (ui: Result<Self, String>)
        ensures
            match ui {
                Ok(ui) => {
                    &&& config@.keypad_error() is None && config@.display_error() is None
                    &&& ui.wf()
                    &&& ui@.mode is Idle && ui@.input.len() == 0
                    &&& ui@.display is Some == config@.display is Some
                    &&& ui@.display matches Some(display) ==> display == (crate::lcd::LcdModel {
                        top: crate::lcd::blank_row(),
                        bottom: crate::lcd::blank_row(),
                        sleeping: false,
                    })
                },
                Err(error) => if config@.keypad_error() is Some {
                    config@.keypad_error() == Some(error@)
                } else {
                    config@.display_error() == Some(error@)
                },
            },
    {
        match config.validate() {
            Ok(()) => {},
            Err(error) => return Err(error),
        }
        match config.display_enabled() {
            Ok(enabled) => Ok(HardwareUi::new(enabled)),
            Err(error) => Err(error),
        }
    }

    /// Makes the telephone ready.
    pub fn became_available(&mut self)
        requires
            old(self).wf(),
        ensures
            final(self).wf(),
            final(self)@ == old(self)@.made_ready(),
    {
        let mut display: Option<Lcd1602Buffer> = None;
        core::mem::swap(&mut display, &mut self.display);
        self.display = match display {
            Some(display) => {
                let mut display = display;
                show_ready(&mut display);
                Some(display)
            },
            None => None,
        };
        self.input = String::new();
        self.mode = HardwareMode::Idle;
        proof {
            reveal_strlit("Telephone Ready ");
            assert(self.input@ =~= Seq::<char>::empty());
        }
    }

    /// Puts the telephone to sleep.
    pub fn sleep(&mut self)
        requires
            old(self).wf(),
        ensures
            final(self).wf(),
            final(self)@ == old(self)@.put_to_sleep(),
    {
        self.mode = HardwareMode::Sleep;
        let mut display: Option<Lcd1602Buffer> = None;
        core::mem::swap(&mut display, &mut self.display);
        self.display = match display {
            Some(display) => {
                let mut display = display;
                display.sleep();
                Some(display)
            },
            None => None,
        };
    }

    /// Puts the telephone to sleep where it was not used for long enough, and says whether.
    pub fn sleep_if_idle(&mut self, idle_for: Nanos, call_state: CallState, telephone_busy: bool) -> (
    asleep: bool)
        requires
            old(self).wf(),
        ensures
            final(self).wf(),
            asleep == old(self)@.tires(idle_for, call_state, telephone_busy),
            asleep ==> final(self)@ == old(self)@.put_to_sleep(),
            !asleep ==> *final(self) == *old(self),
    {
        if call_state == CallState::Available && self.mode == HardwareMode::Idle && !telephone_busy
            && idle_for >= HW_SLEEP_TIMEOUT {
            self.sleep();
            true
        } else {
            false
        }
    }

    /// Handles a key, and says what it asks for.
    pub fn handle_keypad_event(
        &mut self,
        event: KeypadEvent,
        call_state: CallState,
        config: &RnphoneConfig,
    ) -> (action: HardwareAction)
        requires
            old(self).wf(),
        ensures
            final(self).wf(),
            old(self)@.handles(event, call_state, config@.phonebook, action@, final(self)@),
    {
        if self.mode == HardwareMode::Sleep {
            self.became_available();
        }
        match call_state {
            CallState::Ringing => {
                if is_key_down(event, 'D') || is_hook_up(event) {
                    HardwareAction::Answer
                } else if is_key_down(event, 'C') {
                    HardwareAction::Reject
                } else {
                    HardwareAction::Nothing
                }
            },
            CallState::Calling | CallState::Connecting | CallState::Established => {
                if is_key_down(event, 'D') || is_hook_down(event) {
                    HardwareAction::Hangup
                } else {
                    HardwareAction::Nothing
                }
            },
            CallState::Available => {
                if self.mode == HardwareMode::Idle {
                    if is_key_down(event, 'A') {
                        self.input = String::new();
                        assert(self.input@ =~= Seq::<char>::empty());
                        self.mode = HardwareMode::Dial;
                        self.update_display(config);
                    } else if let Some(digit) = down_digit(event) {
                        self.input.push(digit);
                        self.mode = HardwareMode::Dial;
                        self.update_display(config);
                    }
                    HardwareAction::Nothing
                } else {
                    self.handle_dial_event(event, config)
                }
            },
            CallState::Terminating => HardwareAction::Nothing,
        }
    }

    fn handle_dial_event(&mut self, event: KeypadEvent, config: &RnphoneConfig) -> (
    action: HardwareAction)
        requires
            old(self).wf(),
            old(self).mode is Dial,
        ensures
            final(self).wf(),
            ({
                let step = old(self)@.dial_step(event, config@.phonebook);
                &&& action@ == step.action
                &&& final(self)@.mode == step.mode
                &&& final(self)@.input == step.input
                &&& display_changed(
                    old(self)@.display,
                    step.display,
                    config@.phonebook,
                    step.input,
                    final(self)@.display,
                )
            }),
    {
        if let Some(digit) = down_digit(event) {
            self.input.push(digit);
        } else if is_key_down(event, 'A') {
            self.became_available();
        } else if is_key_down(event, 'B') {
            let chars = chars_of(self.input.as_str());
            if chars.len() > 0 {
                self.input = text_of_range(&chars, 0, chars.len() - 1);
                assert(self.input@ =~= old(self).input@.drop_last());
            }
        } else if is_key_down(event, 'C') {
            self.input = String::new();
            assert(self.input@ =~= Seq::<char>::empty());
        }
        if is_key_down(event, 'D') || is_hook_up(event) {
            if let Some(target) = config.resolve_dial_target(self.input.as_str()) {
                self.input = String::new();
                assert(self.input@ =~= Seq::<char>::empty());
                self.mode = HardwareMode::Idle;
                return HardwareAction::Dial(target.identity_hash);
            }
        }
        self.update_display(config);
        HardwareAction::Nothing
    }

    /// Shows what was dialled so far, while a number is dialled.
    fn update_display(&mut self, config: &RnphoneConfig)
        requires
            old(self).wf(),
        ensures
            final(self).wf(),
            final(self).mode == old(self).mode,
            final(self).input == old(self).input,
            !(old(self).mode is Dial) ==> final(self)@ == old(self)@,
            old(self).mode is Dial ==> display_changed(
                old(self)@.display,
                DisplayChange::Dialling,
                config@.phonebook,
                old(self)@.input,
                final(self)@.display,
            ),
    {
        if self.mode != HardwareMode::Dial {
            return;
        }
        let mut display: Option<Lcd1602Buffer> = None;
        core::mem::swap(&mut display, &mut self.display);
        self.display = match display {
            Some(display) => {
                let mut display = display;
                let input = self.input.as_str();
                let name = if input.is_empty() {
                    "Enter number"
                } else {
                    match config.resolve_dial_alias_name(input) {
                        Some(name) => name,
                        None => "Unknown",
                    }
                };
                show_dialling(&mut display, input, name);
                Some(display)
            },
            None => None,
        };
    }
}

/// A key that is pressed while the display sleeps wakes it, and counts all the same.
pub proof fn law_sleeping_telephone_takes_the_key(
    ui: UiModel,
    event: KeypadEvent,
    call_state: CallState,
    phonebook: Seq<crate::config::EntryModel>,
)
    requires
        ui.mode is Sleep,
    ensures
        ui.step(event, call_state, phonebook).action == ui.made_ready().step(
            event,
            call_state,
            phonebook,
        ).action,
        ui.step(event, call_state, phonebook).mode == ui.made_ready().step(
            event,
            call_state,
            phonebook,
        ).mode,
        ui.step(event, call_state, phonebook).input == ui.made_ready().step(
            event,
            call_state,
            phonebook,
        ).input,
        !(ui.step(event, call_state, phonebook).mode is Sleep),
{
}

/// Nobody is dialled while there is a call, and nothing is answered or hung up while there is
/// none.
pub proof fn law_keys_fit_the_call(
    ui: UiModel,
    event: KeypadEvent,
    call_state: CallState,
    phonebook: Seq<crate::config::EntryModel>,
)
    ensures
        ({
            let action = ui.step(event, call_state, phonebook).action;
            &&& action is Dial ==> call_state is Available
            &&& action is Answer || action is Reject ==> call_state is Ringing
            &&& action is Hangup ==> call_state is Calling || call_state is Connecting
                || call_state is Established
        }),
{
}

/// Only identities of the phonebook are dialled.
pub proof fn law_dialled_identity_is_in_the_phonebook(
    ui: UiModel,
    event: KeypadEvent,
    call_state: CallState,
    phonebook: Seq<crate::config::EntryModel>,
)
    ensures
        ui.step(event, call_state, phonebook).action matches ActionModel::Dial(identity) ==> exists|
            i: int,
        |
            0 <= i < phonebook.len() && (#[trigger] phonebook[i]).identity == identity,
{
    if let ActionModel::Dial(identity) = ui.step(event, call_state, phonebook).action {
        lemma_dialled(phonebook, ui.input);
    }
}

proof fn lemma_dialled(phonebook: Seq<crate::config::EntryModel>, input: Seq<char>)
    ensures
        crate::config::dialled(phonebook, input) matches Some(entry) ==> exists|i: int|
            0 <= i < phonebook.len() && #[trigger] phonebook[i] == entry,
    decreases phonebook.len(),
{
    if phonebook.len() > 0 {
        let rest = phonebook.skip(1);
        lemma_dialled(rest, input);
        if crate::config::dialled(rest, input) is Some {
            let i = choose|i: int|
                0 <= i < rest.len() && #[trigger] rest[i] == crate::config::dialled(
                    rest,
                    input,
                )->0;
            assert(phonebook[i + 1] == rest[i]);
        }
        assert(phonebook[0] == phonebook[0]);
    }
}

/// While somebody calls, `D` or lifting the receiver answers, `C` refuses, and no other key
/// does anything.
pub proof fn law_ringing_call_is_answered_or_refused(
    ui: UiModel,
    event: KeypadEvent,
    phonebook: Seq<crate::config::EntryModel>,
    action: ActionModel,
    after: UiModel,
)
    requires
        ui.handles(event, CallState::Ringing, phonebook, action, after),
    ensures
        action is Answer <==> (event == (KeypadEvent {
            key: Key::Char('D'),
            transition: KeyTransition::Down,
        }) || event == (KeypadEvent { key: Key::Hook, transition: KeyTransition::Up })),
        action is Reject <==> event == (KeypadEvent {
            key: Key::Char('C'),
            transition: KeyTransition::Down,
        }),
        action is Answer || action is Reject || action is Nothing,
        !(ui.mode is Sleep) ==> after == ui,
{
}

/// During a call `D` or putting the receiver down hangs up, and no other key does anything.
pub proof fn law_call_is_hung_up(
    ui: UiModel,
    event: KeypadEvent,
    call_state: CallState,
    phonebook: Seq<crate::config::EntryModel>,
    action: ActionModel,
    after: UiModel,
)
    requires
        call_state is Calling || call_state is Connecting || call_state is Established,
        ui.handles(event, call_state, phonebook, action, after),
    ensures
        action is Hangup <==> (event == (KeypadEvent {
            key: Key::Char('D'),
            transition: KeyTransition::Down,
        }) || event == (KeypadEvent { key: Key::Hook, transition: KeyTransition::Down })),
        action is Hangup || action is Nothing,
        !(ui.mode is Sleep) ==> after == ui,
{
}

/// Keys do nothing while a call ends.
pub proof fn law_ending_call_takes_no_keys(
    ui: UiModel,
    event: KeypadEvent,
    phonebook: Seq<crate::config::EntryModel>,
    action: ActionModel,
    after: UiModel,
)
    requires
        !(ui.mode is Sleep),
        ui.handles(event, CallState::Terminating, phonebook, action, after),
    ensures
        action is Nothing,
        after == ui,
{
}

/// A digit that goes down is typed behind what was typed before; letters, and keys that come
/// up, are not digits.
pub proof fn law_digits_are_typed(
    ui: UiModel,
    digit: char,
    transition: KeyTransition,
    phonebook: Seq<crate::config::EntryModel>,
    action: ActionModel,
    after: UiModel,
)
    requires
        !(ui.mode is Sleep),
        '0' <= digit <= '9',
        ui.handles(
            KeypadEvent { key: Key::Char(digit), transition },
            CallState::Available,
            phonebook,
            action,
            after,
        ),
    ensures
        action is Nothing,
        transition is Down ==> after.mode is Dial && after.input == ui.input + seq![digit],
        !(transition is Down) ==> after.mode == ui.mode && after.input == ui.input,
{
    assert(ui.input + seq![digit] =~= ui.input.push(digit));
}

/// While a number is typed, `B` takes its last digit away, `C` takes all of them, and `A` leaves
/// it.
pub proof fn law_typed_number_is_corrected(
    ui: UiModel,
    key: char,
    phonebook: Seq<crate::config::EntryModel>,
    action: ActionModel,
    after: UiModel,
)
    requires
        ui.mode is Dial,
        key == 'A' || key == 'B' || key == 'C',
        ui.handles(
            KeypadEvent { key: Key::Char(key), transition: KeyTransition::Down },
            CallState::Available,
            phonebook,
            action,
            after,
        ),
    ensures
        action is Nothing,
        key == 'B' ==> after.mode is Dial && (forall|digit: char, before: Seq<char>|
            ui.input == #[trigger] before.push(digit) ==> after.input == before),
        key == 'B' && ui.input.len() == 0 ==> after.mode is Dial && after.input.len() == 0,
        key == 'C' ==> after.mode is Dial && after.input.len() == 0,
        key == 'A' ==> after.mode is Idle && after.input.len() == 0,
{
    assert forall|digit: char, before: Seq<char>| ui.input == #[trigger] before.push(digit) implies (
    key == 'B' ==> after.input == before) by {
        assert(before.push(digit).drop_last() =~= before);
    }
}

/// `D`, or lifting the receiver, dials the entry of the phonebook that was typed; where there is
/// none, the number stays to be typed on.
pub proof fn law_typed_number_is_dialled(
    ui: UiModel,
    event: KeypadEvent,
    phonebook: Seq<crate::config::EntryModel>,
    action: ActionModel,
    after: UiModel,
)
    requires
        ui.mode is Dial,
        event == (KeypadEvent { key: Key::Char('D'), transition: KeyTransition::Down }) || event
            == (KeypadEvent { key: Key::Hook, transition: KeyTransition::Up }),
        ui.handles(event, CallState::Available, phonebook, action, after),
    ensures
        match crate::config::dialled(phonebook, ui.input) {
            Some(entry) => {
                &&& action == ActionModel::Dial(entry.identity)
                &&& after.mode is Idle
                &&& after.input.len() == 0
                &&& after.display == ui.display
            },
            None => action is Nothing && after.mode is Dial && after.input == ui.input,
        },
{
}

/// Where no number is typed yet, `A` begins one, and neither `D` nor the receiver dials.
pub proof fn law_typing_begins(
    ui: UiModel,
    event: KeypadEvent,
    phonebook: Seq<crate::config::EntryModel>,
    action: ActionModel,
    after: UiModel,
)
    requires
        ui.mode is Idle,
        ui.handles(event, CallState::Available, phonebook, action, after),
    ensures
        action is Nothing,
        event == (KeypadEvent { key: Key::Char('A'), transition: KeyTransition::Down })
            ==> after.mode is Dial && after.input.len() == 0,
        event.key is Hook || event.key == Key::Char('B') || event.key == Key::Char('C')
            || event.key == Key::Char('D') || event.transition is Up ==> after == ui,
{
}

/// While a number is typed, the upper row of the display shows it and the lower row shows whom
/// it belongs to.
pub proof fn law_typed_number_is_shown(
    ui: UiModel,
    event: KeypadEvent,
    phonebook: Seq<crate::config::EntryModel>,
    action: ActionModel,
    after: UiModel,
    place: int,
)
    requires
        ui.mode is Dial,
        0 <= place < 16,
        ui.handles(event, CallState::Available, phonebook, action, after),
    ensures
        after.display is Some <==> ui.display is Some,
        after.display matches Some(display) ==> after.mode is Dial ==> {
            &&& !display.sleeping
            &&& place < after.input.len() ==> display.top[place] == after.input[place]
            &&& place >= after.input.len() ==> display.top[place] == ' '
            &&& ({
                let name = if after.input.len() == 0 {
                    "Enter number"@
                } else {
                    match crate::config::aliased(phonebook, after.input) {
                        Some(entry) => entry.name,
                        None => "Unknown"@,
                    }
                };
                &&& place < name.len() ==> display.bottom[place] == name[place]
                &&& place >= name.len() ==> display.bottom[place] == ' '
            })
        },
        after.display matches Some(display) ==> after.mode is Idle && action is Nothing ==> {
            &&& display.top == "Telephone Ready "@
            &&& display.bottom[place] == ' '
            &&& !display.sleeping
        },
{
}

/// A key wakes a sleeping telephone: the display lights up and says that it is ready, or shows
/// the number that the key began.
pub proof fn law_key_wakes_the_telephone(
    ui: UiModel,
    event: KeypadEvent,
    call_state: CallState,
    phonebook: Seq<crate::config::EntryModel>,
    action: ActionModel,
    after: UiModel,
)
    requires
        ui.mode is Sleep,
        ui.handles(event, call_state, phonebook, action, after),
    ensures
        !(after.mode is Sleep),
        after.display matches Some(display) ==> !display.sleeping,
        after.mode is Idle ==> after.input.len() == 0,
        after.mode is Idle ==> (after.display matches Some(display) ==> display.top
            == "Telephone Ready "@),
        !(call_state is Available) ==> after.mode is Idle,
{
}

/// The telephone goes to sleep after fifteen seconds without use, where there is no call and no
/// number is typed; its display is then dark and empty, and nothing that was typed is lost.
pub proof fn law_idle_telephone_goes_to_sleep(
    ui: UiModel,
    idle_for: Nanos,
    call_state: CallState,
    busy: bool,
    place: int,
)
    requires
        0 <= place < 16,
    ensures
        ui.tires(idle_for, call_state, busy) <==> (call_state is Available && ui.mode is Idle
            && !busy && idle_for >= 15_000_000_000),
        ui.put_to_sleep().mode is Sleep,
        ui.put_to_sleep().input == ui.input,
        ui.put_to_sleep().display is Some <==> ui.display is Some,
        ui.put_to_sleep().display matches Some(display) ==> display.sleeping && display.top[place]
            == ' ' && display.bottom[place] == ' ',
{
}

/// A telephone that becomes ready says so on its display, and nothing is typed on it.
pub proof fn law_ready_telephone_says_so(ui: UiModel, place: int)
    requires
        0 <= place < 16,
    ensures
        ui.made_ready().mode is Idle,
        ui.made_ready().input.len() == 0,
        ui.made_ready().display is Some <==> ui.display is Some,
        ui.made_ready().display matches Some(display) ==> display.top == "Telephone Ready "@
            && display.bottom[place] == ' ' && !display.sleeping,
{
}

} // verus!
