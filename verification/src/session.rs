//! The telephone program between the network, the keypad and the sound: what happens, and what
//! is to be done about it.
use crate::config::RnphoneConfig;
use crate::hash_text::{hex, pretty_hash};
use crate::identity::{same_identity, IdentityHash};
use crate::keypad::KeypadEvent;
use crate::network::{telephony_dest_hash, TelephonyNetworkEvent};
use crate::packet::LxstPacket;
use crate::profile::CallProfile;
use crate::signalling::{Signal, SignalCode};
use crate::telephony::{CallState, Telephone, TelephoneConfig, TelephoneModel};
use crate::text::decimal;
use crate::time::Nanos;
use crate::ui::{HardwareAction, HardwareUi};
use vstd::prelude::*;

verus! {

/// What is to be done.
#[derive(Debug, PartialEq)]
pub enum SessionAction {
    /// Send a signal on a link.
    SendSignal { link_id: [u8; 16], signal: Signal },
    StartRinger,
    StopRinger,
    /// Let sound be sent and played.
    StartAudio { link_id: [u8; 16], profile: CallProfile },
    StopAudio,
    /// Close a link.
    TeardownLink { link_id: [u8; 16] },
    /// Say something to the user.
    Say(String),
}

/// What is to be done, as a mathematical value.
pub enum Effect {
    SendSignal { link_id: [u8; 16], signal: Signal },
    StartRinger,
    StopRinger,
    StartAudio { link_id: [u8; 16], profile: CallProfile },
    StopAudio,
    TeardownLink { link_id: [u8; 16] },
    Say(Seq<char>),
}

impl View for SessionAction {
    type V = Effect;

    open spec fn view(&self) -> Effect {
        match self {
            SessionAction::SendSignal { link_id, signal } => Effect::SendSignal {
                link_id: *link_id,
                signal: *signal,
            },
            SessionAction::StartRinger => Effect::StartRinger,
            SessionAction::StopRinger => Effect::StopRinger,
            SessionAction::StartAudio { link_id, profile } => Effect::StartAudio {
                link_id: *link_id,
                profile: *profile,
            },
            SessionAction::StopAudio => Effect::StopAudio,
            SessionAction::TeardownLink { link_id } => Effect::TeardownLink { link_id: *link_id },
            SessionAction::Say(text) => Effect::Say(text@),
        }
    }
}

/// Actions as mathematical values.
pub open spec fn effects(actions: Seq<SessionAction>) -> Seq<Effect> {
    actions.map_values(|action: SessionAction| action@)
}

/// The program as a mathematical value.
#[verifier::ext_equal]
pub struct SessionModel {
    pub phone: TelephoneModel,
    pub phonebook: Seq<crate::config::EntryModel>,
    /// The link of the call.
    pub link: Option<[u8; 16]>,
    /// Whether it rings.
    pub ringer: bool,
    /// Whether sound is sent and played.
    pub audio: bool,
    pub last_dialed: Option<IdentityHash>,
    pub ui: crate::ui::UiModel,
    /// When the keypad was last used.
    pub last_event: Nanos,
}

/// The program after something happened, and what is to be done about it.
#[verifier::ext_equal]
pub struct Outcome {
    pub session: SessionModel,
    pub effects: Seq<Effect>,
}

impl SessionModel {
    /// Whether the times that a call waits for can be written down.
    pub open spec fn times_fit(self, now: Nanos) -> bool {
        &&& now + self.phone.config.ring_time <= u64::MAX
        &&& now + self.phone.config.wait_time <= u64::MAX
        &&& now + self.phone.config.connect_time <= u64::MAX
        &&& self.phone.config.auto_answer_after matches Some(delay) ==> now + delay <= u64::MAX
    }

    /// The program with nothing to be done about it.
    pub open spec fn quiet(self) -> Outcome {
        Outcome { session: self, effects: Seq::empty() }
    }
}

impl Outcome {
    /// With one thing more to be done.
    pub open spec fn doing(self, effect: Effect) -> Outcome {
        Outcome { effects: self.effects.push(effect), ..self }
    }

    /// With the telephone in another state.
    pub open spec fn with_phone(self, phone: TelephoneModel) -> Outcome {
        Outcome { session: SessionModel { phone, ..self.session }, ..self }
    }

    /// With another link.
    pub open spec fn with_link(self, link: Option<[u8; 16]>) -> Outcome {
        Outcome { session: SessionModel { link, ..self.session }, ..self }
    }

    /// With something said to the user.
    pub open spec fn saying(self, text: Seq<char>) -> Outcome {
        self.doing(Effect::Say(text))
    }

    /// With a signal sent, where there is a link.
    pub open spec fn sending(self, code: SignalCode) -> Outcome {
        match self.session.link {
            Some(link_id) => self.doing(
                Effect::SendSignal { link_id, signal: Signal::Code(code) },
            ),
            None => self,
        }
    }

    /// With the ringing begun, unless it rings.
    pub open spec fn starting_ringer(self) -> Outcome {
        if self.session.ringer {
            self
        } else {
            (Outcome {
                session: SessionModel { ringer: true, ..self.session },
                ..self
            }).doing(Effect::StartRinger)
        }
    }

    /// With the ringing ended, if it rings.
    pub open spec fn stopping_ringer(self) -> Outcome {
        if self.session.ringer {
            (Outcome {
                session: SessionModel { ringer: false, ..self.session },
                ..self
            }).doing(Effect::StopRinger)
        } else {
            self
        }
    }

    /// With sound for the call, instead of the ringing.
    pub open spec fn starting_audio(self, link_id: [u8; 16]) -> Outcome {
        let quiet = self.stopping_ringer();
        if quiet.session.audio {
            quiet
        } else {
            (Outcome {
                session: SessionModel { audio: true, ..quiet.session },
                ..quiet
            }).doing(Effect::StartAudio { link_id, profile: quiet.session.phone.profile })
        }
    }

    /// With no more sound.
    pub open spec fn stopping_audio(self) -> Outcome {
        if self.session.audio {
            (Outcome {
                session: SessionModel { audio: false, ..self.session },
                ..self
            }).doing(Effect::StopAudio)
        } else {
            self
        }
    }

    /// With the keypad and the display ready.
    pub open spec fn made_ready(self, now: Nanos) -> Outcome {
        Outcome {
            session: SessionModel {
                ui: self.session.ui.made_ready(),
                last_event: now,
                ..self.session
            },
            ..self
        }
    }

    /// With the telephone hung up.
    pub open spec fn hung_up(self) -> Outcome {
        if self.session.phone.active() {
            self.with_phone(self.session.phone.idle_again())
        } else {
            self
        }
    }

    /// With the telephone's call established, where it can be.
    pub open spec fn establishing(self) -> Outcome {
        if self.session.phone.can_establish() {
            self.with_phone(self.session.phone.established())
        } else {
            self
        }
    }

    /// With a signal of the other party followed. Sound starts once the call is established;
    /// a call that is over is cleaned up; it rings no longer than the call does.
    pub open spec fn following(self, signal: Signal, now: Nanos) -> Outcome {
        let heard = self.with_phone(self.session.phone.after_signal(signal, now));
        let state = heard.session.phone.state;
        match signal {
            Signal::Code(SignalCode::Established) => match heard.session.link {
                Some(link_id) => if state is Established {
                    heard.starting_audio(link_id)
                } else {
                    heard
                },
                None => heard,
            },
            Signal::Code(SignalCode::Busy) | Signal::Code(
                SignalCode::Rejected,
            ) => if state is Available {
                heard.stopping_ringer().stopping_audio().with_link(None).made_ready(now)
            } else {
                heard
            },
            _ => if state is Ringing {
                heard
            } else {
                heard.stopping_ringer()
            },
        }
    }

    /// With signals followed one after another.
    pub open spec fn following_all(self, signals: Seq<Signal>, now: Nanos) -> Outcome
        decreases signals.len(),
    {
        if signals.len() == 0 {
            self
        } else {
            self.following(signals[0], now).following_all(signals.skip(1), now)
        }
    }
}

/// What is said of bytes.
pub open spec fn hex_of(bytes: [u8; 16]) -> Seq<char> {
    crate::hash_text::hex_text(bytes@)
}

impl SessionModel {
    /// The program after an event of the network, and what is to be done about it.
    pub open spec fn after_event(self, event: TelephonyNetworkEvent, now: Nanos) -> Outcome {
        match event {
            TelephonyNetworkEvent::Announce(announced) => self.quiet().saying(
                "Heard "@ + hex_of(announced.identity_hash),
            ),
            TelephonyNetworkEvent::PathUpdated { dest_hash, hops } => self.quiet().saying(
                "Path to "@ + hex_of(dest_hash) + " is "@ + crate::text::decimal_text(hops as nat)
                    + " hop(s)"@,
            ),
            TelephonyNetworkEvent::LocalDelivery { .. } => self.quiet(),
            TelephonyNetworkEvent::LinkEstablished { link_id, dest_hash, is_initiator } => {
                let linked = self.quiet().with_link(Some(link_id));
                if is_initiator {
                    linked.establishing().sending(SignalCode::Established).starting_audio(
                        link_id,
                    ).saying("Link "@ + hex_of(link_id) + " established to "@ + hex_of(dest_hash))
                } else {
                    linked.saying("Incoming link "@ + hex_of(link_id) + " from "@ + hex_of(dest_hash))
                }
            },
            TelephonyNetworkEvent::LinkClosed { link_id } => if self.link matches Some(link)
                && link@ == link_id@ {
                self.quiet().with_link(None).stopping_ringer().stopping_audio().hung_up().made_ready(
                    now,
                ).saying("Link "@ + hex_of(link_id) + " closed"@)
            } else {
                self.quiet()
            },
            TelephonyNetworkEvent::RemoteIdentified { link_id, identity_hash } => if self.phone.state
                is Available {
                self.called(link_id, identity_hash, now)
            } else {
                self.quiet()
            },
            TelephonyNetworkEvent::LinkData { data, .. } => match crate::packet::packet_of_bytes(
                data@,
            ) {
                Ok(packet) => self.quiet().following_all(packet.signals, now),
                Err(_) => self.quiet(),
            },
        }
    }

    /// The program after a party called on a link: it rings where the party may call, else the
    /// party is told that the telephone is busy.
    pub open spec fn called(self, link_id: [u8; 16], identity_hash: IdentityHash, now: Nanos) -> Outcome {
        let linked = self.quiet().with_link(Some(link_id));
        if self.phone.accepts(identity_hash@) {
            linked.with_phone(self.phone.rung(identity_hash, now)).sending(
                SignalCode::Ringing,
            ).starting_ringer().saying("Incoming call from "@ + hex_of(identity_hash))
        } else {
            linked.sending(SignalCode::Busy).with_link(None).saying(
                "Rejected incoming call from "@ + hex_of(identity_hash),
            )
        }
    }

    /// The program after the call was answered, if it rings.
    pub open spec fn answered(self, now: Nanos) -> Outcome {
        if self.phone.state is Ringing {
            let answered = self.quiet().with_phone(
                self.phone.waiting_to_connect(now),
            ).sending(SignalCode::Connecting).establishing().sending(SignalCode::Established);
            match self.link {
                Some(link_id) => answered.starting_audio(link_id),
                None => answered,
            }
        } else {
            self.quiet()
        }
    }

    /// The program after the call was hung up, or rejected where it rings.
    pub open spec fn hung_up(self, now: Nanos) -> Outcome {
        let told = if self.phone.state is Ringing {
            self.quiet().sending(SignalCode::Rejected)
        } else {
            self.quiet()
        };
        let still = told.stopping_ringer().stopping_audio();
        let closed = match self.link {
            Some(link_id) => still.doing(Effect::TeardownLink { link_id }).with_link(None),
            None => still,
        };
        closed.hung_up().made_ready(now).saying("Call ended"@)
    }

    /// The program after a link to a party was opened that is called: the call begins, or, where
    /// the telephone became busy, the link is closed again.
    pub open spec fn dialled(
        self,
        identity_hash: IdentityHash,
        link_id: [u8; 16],
        now: Nanos,
    ) -> Outcome {
        if self.phone.busy() {
            self.quiet().doing(Effect::TeardownLink { link_id }).saying("Telephone is busy"@)
        } else {
            (Outcome {
                session: SessionModel {
                    phone: self.phone.called_out(identity_hash, now),
                    link: Some(link_id),
                    last_dialed: Some(identity_hash),
                    ..self
                },
                effects: Seq::empty(),
            }).saying(
                "Calling "@ + crate::hash_text::pretty_text(identity_hash@) + " on link "@
                    + crate::hash_text::pretty_text(link_id@) + "..."@,
            )
        }
    }
}

impl SessionModel {
    /// Whether a key that asked for an action, and left the keypad and the display as `ui`, led
    /// to `handled` and to the program as `after`.
    pub open spec fn after_key(
        self,
        action: crate::ui::ActionModel,
        ui: crate::ui::UiModel,
        now: Nanos,
        handled: HardwareOutcome,
        after: SessionModel,
    ) -> bool {
        let seen = SessionModel { ui, last_event: now, ..self };
        match action {
            crate::ui::ActionModel::Dial(identity) => {
                &&& handled matches HardwareOutcome::Dial(identity_hash)
                &&& identity_hash@ == identity
                &&& after == seen
            },
            other => {
                &&& handled matches HardwareOutcome::Act(actions)
                &&& (Outcome { session: after, effects: effects(actions@) }) == (match other {
                    crate::ui::ActionModel::Answer => seen.answered(now).saying(
                        if self.phone.state is Ringing {
                            "Call answered"@
                        } else {
                            "No incoming call to answer"@
                        },
                    ),
                    crate::ui::ActionModel::Reject | crate::ui::ActionModel::Hangup => seen.hung_up(
                        now,
                    ),
                    _ => seen.quiet(),
                })
            },
        }
    }
}

/// What a key led to.
#[derive(Debug)]
pub enum HardwareOutcome {
    /// Something is to be done.
    Act(Vec<SessionAction>),
    /// An identity is to be dialled.
    Dial(IdentityHash),
}

/// The telephone program.
#[derive(Debug)]
pub struct Session {
    pub config: RnphoneConfig,
    pub telephone: Telephone,
    pub active_link: Option<[u8; 16]>,
    pub ringer_running: bool,
    pub audio_running: bool,
    pub last_dialed: Option<IdentityHash>,
    pub hardware_ui: HardwareUi,
    pub hardware_last_event: Nanos,
}

impl View for Session {
    type V = SessionModel;

    open spec fn view(&self) -> SessionModel {
        SessionModel {
            phone: self.telephone@,
            phonebook: self.config@.phonebook,
            link: self.active_link,
            ringer: self.ringer_running,
            audio: self.audio_running,
            last_dialed: self.last_dialed,
            ui: self.hardware_ui@,
            last_event: self.hardware_last_event,
        }
    }
}

/// The program and what is to be done, as a mathematical value.
pub open spec fn outcome(session: Session, actions: Vec<SessionAction>) -> Outcome {
    Outcome { session: session@, effects: effects(actions@) }
}

/// Notes one thing more to be done.
fn note(actions: &mut Vec<SessionAction>, action: SessionAction)
    ensures
        effects(final(actions)@) == effects(old(actions)@).push(action@),
{
    actions.push(action);
    assert(effects(actions@) =~= effects(old(actions)@).push(action@));
}

/// Nothing to be done.
fn nothing() -> (actions: Vec<SessionAction>)
    ensures
        effects(actions@) == Seq::<Effect>::empty(),
{
    let actions: Vec<SessionAction> = Vec::new();
    assert(effects(actions@) =~= Seq::<Effect>::empty());
    actions
}

impl Session {
    /// What holds of the program.
    pub open spec fn wf(&self) -> bool {
        self.telephone.wf() && self.hardware_ui.wf()
    }

    /// The program with settings. Those who may call, and those who may not, are taken from
    /// the settings.
    pub fn new(config: RnphoneConfig, now: Nanos) -> (session: Result<Self, String>)
        ensures
            match session {
                Ok(session) => {
                    &&& config@.hardware.keypad_error() is None
                    &&& config@.hardware.display_error() is None
                    &&& session.wf()
                    &&& session.config == config
                    &&& session@.phone.is_new()
                    &&& session@.phone.config.has_default_settings()
                    &&& session.telephone.queued() == Seq::<crate::telephony::CallEvent>::empty()
                    &&& session@.phone.config.blocked_callers@ == config@.blocked
                    &&& forall|hash: Seq<u8>|
                        session@.phone.config.allowed_callers.lets(hash)
                            == config.allowed_callers.lets(hash)
                    &&& session@.link is None && session@.last_dialed is None
                    &&& !session@.ringer && !session@.audio
                    &&& session@.last_event == now
                    &&& session@.ui == (crate::ui::UiModel {
                        mode: crate::ui::HardwareMode::Idle,
                        input: Seq::empty(),
                        display: if config@.hardware.display is Some {
                            Some(
                                crate::lcd::LcdModel {
                                    top: crate::lcd::blank_row(),
                                    bottom: crate::lcd::blank_row(),
                                    sleeping: false,
                                },
                            )
                        } else {
                            None
                        },
                    })
                },
                Err(error) => if config@.hardware.keypad_error() is Some {
                    config@.hardware.keypad_error() == Some(error@)
                } else {
                    config@.hardware.display_error() == Some(error@)
                },
            },
    {
        let hardware_ui = match HardwareUi::from_config(&config.hardware) {
            Ok(ui) => ui,
            Err(error) => return Err(error),
        };
        let mut telephone_config = TelephoneConfig::default();
        telephone_config.allowed_callers = config.allowed_callers.clone();
        telephone_config.blocked_callers = config.blocked_callers.clone();
        let telephone = Telephone::new(telephone_config);
        Ok(
            Session {
                config,
                telephone,
                active_link: None,
                ringer_running: false,
                audio_running: false,
                last_dialed: None,
                hardware_ui,
                hardware_last_event: now,
            },
        )
    }

    fn send_signal(&self, code: SignalCode, actions: &mut Vec<SessionAction>)
        ensures
            outcome(*self, *final(actions)) == outcome(*self, *old(actions)).sending(code),
    {
        if let Some(link_id) = self.active_link {
            note(actions, SessionAction::SendSignal { link_id, signal: Signal::Code(code) });
        }
    }

    fn start_ringer(&mut self, actions: &mut Vec<SessionAction>)
        requires
            old(self).wf(),
        ensures
            final(self).wf(),
            final(self).config == old(self).config,
            outcome(*final(self), *final(actions)) == outcome(
                *old(self),
                *old(actions),
            ).starting_ringer(),
    {
        if !self.ringer_running {
            self.ringer_running = true;
            note(actions, SessionAction::StartRinger);
        }
    }

    fn stop_ringer(&mut self, actions: &mut Vec<SessionAction>)
        requires
            old(self).wf(),
        ensures
            final(self).wf(),
            final(self).config == old(self).config,
            outcome(*final(self), *final(actions)) == outcome(
                *old(self),
                *old(actions),
            ).stopping_ringer(),
    {
        if self.ringer_running {
            self.ringer_running = false;
            note(actions, SessionAction::StopRinger);
        }
    }

    fn start_call_audio(&mut self, link_id: [u8; 16], actions: &mut Vec<SessionAction>)
        requires
            old(self).wf(),
        ensures
            final(self).wf(),
            final(self).config == old(self).config,
            outcome(*final(self), *final(actions)) == outcome(
                *old(self),
                *old(actions),
            ).starting_audio(link_id),
    {
        self.stop_ringer(actions);
        if !self.audio_running {
            self.audio_running = true;
            note(
                actions,
                SessionAction::StartAudio { link_id, profile: self.telephone.active_profile() },
            );
        }
    }

    fn stop_call_audio(&mut self, actions: &mut Vec<SessionAction>)
        requires
            old(self).wf(),
        ensures
            final(self).wf(),
            final(self).config == old(self).config,
            outcome(*final(self), *final(actions)) == outcome(
                *old(self),
                *old(actions),
            ).stopping_audio(),
    {
        if self.audio_running {
            self.audio_running = false;
            note(actions, SessionAction::StopAudio);
        }
    }

    /// Keeps in mind that the ringer could not be started.
    pub fn ringer_failed(&mut self)
        requires
            old(self).wf(),
        ensures
            final(self).wf(),
            final(self).config == old(self).config,
            final(self)@ == (SessionModel { ringer: false, ..old(self)@ }),
    {
        self.ringer_running = false;
    }

    /// Keeps in mind that the sound could not be started.
    pub fn audio_failed(&mut self)
        requires
            old(self).wf(),
        ensures
            final(self).wf(),
            final(self).config == old(self).config,
            final(self)@ == (SessionModel { audio: false, ..old(self)@ }),
    {
        self.audio_running = false;
    }

    /// Makes the keypad and the display ready.
    pub fn became_available_at(&mut self, now: Nanos)
        requires
            old(self).wf(),
        ensures
            final(self).wf(),
            final(self).config == old(self).config,
            final(self)@ == (SessionModel {
                ui: old(self)@.ui.made_ready(),
                last_event: now,
                ..old(self)@
            }),
    {
        self.hardware_last_event = now;
        self.hardware_ui.became_available();
    }

    /// Answers the call, if it rings, and says whether.
    pub fn answer_current(&mut self, now: Nanos) -> (answered: (bool, Vec<SessionAction>))
        requires
            old(self).wf(),
            old(self)@.times_fit(now),
        ensures
            final(self).wf(),
            final(self).config == old(self).config,
            answered.0 == (old(self)@.phone.state is Ringing),
            outcome(*final(self), answered.1) == old(self)@.answered(now),
    {
        let mut actions = nothing();
        if !self.telephone.answer(now) {
            return (false, actions);
        }
        self.send_signal(SignalCode::Connecting, &mut actions);
        let _ = self.telephone.establish();
        self.send_signal(SignalCode::Established, &mut actions);
        if let Some(link_id) = self.active_link {
            self.start_call_audio(link_id, &mut actions);
        }
        (true, actions)
    }

    /// Hangs up, or rejects a call that rings.
    pub fn hangup_current(&mut self, now: Nanos) -> (actions: Vec<SessionAction>)
        requires
            old(self).wf(),
        ensures
            final(self).wf(),
            final(self).config == old(self).config,
            outcome(*final(self), actions) == old(self)@.hung_up(now),
    {
        let mut actions = nothing();
        if self.telephone.state() == CallState::Ringing {
            self.send_signal(SignalCode::Rejected, &mut actions);
        }
        self.stop_ringer(&mut actions);
        self.stop_call_audio(&mut actions);
        if let Some(link_id) = self.active_link {
            note(&mut actions, SessionAction::TeardownLink { link_id });
            self.active_link = None;
        }
        self.telephone.hangup();
        self.became_available_at(now);
        note(&mut actions, SessionAction::Say("Call ended".to_owned()));
        actions
    }

    /// Follows a signal of the other party.
    fn follow_signal(&mut self, signal: Signal, now: Nanos, actions: &mut Vec<SessionAction>)
        requires
            old(self).wf(),
            old(self)@.times_fit(now),
        ensures
            final(self).wf(),
            final(self).config == old(self).config,
            final(self)@.times_fit(now),
            outcome(*final(self), *final(actions)) == outcome(
                *old(self),
                *old(actions),
            ).following(signal, now),
    {
        self.telephone.apply_signal(signal, now);
        let state = self.telephone.state();
        match signal {
            Signal::Code(SignalCode::Established) => {
                if state == CallState::Established {
                    if let Some(link_id) = self.active_link {
                        self.start_call_audio(link_id, actions);
                    }
                }
            },
            Signal::Code(SignalCode::Busy) | Signal::Code(SignalCode::Rejected) => {
                if state == CallState::Available {
                    self.stop_ringer(actions);
                    self.stop_call_audio(actions);
                    self.active_link = None;
                    self.became_available_at(now);
                }
            },
            _ => {
                if state != CallState::Ringing {
                    self.stop_ringer(actions);
                }
            },
        }
    }

    /// Follows signals of the other party, one after another.
    pub fn follow_signals(&mut self, signals: &[Signal], now: Nanos) -> (actions: Vec<
        SessionAction,
    >)
        requires
            old(self).wf(),
            old(self)@.times_fit(now),
        ensures
            final(self).wf(),
            final(self).config == old(self).config,
            outcome(*final(self), actions) == old(self)@.quiet().following_all(signals@, now),
    {
        let mut actions = nothing();
        let mut i: usize = 0;
        assert(signals@.skip(0) =~= signals@);
        while i < signals.len()
            invariant
                i <= signals@.len(),
                self.wf(),
                self.config == old(self).config,
                self@.times_fit(now),
                outcome(*self, actions).following_all(signals@.skip(i as int), now) == old(
                    self,
                )@.quiet().following_all(signals@, now),
            decreases signals.len() - i,
        {
            assert(signals@.skip(i as int)[0] == signals@[i as int]);
            assert(signals@.skip(i as int).skip(1) =~= signals@.skip(i + 1));
            self.follow_signal(signals[i], now, &mut actions);
            i += 1;
        }
        actions
    }

    /// Handles a call of a party on a link.
    fn handle_caller(
        &mut self,
        link_id: [u8; 16],
        identity_hash: IdentityHash,
        now: Nanos,
    ) -> (actions: Vec<SessionAction>)
        requires
            old(self).wf(),
            old(self)@.times_fit(now),
        ensures
            final(self).wf(),
            final(self).config == old(self).config,
            outcome(*final(self), actions) == old(self)@.called(link_id, identity_hash, now),
    {
        let mut actions = nothing();
        self.active_link = Some(link_id);
        if self.telephone.begin_incoming_call(identity_hash, now) {
            self.send_signal(SignalCode::Ringing, &mut actions);
            self.start_ringer(&mut actions);
            note(
                &mut actions,
                SessionAction::Say(
                    "Incoming call from ".to_owned().concat(hex(&identity_hash).as_str()),
                ),
            );
        } else {
            self.send_signal(SignalCode::Busy, &mut actions);
            self.active_link = None;
            note(
                &mut actions,
                SessionAction::Say(
                    "Rejected incoming call from ".to_owned().concat(hex(&identity_hash).as_str()),
                ),
            );
        }
        actions
    }

    /// Handles an event of the network.
    pub fn handle_network_event(&mut self, event: &TelephonyNetworkEvent, now: Nanos) -> (
    actions: Vec<SessionAction>)
        requires
            old(self).wf(),
            old(self)@.times_fit(now),
        ensures
            final(self).wf(),
            final(self).config == old(self).config,
            outcome(*final(self), actions) == old(self)@.after_event(*event, now),
    {
        let mut actions = nothing();
        match event {
            TelephonyNetworkEvent::Announce(announced) => {
                note(
                    &mut actions,
                    SessionAction::Say(
                        "Heard ".to_owned().concat(hex(&announced.identity_hash).as_str()),
                    ),
                );
            },
            TelephonyNetworkEvent::PathUpdated { dest_hash, hops } => {
                note(
                    &mut actions,
                    SessionAction::Say(
                        "Path to ".to_owned().concat(hex(dest_hash).as_str()).concat(" is ").concat(
                            decimal(*hops as u64).as_str(),
                        ).concat(" hop(s)"),
                    ),
                );
            },
            TelephonyNetworkEvent::LocalDelivery { .. } => {},
            TelephonyNetworkEvent::LinkEstablished { link_id, dest_hash, is_initiator } => {
                self.active_link = Some(*link_id);
                if *is_initiator {
                    let _ = self.telephone.establish();
                    self.send_signal(SignalCode::Established, &mut actions);
                    self.start_call_audio(*link_id, &mut actions);
                    note(
                        &mut actions,
                        SessionAction::Say(
                            "Link ".to_owned().concat(hex(link_id).as_str()).concat(
                                " established to ",
                            ).concat(hex(dest_hash).as_str()),
                        ),
                    );
                } else {
                    note(
                        &mut actions,
                        SessionAction::Say(
                            "Incoming link ".to_owned().concat(hex(link_id).as_str()).concat(
                                " from ",
                            ).concat(hex(dest_hash).as_str()),
                        ),
                    );
                }
            },
            TelephonyNetworkEvent::LinkClosed { link_id } => {
                if self.is_active_link(link_id) {
                    self.active_link = None;
                    self.stop_ringer(&mut actions);
                    self.stop_call_audio(&mut actions);
                    if self.telephone.state() != CallState::Available {
                        self.telephone.hangup();
                    }
                    self.became_available_at(now);
                    note(
                        &mut actions,
                        SessionAction::Say(
                            "Link ".to_owned().concat(hex(link_id).as_str()).concat(" closed"),
                        ),
                    );
                }
            },
            TelephonyNetworkEvent::RemoteIdentified { link_id, identity_hash } => {
                if self.telephone.state() == CallState::Available {
                    return self.handle_caller(*link_id, *identity_hash, now);
                }
            },
            TelephonyNetworkEvent::LinkData { data, .. } => {
                let signals = link_signals(data);
                return self.follow_signals(&signals, now);
            },
        }
        actions
    }

    fn is_active_link(&self, link_id: &[u8; 16]) -> (active: bool)
        ensures
            active == (self.active_link matches Some(link) && link@ == link_id@),
    {
        match &self.active_link {
            Some(link) => same_identity(link, link_id),
            None => false,
        }
    }

    /// Handles a key.
    pub fn handle_hardware_keypad_event_at(&mut self, event: KeypadEvent, now: Nanos) -> (
    handled: HardwareOutcome)
        requires
            old(self).wf(),
            old(self)@.times_fit(now),
        ensures
            final(self).wf(),
            final(self).config == old(self).config,
            exists|action: crate::ui::ActionModel, ui: crate::ui::UiModel|
                {
                    &&& #[trigger] old(self)@.ui.handles(
                        event,
                        old(self)@.phone.state,
                        old(self)@.phonebook,
                        action,
                        ui,
                    )
                    &&& old(self)@.after_key(action, ui, now, handled, final(self)@)
                },
    {
        self.hardware_last_event = now;
        let state = self.telephone.state();
        let action = self.hardware_ui.handle_keypad_event(event, state, &self.config);
        let ghost ui = self.hardware_ui@;
        assert(old(self)@.ui.handles(
            event,
            old(self)@.phone.state,
            old(self)@.phonebook,
            action@,
            ui,
        ));
        match action {
            HardwareAction::Nothing => HardwareOutcome::Act(nothing()),
            HardwareAction::Answer => {
                let (answered, actions) = self.answer_current(now);
                let mut actions = actions;
                if answered {
                    note(&mut actions, SessionAction::Say("Call answered".to_owned()));
                } else {
                    note(
                        &mut actions,
                        SessionAction::Say("No incoming call to answer".to_owned()),
                    );
                }
                HardwareOutcome::Act(actions)
            },
            HardwareAction::Reject => HardwareOutcome::Act(self.hangup_current(now)),
            HardwareAction::Hangup => HardwareOutcome::Act(self.hangup_current(now)),
            HardwareAction::Dial(identity_hash) => HardwareOutcome::Dial(identity_hash),
        }
    }

    /// Puts the display to sleep where the keypad was not used for long enough, and says
    /// whether.
    pub fn poll_hardware_idle(&mut self, now: Nanos) -> (asleep: bool)
        requires
            old(self).wf(),
        ensures
            final(self).wf(),
            final(self).config == old(self).config,
            ({
                let before = old(self)@;
                let idle_for = if now < before.last_event {
                    0
                } else {
                    (now - before.last_event) as Nanos
                };
                &&& asleep == before.ui.tires(idle_for, before.phone.state, before.phone.busy())
                &&& final(self)@ == (SessionModel {
                    ui: if asleep {
                        before.ui.put_to_sleep()
                    } else {
                        before.ui
                    },
                    ..before
                })
            }),
    {
        let idle_for = now.saturating_sub(self.hardware_last_event);
        let state = self.telephone.state();
        let busy = self.telephone.is_busy();
        self.hardware_ui.sleep_if_idle(idle_for, state, busy)
    }

    /// What calling a party begins with: the destination to which a way is to be found, unless
    /// the telephone is busy, with what is said to the user.
    pub fn start_dial(&self, identity_hash: IdentityHash) -> (start: (Option<[u8; 16]>, String))
        ensures
            match start.0 {
                Some(dest_hash) => {
                    &&& !self@.phone.busy()
                    &&& dest_hash@ == crate::network::telephony_destination(identity_hash@)
                    &&& start.1@ == "Requesting path to "@ + hex_of(dest_hash)
                },
                None => self@.phone.busy() && start.1@ == "Telephone is busy"@,
            },
    {
        if self.telephone.is_busy() {
            return (None, "Telephone is busy".to_owned());
        }
        let dest_hash = telephony_dest_hash(identity_hash);
        (Some(dest_hash), "Requesting path to ".to_owned().concat(hex(&dest_hash).as_str()))
    }

    /// Begins the call of a party to which a link was opened.
    pub fn finish_dial(&mut self, identity_hash: IdentityHash, link_id: [u8; 16], now: Nanos) -> (
    actions: Vec<SessionAction>)
        requires
            old(self).wf(),
            old(self)@.times_fit(now),
        ensures
            final(self).wf(),
            final(self).config == old(self).config,
            outcome(*final(self), actions) == old(self)@.dialled(identity_hash, link_id, now),
    {
        let mut actions = nothing();
        if self.telephone.begin_outgoing_call(identity_hash, now) {
            self.active_link = Some(link_id);
            self.last_dialed = Some(identity_hash);
            note(
                &mut actions,
                SessionAction::Say(
                    "Calling ".to_owned().concat(pretty_hash(&identity_hash).as_str()).concat(
                        " on link ",
                    ).concat(pretty_hash(&link_id).as_str()).concat("..."),
                ),
            );
        } else {
            note(&mut actions, SessionAction::TeardownLink { link_id });
            note(&mut actions, SessionAction::Say("Telephone is busy".to_owned()));
        }
        actions
    }

    /// Handles an empty line: it hangs up, where there is a call.
    pub fn handle_empty_line(&mut self, now: Nanos) -> (actions: Vec<SessionAction>)
        requires
            old(self).wf(),
        ensures
            final(self).wf(),
            final(self).config == old(self).config,
            outcome(*final(self), actions) == (if old(self)@.phone.state is Available {
                old(self)@.quiet()
            } else {
                old(self)@.hung_up(now)
            }),
    {
        if self.telephone.state() != CallState::Available {
            self.hangup_current(now)
        } else {
            nothing()
        }
    }

    /// Looks at the clock. What the telephone tells of itself is not kept.
    pub fn tick(&mut self, now: Nanos)
        requires
            old(self).wf(),
            old(self)@.times_fit(now),
        ensures
            final(self).wf(),
            final(self).config == old(self).config,
            final(self)@ == (SessionModel {
                phone: old(self)@.phone.ticked(now),
                ..old(self)@
            }),
    {
        self.telephone.tick(now);
        let _ = self.telephone.take_events();
    }
}

/// The signals in data that came on a link: none where the data is no packet.
pub fn link_signals(data: &[u8]) -> (signals: Vec<Signal>)
    ensures
        signals@ == (match crate::packet::packet_of_bytes(data@) {
            Ok(packet) => packet.signals,
            Err(_) => Seq::<Signal>::empty(),
        }),
{
    match LxstPacket::decode(data) {
        Ok(packet) => packet.signals,
        Err(_) => Vec::new(),
    }
}

/// What is said where no way to a destination was found.
pub fn no_path_error(dest_hash: &[u8; 16]) -> (text: String)
    ensures
        text@ == "no path to "@ + hex_of(*dest_hash),
{
    "no path to ".to_owned().concat(hex(dest_hash).as_str())
}

/// What is said where nothing is known of an identity.
pub fn no_identity_error(identity_hash: &IdentityHash) -> (text: String)
    ensures
        text@ == "no recalled identity for "@ + hex_of(*identity_hash),
{
    "no recalled identity for ".to_owned().concat(hex(identity_hash).as_str())
}

/// Whether a program starts sound.
pub open spec fn starts_audio(effects: Seq<Effect>) -> bool {
    exists|i: int| 0 <= i < effects.len() && (#[trigger] effects[i]) is StartAudio
}

/// Whether a program starts to ring.
pub open spec fn starts_ringer(effects: Seq<Effect>) -> bool {
    exists|i: int| 0 <= i < effects.len() && (#[trigger] effects[i]) is StartRinger
}

/// One thing that is to be done only in some cases.
pub open spec fn when(needed: bool, effect: Effect) -> Seq<Effect> {
    if needed {
        seq![effect]
    } else {
        Seq::empty()
    }
}

/// A call of somebody who may call rings: the caller is told so on their link, which is the
/// link of the call from then on, and the user is told who calls. It does not ring twice, and
/// nothing else changes.
pub proof fn law_wanted_caller_rings(
    session: SessionModel,
    link_id: [u8; 16],
    identity_hash: IdentityHash,
    now: Nanos,
)
    requires
        session.phone.wf(),
        session.phone.state is Available,
        !session.phone.external_busy,
        !session.phone.config.blocked_callers@.contains(identity_hash@),
        session.phone.config.allowed_callers is All || (
        session.phone.config.allowed_callers matches crate::telephony::CallerPolicy::List(allowed)
            && allowed@.contains(identity_hash@)),
        session.times_fit(now),
    ensures
        ({
            let after = session.after_event(
                TelephonyNetworkEvent::RemoteIdentified { link_id, identity_hash },
                now,
            );
            &&& after.session == (SessionModel {
                phone: after.session.phone,
                link: Some(link_id),
                ringer: true,
                ..session
            })
            &&& after.session.phone.state is Ringing
            &&& after.session.phone.identity == Some(identity_hash)
            &&& after.session.phone.direction == Some(crate::telephony::CallDirection::Incoming)
            &&& after.session.phone.profile == session.phone.profile
            &&& after.session.phone.config == session.phone.config
            &&& after.session.phone.call_deadline == Some(
                (now + session.phone.config.ring_time) as Nanos,
            )
            &&& after.effects == seq![
                Effect::SendSignal { link_id, signal: Signal::Code(SignalCode::Ringing) },
            ] + when(!session.ringer, Effect::StartRinger) + seq![
                Effect::Say(
                    "Incoming call from "@ + crate::hash_text::hex_text(identity_hash@),
                ),
            ]
        }),
{
    let after = session.after_event(
        TelephonyNetworkEvent::RemoteIdentified { link_id, identity_hash },
        now,
    );
    assert(after.effects =~= seq![
        Effect::SendSignal { link_id, signal: Signal::Code(SignalCode::Ringing) },
    ] + when(!session.ringer, Effect::StartRinger) + seq![
        Effect::Say("Incoming call from "@ + crate::hash_text::hex_text(identity_hash@)),
    ]);
}

/// A link that was opened here is the link of the call: the other party is told that the call
/// is established, the ringing ends, and sound starts on that link in the profile of the call,
/// unless it runs.
pub proof fn law_opened_link_establishes_the_call(
    session: SessionModel,
    link_id: [u8; 16],
    dest_hash: [u8; 16],
    now: Nanos,
)
    requires
        session.phone.wf(),
    ensures
        ({
            let after = session.after_event(
                TelephonyNetworkEvent::LinkEstablished { link_id, dest_hash, is_initiator: true },
                now,
            );
            &&& after.session == (SessionModel {
                phone: after.session.phone,
                link: Some(link_id),
                ringer: false,
                audio: true,
                ..session
            })
            &&& session.phone.state is Calling || session.phone.state is Connecting
                ==> after.session.phone.state is Established && after.session.phone.call_deadline
                is None
            &&& !(session.phone.state is Calling || session.phone.state is Connecting)
                ==> after.session.phone == session.phone
            &&& after.session.phone.identity == session.phone.identity
            &&& after.session.phone.profile == session.phone.profile
            &&& after.session.phone.config == session.phone.config
            &&& after.effects == seq![
                Effect::SendSignal { link_id, signal: Signal::Code(SignalCode::Established) },
            ] + when(session.ringer, Effect::StopRinger) + when(
                !session.audio,
                Effect::StartAudio { link_id, profile: session.phone.profile },
            ) + seq![
                Effect::Say(
                    "Link "@ + crate::hash_text::hex_text(link_id@) + " established to "@
                        + crate::hash_text::hex_text(dest_hash@),
                ),
            ]
        }),
{
    let after = session.after_event(
        TelephonyNetworkEvent::LinkEstablished { link_id, dest_hash, is_initiator: true },
        now,
    );
    assert(after.effects =~= seq![
        Effect::SendSignal { link_id, signal: Signal::Code(SignalCode::Established) },
    ] + when(session.ringer, Effect::StopRinger) + when(
        !session.audio,
        Effect::StartAudio { link_id, profile: session.phone.profile },
    ) + seq![
        Effect::Say(
            "Link "@ + crate::hash_text::hex_text(link_id@) + " established to "@
                + crate::hash_text::hex_text(dest_hash@),
        ),
    ]);
}

/// A link that the other party opened is kept in mind, and the user is told; nothing else
/// happens before the other party says who they are.
pub proof fn law_incoming_link_is_kept_in_mind(
    session: SessionModel,
    link_id: [u8; 16],
    dest_hash: [u8; 16],
    now: Nanos,
)
    ensures
        session.after_event(
            TelephonyNetworkEvent::LinkEstablished { link_id, dest_hash, is_initiator: false },
            now,
        ) == (Outcome {
            session: SessionModel { link: Some(link_id), ..session },
            effects: seq![
                Effect::Say(
                    "Incoming link "@ + crate::hash_text::hex_text(link_id@) + " from "@
                        + crate::hash_text::hex_text(dest_hash@),
                ),
            ],
        }),
{
    let after = session.after_event(
        TelephonyNetworkEvent::LinkEstablished { link_id, dest_hash, is_initiator: false },
        now,
    );
    assert(after.effects =~= seq![
        Effect::Say(
            "Incoming link "@ + crate::hash_text::hex_text(link_id@) + " from "@
                + crate::hash_text::hex_text(dest_hash@),
        ),
    ]);
}

/// What is heard of other telephones, of ways to them and of packets that are not on a link is
/// at most told to the user, and changes nothing.
pub proof fn law_news_change_nothing(session: SessionModel, event: TelephonyNetworkEvent, now: Nanos)
    requires
        event is Announce || event is PathUpdated || event is LocalDelivery,
    ensures
        session.after_event(event, now).session == session,
        forall|i: int|
            0 <= i < session.after_event(event, now).effects.len() ==> (
            #[trigger] session.after_event(event, now).effects[i]) is Say,
        event is LocalDelivery ==> session.after_event(event, now).effects.len() == 0,
        !(event is LocalDelivery) ==> session.after_event(event, now).effects.len() == 1,
        event matches TelephonyNetworkEvent::Announce(announced) ==> session.after_event(
            event,
            now,
        ).effects == seq![
            Effect::Say("Heard "@ + crate::hash_text::hex_text(announced.identity_hash@)),
        ],
        event matches TelephonyNetworkEvent::PathUpdated { dest_hash, hops }
            ==> session.after_event(event, now).effects == seq![
            Effect::Say(
                "Path to "@ + crate::hash_text::hex_text(dest_hash@) + " is "@
                    + crate::text::decimal_text(hops as nat) + " hop(s)"@,
            ),
        ],
{
}

/// When the link of the call is closed, exactly the ringing and the sound that run are ended,
/// no signal is sent, and the keypad and the display are ready from then on.
pub proof fn law_closed_link_leaves_nothing_running(
    session: SessionModel,
    link_id: [u8; 16],
    now: Nanos,
)
    requires
        session.phone.wf(),
        session.link == Some(link_id),
    ensures
        ({
            let after = session.after_event(TelephonyNetworkEvent::LinkClosed { link_id }, now);
            &&& after.session == (SessionModel {
                phone: after.session.phone,
                link: None,
                ringer: false,
                audio: false,
                ui: session.ui.made_ready(),
                last_event: now,
                ..session
            })
            &&& after.session.phone.state is Available
            &&& after.session.phone.identity is None
            &&& after.session.phone.call_deadline is None
            &&& after.session.phone.config == session.phone.config
            &&& after.session.phone.external_busy == session.phone.external_busy
            &&& after.effects == when(session.ringer, Effect::StopRinger) + when(
                session.audio,
                Effect::StopAudio,
            ) + seq![
                Effect::Say("Link "@ + crate::hash_text::hex_text(link_id@) + " closed"@),
            ]
        }),
{
    let after = session.after_event(TelephonyNetworkEvent::LinkClosed { link_id }, now);
    assert(after.effects =~= when(session.ringer, Effect::StopRinger) + when(
        session.audio,
        Effect::StopAudio,
    ) + seq![Effect::Say("Link "@ + crate::hash_text::hex_text(link_id@) + " closed"@)]);
}

/// A call that is answered is established at once: the other party is told both on the link of
/// the call, the ringing ends, and sound starts in the profile of the call. Without a call
/// that rings there is nothing to answer.
pub proof fn law_answered_call_is_established(session: SessionModel, now: Nanos)
    requires
        session.phone.wf(),
        session.times_fit(now),
    ensures
        !(session.phone.state is Ringing) ==> session.answered(now) == (Outcome {
            session,
            effects: Seq::empty(),
        }),
        session.phone.state is Ringing ==> {
            let after = session.answered(now);
            &&& after.session.phone.state is Established
            &&& after.session.phone.call_deadline is None
            &&& after.session.phone.auto_answer_deadline is None
            &&& after.session.phone.identity == session.phone.identity
            &&& after.session.phone.direction == session.phone.direction
            &&& after.session.phone.profile == session.phone.profile
            &&& after.session.phone.config == session.phone.config
            &&& session.link is None ==> after.effects.len() == 0 && after.session == (
            SessionModel { phone: after.session.phone, ..session })
            &&& session.link matches Some(link_id) ==> {
                &&& after.session == (SessionModel {
                    phone: after.session.phone,
                    ringer: false,
                    audio: true,
                    ..session
                })
                &&& after.effects == seq![
                    Effect::SendSignal { link_id, signal: Signal::Code(SignalCode::Connecting) },
                    Effect::SendSignal { link_id, signal: Signal::Code(SignalCode::Established) },
                ] + when(session.ringer, Effect::StopRinger) + when(
                    !session.audio,
                    Effect::StartAudio { link_id, profile: session.phone.profile },
                )
            }
        },
{
    if session.phone.state is Ringing {
        let after = session.answered(now);
        if let Some(link_id) = session.link {
            assert(after.effects =~= seq![
                Effect::SendSignal { link_id, signal: Signal::Code(SignalCode::Connecting) },
                Effect::SendSignal { link_id, signal: Signal::Code(SignalCode::Established) },
            ] + when(session.ringer, Effect::StopRinger) + when(
                !session.audio,
                Effect::StartAudio { link_id, profile: session.phone.profile },
            ));
        }
    }
}

/// Hanging up tells a party whose call rings that it is rejected, and no other; it ends exactly
/// the ringing and the sound that run, closes the link of the call, and leaves nothing of the
/// call. The keypad and the display are ready from then on.
pub proof fn law_hanging_up_leaves_nothing_running(session: SessionModel, now: Nanos)
    requires
        session.phone.wf(),
    ensures
        ({
            let after = session.hung_up(now);
            let link_id = session.link->0;
            &&& after.session == (SessionModel {
                phone: after.session.phone,
                link: None,
                ringer: false,
                audio: false,
                ui: session.ui.made_ready(),
                last_event: now,
                ..session
            })
            &&& after.session.phone.state is Available
            &&& after.session.phone.identity is None
            &&& after.session.phone.call_deadline is None
            &&& after.session.phone.config == session.phone.config
            &&& after.session.phone.external_busy == session.phone.external_busy
            &&& after.effects == when(
                session.phone.state is Ringing && session.link is Some,
                Effect::SendSignal { link_id, signal: Signal::Code(SignalCode::Rejected) },
            ) + when(session.ringer, Effect::StopRinger) + when(session.audio, Effect::StopAudio)
                + when(session.link is Some, Effect::TeardownLink { link_id }) + seq![
                Effect::Say("Call ended"@),
            ]
        }),
{
    let after = session.hung_up(now);
    let link_id = session.link->0;
    assert(after.effects =~= when(
        session.phone.state is Ringing && session.link is Some,
        Effect::SendSignal { link_id, signal: Signal::Code(SignalCode::Rejected) },
    ) + when(session.ringer, Effect::StopRinger) + when(session.audio, Effect::StopAudio) + when(
        session.link is Some,
        Effect::TeardownLink { link_id },
    ) + seq![Effect::Say("Call ended"@)]);
}

/// A party to which a link was opened is called on that link and can be dialled again; a
/// telephone that became busy meanwhile closes the link again and changes nothing.
pub proof fn law_dialled_party_is_called(
    session: SessionModel,
    identity_hash: IdentityHash,
    link_id: [u8; 16],
    now: Nanos,
)
    requires
        session.phone.wf(),
        session.times_fit(now),
    ensures
        ({
            let after = session.dialled(identity_hash, link_id, now);
            if session.phone.state is Available && !session.phone.external_busy {
                &&& after.session == (SessionModel {
                    phone: after.session.phone,
                    link: Some(link_id),
                    last_dialed: Some(identity_hash),
                    ..session
                })
                &&& after.session.phone.state is Calling
                &&& after.session.phone.identity == Some(identity_hash)
                &&& after.session.phone.direction == Some(
                    crate::telephony::CallDirection::Outgoing,
                )
                &&& after.session.phone.profile == session.phone.config.profile
                &&& after.session.phone.config == session.phone.config
                &&& after.session.phone.call_deadline == Some(
                    (now + session.phone.config.wait_time) as Nanos,
                )
                &&& after.effects == seq![
                    Effect::Say(
                        "Calling "@ + crate::hash_text::pretty_text(identity_hash@)
                            + " on link "@ + crate::hash_text::pretty_text(link_id@) + "..."@,
                    ),
                ]
            } else {
                &&& after.session == session
                &&& after.effects == seq![
                    Effect::TeardownLink { link_id },
                    Effect::Say("Telephone is busy"@),
                ]
            }
        }),
{
    let after = session.dialled(identity_hash, link_id, now);
    if session.phone.state is Available && !session.phone.external_busy {
        assert(after.effects =~= seq![
            Effect::Say(
                "Calling "@ + crate::hash_text::pretty_text(identity_hash@) + " on link "@
                    + crate::hash_text::pretty_text(link_id@) + "..."@,
            ),
        ]);
    } else {
        assert(after.effects =~= seq![
            Effect::TeardownLink { link_id },
            Effect::Say("Telephone is busy"@),
        ]);
    }
}

/// That the other party established the call starts sound on the link of the call, in the
/// profile that the call has then, unless sound runs; the ringing ends. Where the call cannot
/// be established, or has no link, no sound starts.
pub proof fn law_established_signal_starts_sound(session: SessionModel, now: Nanos)
    requires
        session.phone.wf(),
    ensures
        ({
            let after = session.quiet().following(Signal::Code(SignalCode::Established), now);
            let begins = session.phone.state is Connecting || session.phone.state is Calling
                || session.phone.state is Established;
            &&& begins <==> after.session.phone.state is Established
            &&& after.session.phone.profile == session.phone.profile
            &&& after.session.phone.identity == session.phone.identity
            &&& after.session.link == session.link
            &&& begins && session.link is Some ==> after.session == (SessionModel {
                phone: after.session.phone,
                ringer: false,
                audio: true,
                ..session
            }) && after.effects == when(session.ringer, Effect::StopRinger) + when(
                !session.audio,
                Effect::StartAudio { link_id: session.link->0, profile: session.phone.profile },
            )
            &&& !begins || session.link is None ==> after.effects.len() == 0 && after.session == (
            SessionModel { phone: after.session.phone, ..session })
            &&& !begins ==> after.session == session
        }),
{
    let after = session.quiet().following(Signal::Code(SignalCode::Established), now);
    if session.link is Some {
        assert(after.session.phone.state is Established ==> after.effects =~= when(
            session.ringer,
            Effect::StopRinger,
        ) + when(
            !session.audio,
            Effect::StartAudio { link_id: session.link->0, profile: session.phone.profile },
        ));
    }
}

/// The profile that the other party prefers is the one in which the sound of the call starts.
pub proof fn law_sound_starts_in_the_preferred_profile(
    session: SessionModel,
    profile: CallProfile,
    now: Nanos,
)
    requires
        session.phone.wf(),
        session.phone.state is Connecting || session.phone.state is Calling,
        session.link is Some,
        !session.audio,
    ensures
        session.quiet().following(Signal::PreferredProfile(profile), now).following(
            Signal::Code(SignalCode::Established),
            now,
        ).effects.contains(Effect::StartAudio { link_id: session.link->0, profile }),
        session.quiet().following(Signal::PreferredProfile(profile), now).session.phone.profile
            == profile,
{
    let after = session.quiet().following(Signal::PreferredProfile(profile), now).following(
        Signal::Code(SignalCode::Established),
        now,
    );
    assert(after.effects.last() == Effect::StartAudio { link_id: session.link->0, profile });
}

/// Where the other party is busy or rejects the call, the ringing and the sound that run are
/// ended, the link is forgotten, and the keypad and the display are ready. An incoming call
/// that was not answered goes on.
pub proof fn law_refusal_leaves_nothing_running(session: SessionModel, code: SignalCode, now: Nanos)
    requires
        session.phone.wf(),
        code is Busy || code is Rejected,
    ensures
        ({
            let after = session.quiet().following(Signal::Code(code), now);
            if session.phone.direction == Some(crate::telephony::CallDirection::Incoming)
                && session.phone.state is Ringing {
                after == (Outcome { session, effects: Seq::empty() })
            } else {
                &&& after.session == (SessionModel {
                    phone: after.session.phone,
                    link: None,
                    ringer: false,
                    audio: false,
                    ui: session.ui.made_ready(),
                    last_event: now,
                    ..session
                })
                &&& after.session.phone.state is Available
                &&& after.session.phone.identity is None
                &&& after.session.phone.config == session.phone.config
                &&& after.effects == when(session.ringer, Effect::StopRinger) + when(
                    session.audio,
                    Effect::StopAudio,
                )
            }
        }),
{
    let after = session.quiet().following(Signal::Code(code), now);
    assert(!session.phone.unanswered() ==> after.effects =~= when(
        session.ringer,
        Effect::StopRinger,
    ) + when(session.audio, Effect::StopAudio));
}

/// Every other signal at most ends the ringing, and that only where the call does not ring; it
/// neither starts nor ends sound, sends nothing, and keeps the link.
pub proof fn law_other_signals_only_end_the_ringing(
    session: SessionModel,
    signal: Signal,
    now: Nanos,
)
    requires
        session.phone.wf(),
        !(signal == Signal::Code(SignalCode::Established) || signal == Signal::Code(
            SignalCode::Busy,
        ) || signal == Signal::Code(SignalCode::Rejected)),
    ensures
        ({
            let after = session.quiet().following(signal, now);
            let ends = session.ringer && !(after.session.phone.state is Ringing);
            &&& after.session == (SessionModel {
                phone: after.session.phone,
                ringer: session.ringer && !ends,
                ..session
            })
            &&& after.session.phone == session.phone.after_signal(signal, now)
            &&& after.effects == when(ends, Effect::StopRinger)
        }),
{
    let after = session.quiet().following(signal, now);
    let ends = session.ringer && !(after.session.phone.state is Ringing);
    assert(after.effects =~= when(ends, Effect::StopRinger));
}

/// Whatever signal is followed, the telephone follows it, what was to be done before stays to
/// be done first, and what comes to be done does not depend on it.
pub proof fn law_signals_add_to_what_is_done(before: Outcome, signal: Signal, now: Nanos)
    ensures
        before.following(signal, now).session.phone == before.session.phone.after_signal(
            signal,
            now,
        ),
        before.following(signal, now).session == before.session.quiet().following(
            signal,
            now,
        ).session,
        before.following(signal, now).effects == before.effects
            + before.session.quiet().following(signal, now).effects,
{
    assert(before.following(signal, now).effects =~= before.effects
        + before.session.quiet().following(signal, now).effects);
}

/// Without signals nothing is followed; a signal alone is followed.
pub proof fn law_one_signal_is_followed(before: Outcome, signals: Seq<Signal>, now: Nanos)
    ensures
        signals.len() == 0 ==> before.following_all(signals, now) == before,
        signals.len() == 1 ==> before.following_all(signals, now) == before.following(
            signals[0],
            now,
        ),
{
    if signals.len() == 1 {
        let next = before.following(signals[0], now);
        assert(next.following_all(signals.skip(1), now) == next);
    }
}

/// Signals are followed one after another, in their order, and all of them.
pub proof fn law_signals_are_followed_in_order(
    before: Outcome,
    first: Seq<Signal>,
    second: Seq<Signal>,
    now: Nanos,
)
    ensures
        before.following_all(first + second, now) == before.following_all(
            first,
            now,
        ).following_all(second, now),
    decreases first.len(),
{
    if first.len() == 0 {
        assert(first + second =~= second);
    } else {
        assert((first + second)[0] == first[0]);
        assert((first + second).skip(1) =~= first.skip(1) + second);
        law_signals_are_followed_in_order(
            before.following(first[0], now),
            first.skip(1),
            second,
            now,
        );
    }
}

/// Data on a link is followed by its signals, in their order; data that is no packet changes
/// nothing.
pub proof fn law_link_data_is_followed(
    session: SessionModel,
    link_id: [u8; 16],
    context: u8,
    data: Vec<u8>,
    now: Nanos,
)
    ensures
        ({
            let after = session.after_event(
                TelephonyNetworkEvent::LinkData { link_id, context, data },
                now,
            );
            match crate::packet::packet_of_bytes(data@) {
                Ok(packet) => {
                    &&& after == session.quiet().following_all(packet.signals, now)
                    &&& packet.signals.len() == 1 ==> after == session.quiet().following(
                        packet.signals[0],
                        now,
                    )
                },
                Err(_) => after == (Outcome { session, effects: Seq::empty() }),
            }
        }),
{
    if let Ok(packet) = crate::packet::packet_of_bytes(data@) {
        law_one_signal_is_followed(session.quiet(), packet.signals, now);
    }
}

/// A key that answers does so where a call rings, and says which; a key that rejects or hangs
/// up ends the call; a key that dials leaves the call as it is. Every key is kept in mind.
pub proof fn law_keys_do_what_they_ask_for(
    session: SessionModel,
    action: crate::ui::ActionModel,
    ui: crate::ui::UiModel,
    now: Nanos,
    handled: HardwareOutcome,
    after: SessionModel,
)
    requires
        session.phone.wf(),
        session.times_fit(now),
        session.after_key(action, ui, now, handled, after),
    ensures
        after.last_event == now,
        after.phonebook == session.phonebook,
        after.last_dialed == session.last_dialed,
        action is Answer ==> {
            &&& handled matches HardwareOutcome::Act(actions)
            &&& actions@.len() > 0
            &&& after.ui == ui
            &&& after.link == session.link
            &&& if session.phone.state is Ringing {
                &&& after.phone.state is Established
                &&& actions@.last()@ == Effect::Say("Call answered"@)
                &&& effects(actions@).drop_last() == session.answered(now).effects
            } else {
                &&& after.phone == session.phone
                &&& after.ringer == session.ringer && after.audio == session.audio
                &&& actions@.len() == 1
                &&& actions@.last()@ == Effect::Say("No incoming call to answer"@)
            }
        },
        action is Reject || action is Hangup ==> {
            &&& handled is Act
            &&& after.phone.state is Available && after.phone.identity is None
            &&& after.link is None && !after.ringer && !after.audio
            &&& after.ui == ui.made_ready()
            &&& effects(handled->Act_0@) == session.hung_up(now).effects
        },
        action matches crate::ui::ActionModel::Dial(identity) ==> {
            &&& handled matches HardwareOutcome::Dial(identity_hash)
            &&& identity_hash@ == identity
            &&& after == (SessionModel { ui, last_event: now, ..session })
        },
        action is Nothing ==> {
            &&& handled matches HardwareOutcome::Act(actions)
            &&& actions@.len() == 0
            &&& after == (SessionModel { ui, last_event: now, ..session })
        },
{
    let seen = SessionModel { ui, last_event: now, ..session };
    law_answered_call_is_established(seen, now);
    law_hanging_up_leaves_nothing_running(seen, now);
    if let HardwareOutcome::Act(actions) = handled {
        let done = effects(actions@);
        if action is Answer {
            let told = seen.answered(now);
            assert(done.len() == told.effects.len() + 1);
            assert(done.last() == actions@.last()@);
        }
    }
}

/// A call of somebody who may not call never rings: they are told that the telephone is busy,
/// and nothing else changes.
pub proof fn law_unwanted_caller_never_rings(
    session: SessionModel,
    link_id: [u8; 16],
    identity_hash: IdentityHash,
    now: Nanos,
)
    requires
        session.phone.wf(),
        session.phone.state is Available,
        session.phone.config.blocked_callers@.contains(identity_hash@)
            || !session.phone.config.allowed_callers.lets(identity_hash@)
            || session.phone.external_busy,
    ensures
        ({
            let after = session.after_event(
                TelephonyNetworkEvent::RemoteIdentified { link_id, identity_hash },
                now,
            );
            &&& after.session == (SessionModel { link: None, ..session })
            &&& !starts_ringer(after.effects)
            &&& after.effects.contains(
                Effect::SendSignal { link_id, signal: Signal::Code(SignalCode::Busy) },
            )
            &&& after.effects.len() == 2
            &&& after.effects[1] == Effect::Say(
                "Rejected incoming call from "@ + crate::hash_text::hex_text(identity_hash@),
            )
        }),
{
    let after = session.after_event(
        TelephonyNetworkEvent::RemoteIdentified { link_id, identity_hash },
        now,
    );
    assert(after.effects[0] == Effect::SendSignal {
        link_id,
        signal: Signal::Code(SignalCode::Busy),
    });
}

/// Somebody who calls while there is a call changes nothing.
pub proof fn law_second_caller_changes_nothing(
    session: SessionModel,
    link_id: [u8; 16],
    identity_hash: IdentityHash,
    now: Nanos,
)
    requires
        !(session.phone.state is Available),
    ensures
        session.after_event(
            TelephonyNetworkEvent::RemoteIdentified { link_id, identity_hash },
            now,
        ) == session.quiet(),
{
}

/// The closing of a link that is not the link of the call changes nothing.
pub proof fn law_other_links_do_not_matter(session: SessionModel, link_id: [u8; 16], now: Nanos)
    requires
        !(session.link matches Some(link) && link@ == link_id@),
    ensures
        session.after_event(TelephonyNetworkEvent::LinkClosed { link_id }, now) == session.quiet(),
{
}

/// Once the link of the call is closed, nothing of the call is left: no link, no ringing, no
/// sound, and the telephone is available.
pub proof fn law_closed_link_ends_the_call(session: SessionModel, link_id: [u8; 16], now: Nanos)
    requires
        session.phone.wf(),
        session.link == Some(link_id),
    ensures
        ({
            let after = session.after_event(
                TelephonyNetworkEvent::LinkClosed { link_id },
                now,
            ).session;
            &&& after.phone.state is Available && after.phone.identity is None
            &&& after.link is None && !after.ringer && !after.audio
            &&& after.ui == session.ui.made_ready()
        }),
{
}

/// Once the call is hung up, nothing of it is left, and its link is closed.
pub proof fn law_hanging_up_ends_the_call(session: SessionModel, now: Nanos)
    requires
        session.phone.wf(),
    ensures
        session.hung_up(now).session.phone.state is Available,
        session.hung_up(now).session.link is None,
        !session.hung_up(now).session.ringer,
        !session.hung_up(now).session.audio,
        session.link matches Some(link_id) ==> session.hung_up(now).effects.contains(
            Effect::TeardownLink { link_id },
        ),
{
    if let Some(link_id) = session.link {
        let told = if session.phone.state is Ringing {
            session.quiet().sending(SignalCode::Rejected)
        } else {
            session.quiet()
        };
        let still = told.stopping_ringer().stopping_audio();
        let place = still.effects.len() as int;
        assert(session.hung_up(now).effects[place] == Effect::TeardownLink { link_id });
    }
}

/// Before a call is answered here no signal of the caller starts sound, and it goes on
/// ringing.
pub proof fn law_unanswered_call_stays_silent(session: SessionModel, code: SignalCode, now: Nanos)
    requires
        session.phone.wf(),
        session.phone.unanswered(),
    ensures
        session.quiet().following(Signal::Code(code), now) == session.quiet(),
{
}

/// Sound that was started is not started again.
pub proof fn law_sound_starts_once(session: SessionModel, signal: Signal, now: Nanos)
    requires
        session.audio,
    ensures
        !starts_audio(session.quiet().following(signal, now).effects),
{
    let after = session.quiet().following(signal, now);
    assert(forall|i: int| 0 <= i < after.effects.len() ==> !((#[trigger] after.effects[i])
        is StartAudio));
}

/// Signals start sound only for an established call with a link.
pub proof fn law_sound_needs_an_established_call(
    session: SessionModel,
    signal: Signal,
    now: Nanos,
)
    requires
        starts_audio(session.quiet().following(signal, now).effects),
    ensures
        session.quiet().following(signal, now).session.phone.state is Established,
        session.link is Some,
{
}

} // verus!
