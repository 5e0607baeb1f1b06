//! The telephone: who may call, what state a call is in, and what happened.
use crate::device::{
    available_devices, default_device, AudioDeviceInfo, AudioDeviceKind, DeviceModel,
};
use crate::gain::GainDb;
use crate::identity::{IdentityHash, IdentitySet};
use crate::profile::CallProfile;
use crate::signalling::{Signal, SignalCode};
use crate::time::Nanos;
use vstd::prelude::*;

verus! {

/// The shortest time between two announces: five minutes.
pub const MIN_ANNOUNCE_INTERVAL: Nanos = 300_000_000_000;

/// Who may call.
#[derive(Debug, PartialEq, Eq)]
pub enum CallerPolicy {
    All,
    Nobody,
    List(IdentitySet),
}

impl CallerPolicy {
    /// Whether the policy lets a party call.
    pub open spec fn lets(&self, identity_hash: Seq<u8>) -> bool {
        match self {
            CallerPolicy::All => true,
            CallerPolicy::Nobody => false,
            CallerPolicy::List(allowed) => allowed@.contains(identity_hash),
        }
    }

    /// Whether the policy lets a party call.
    pub fn allows(&self, identity_hash: &IdentityHash) -> (allowed: bool)
        ensures
            allowed == self.lets(identity_hash@),
    {
        match self {
            CallerPolicy::All => true,
            CallerPolicy::Nobody => false,
            CallerPolicy::List(allowed) => allowed.contains(identity_hash),
        }
    }
}

impl Clone for CallerPolicy {
    fn clone(&self) -> (copy: Self)
        ensures
            forall|hash: Seq<u8>| copy.lets(hash) == self.lets(hash),
            copy is All == self is All,
            copy is Nobody == self is Nobody,
            self matches CallerPolicy::List(allowed) ==> (copy matches CallerPolicy::List(same)
                && same@ == allowed@ && (allowed.wf() ==> same.wf())),
    {
        match self {
            CallerPolicy::All => CallerPolicy::All,
            CallerPolicy::Nobody => CallerPolicy::Nobody,
            CallerPolicy::List(allowed) => CallerPolicy::List(allowed.clone()),
        }
    }
}

/// Settings of a telephone.
#[derive(Debug, Clone, PartialEq)]
pub struct TelephoneConfig {
    pub ring_time: Nanos,
    pub wait_time: Nanos,
    pub connect_time: Nanos,
    pub announce_interval: Nanos,
    pub profile: CallProfile,
    pub allowed_callers: CallerPolicy,
    pub blocked_callers: IdentitySet,
    pub receive_gain_db: GainDb,
    pub transmit_gain_db: GainDb,
    pub use_agc: bool,
    pub auto_answer_after: Option<Nanos>,
    pub busy_tone_duration: Nanos,
    pub transmit_start_skip: Nanos,
    pub transmit_start_ease_in: Nanos,
}

impl TelephoneConfig {
    /// Whether all but those who may call and those who may not is as it is by default.
    pub open spec fn has_default_settings(self) -> bool {
        &&& self.ring_time == 60_000_000_000
        &&& self.wait_time == 70_000_000_000
        &&& self.connect_time == 5_000_000_000
        &&& self.announce_interval == 10_800_000_000_000
        &&& self.profile == CallProfile::DEFAULT
        &&& self.receive_gain_db.bits == 0
        &&& self.transmit_gain_db.bits == 0
        &&& self.use_agc
        &&& self.auto_answer_after is None
        &&& self.busy_tone_duration == 4_250_000_000
        &&& self.transmit_start_skip == 75_000_000
        &&& self.transmit_start_ease_in == 225_000_000
    }
}

impl Default for TelephoneConfig {
    fn default() -> (config: Self)
        ensures
            config.has_default_settings(),
            config.allowed_callers is All,
            config.blocked_callers@ == Set::<Seq<u8>>::empty(),
            config.blocked_callers.wf(),
    {
        TelephoneConfig {
            ring_time: 60_000_000_000,
            wait_time: 70_000_000_000,
            connect_time: 5_000_000_000,
            announce_interval: 10_800_000_000_000,
            profile: CallProfile::DEFAULT,
            allowed_callers: CallerPolicy::All,
            blocked_callers: IdentitySet::new(),
            receive_gain_db: GainDb::zero(),
            transmit_gain_db: GainDb::zero(),
            use_agc: true,
            auto_answer_after: None,
            busy_tone_duration: 4_250_000_000,
            transmit_start_skip: 75_000_000,
            transmit_start_ease_in: 225_000_000,
        }
    }
}

/// The state of the call, or of the telephone while there is none.
#[derive(Debug, Clone, Copy, PartialEq, Eq, Structural)]
pub enum CallState {
    Available,
    Calling,
    Ringing,
    Connecting,
    Established,
    Terminating,
}

impl Default for CallState {
    fn default() -> (state: Self)
        ensures
            state is Available,
    {
        CallState::Available
    }
}

/// Who began the call.
#[derive(Debug, Clone, Copy, PartialEq, Eq, Structural)]
pub enum CallDirection {
    Incoming,
    Outgoing,
}

/// Something that happened to the telephone.
#[derive(Debug, Clone, Copy, PartialEq)]
#[allow(inconsistent_fields)]
pub enum CallEvent {
    StateChanged(CallState),
    IncomingCall { identity_hash: IdentityHash },
    CallEstablished { identity_hash: IdentityHash },
    CallEnded { identity_hash: Option<IdentityHash> },
    Busy { identity_hash: Option<IdentityHash> },
    Rejected { identity_hash: Option<IdentityHash> },
    TimedOut { identity_hash: Option<IdentityHash>, state: CallState },
    LowLatencyOutputChanged(bool),
    ReceiveGainChanged(GainDb),
    TransmitGainChanged(GainDb),
    ReceiveMutedChanged(bool),
    TransmitMutedChanged(bool),
    AgcChanged(bool),
    ProfileChanged(CallProfile),
    SignalReceived(Signal),
}

/// The telephone. Time is handed in; what happened is queued until it is taken.
#[derive(Debug)]
pub struct Telephone {
    config: TelephoneConfig,
    state: CallState,
    active_identity: Option<IdentityHash>,
    active_direction: Option<CallDirection>,
    active_profile: CallProfile,
    external_busy: bool,
    low_latency_output: bool,
    receive_muted: bool,
    transmit_muted: bool,
    call_deadline: Option<Nanos>,
    auto_answer_deadline: Option<Nanos>,
    events: Vec<CallEvent>,
}

/// The telephone as a mathematical value, without the queued events.
pub struct TelephoneModel {
    pub config: TelephoneConfig,
    pub state: CallState,
    pub identity: Option<IdentityHash>,
    pub direction: Option<CallDirection>,
    pub profile: CallProfile,
    pub external_busy: bool,
    pub low_latency: bool,
    pub receive_muted: bool,
    pub transmit_muted: bool,
    pub call_deadline: Option<Nanos>,
    pub auto_answer_deadline: Option<Nanos>,
}

impl TelephoneModel {
    /// What holds of every telephone: a call has a party and a direction, only an
    /// unestablished call has a deadline, only an unanswered incoming call is answered by
    /// itself, and without a call there is nothing of one.
    pub open spec fn wf(self) -> bool {
        &&& self.state is Available <==> self.identity is None
        &&& self.state is Available <==> self.direction is None
        &&& self.call_deadline is Some <==> !(self.state is Available || self.state is Established)
        &&& self.auto_answer_deadline is Some ==> self.state is Ringing && self.direction == Some(
            CallDirection::Incoming,
        )
        &&& self.state is Calling ==> self.direction == Some(CallDirection::Outgoing)
        &&& !(self.state is Terminating)
    }

    /// Whether the telephone is as one that was just made with its settings.
    pub open spec fn is_new(self) -> bool {
        self == TelephoneModel {
            config: self.config,
            state: CallState::Available,
            identity: None,
            direction: None,
            profile: self.config.profile,
            external_busy: false,
            low_latency: false,
            receive_muted: false,
            transmit_muted: false,
            call_deadline: None,
            auto_answer_deadline: None,
        }
    }

    /// Whether a new call cannot begin.
    pub open spec fn busy(self) -> bool {
        self.external_busy || !(self.state is Available)
    }

    /// Whether a call from this party would be taken.
    pub open spec fn accepts(self, identity_hash: Seq<u8>) -> bool {
        &&& !self.busy()
        &&& !self.config.blocked_callers@.contains(identity_hash)
        &&& self.config.allowed_callers.lets(identity_hash)
    }

    /// Whether there is a call.
    pub open spec fn active(self) -> bool {
        self.identity is Some || !(self.state is Available)
    }

    /// Whether the call is an incoming one that nobody answered yet.
    pub open spec fn unanswered(self) -> bool {
        self.direction == Some(CallDirection::Incoming) && self.state is Ringing
    }

    /// The telephone with the call gone: no party, no deadlines, nothing muted, and the
    /// profile back to the configured one.
    pub open spec fn idle_again(self) -> TelephoneModel {
        TelephoneModel {
            state: CallState::Available,
            identity: None,
            direction: None,
            profile: self.config.profile,
            receive_muted: false,
            transmit_muted: false,
            call_deadline: None,
            auto_answer_deadline: None,
            ..self
        }
    }

    /// The events of a change of state.
    pub open spec fn state_events(self, state: CallState) -> Seq<CallEvent> {
        if self.state == state {
            Seq::empty()
        } else {
            seq![CallEvent::StateChanged(state)]
        }
    }

    /// The events of what was muted being heard again.
    pub open spec fn unmute_events(self) -> Seq<CallEvent> {
        (if self.receive_muted {
            seq![CallEvent::ReceiveMutedChanged(false)]
        } else {
            Seq::empty()
        }) + (if self.transmit_muted {
            seq![CallEvent::TransmitMutedChanged(false)]
        } else {
            Seq::empty()
        })
    }

    /// The events of the call going away, the last of which says why.
    pub open spec fn end_events(self, reason: CallEvent) -> Seq<CallEvent> {
        (self.unmute_events() + self.state_events(CallState::Available)).push(reason)
    }

    /// The telephone with another profile for the call.
    pub open spec fn with_profile(self, profile: CallProfile) -> TelephoneModel {
        TelephoneModel { profile, ..self }
    }

    /// The events of another profile.
    pub open spec fn profile_events(self, profile: CallProfile) -> Seq<CallEvent> {
        if self.profile == profile {
            Seq::empty()
        } else {
            seq![CallEvent::ProfileChanged(profile)]
        }
    }

    /// Whether the call can be established now.
    pub open spec fn can_establish(self) -> bool {
        self.state is Connecting || self.state is Calling
    }

    /// The telephone with its call established.
    pub open spec fn established(self) -> TelephoneModel {
        TelephoneModel {
            state: CallState::Established,
            call_deadline: None,
            auto_answer_deadline: None,
            ..self
        }
    }

    /// The events of the call being established.
    pub open spec fn established_events(self) -> Seq<CallEvent> {
        seq![
            CallEvent::StateChanged(CallState::Established),
            CallEvent::CallEstablished { identity_hash: self.identity->0 },
        ]
    }

    /// The telephone waiting in `state` until `deadline`.
    pub open spec fn waiting(self, state: CallState, deadline: int) -> TelephoneModel {
        TelephoneModel { state, call_deadline: Some(deadline as Nanos), ..self }
    }

    /// The telephone with an answered call that is to be established.
    pub open spec fn waiting_to_connect(self, now: Nanos) -> TelephoneModel {
        TelephoneModel {
            auto_answer_deadline: None,
            ..self.waiting(CallState::Connecting, now + self.config.connect_time)
        }
    }

    /// The telephone rung by a party.
    pub open spec fn rung(self, identity_hash: IdentityHash, now: Nanos) -> TelephoneModel {
        TelephoneModel {
            identity: Some(identity_hash),
            direction: Some(CallDirection::Incoming),
            auto_answer_deadline: match self.config.auto_answer_after {
                Some(delay) => Some((now + delay) as Nanos),
                None => None,
            },
            ..self.waiting(CallState::Ringing, now + self.config.ring_time)
        }
    }

    /// The telephone calling a party with the configured profile.
    pub open spec fn called_out(self, identity_hash: IdentityHash, now: Nanos) -> TelephoneModel {
        TelephoneModel {
            identity: Some(identity_hash),
            direction: Some(CallDirection::Outgoing),
            profile: self.config.profile,
            auto_answer_deadline: None,
            ..self.waiting(CallState::Calling, now + self.config.wait_time)
        }
    }

    /// The telephone after a look at the clock.
    pub open spec fn ticked(self, now: Nanos) -> TelephoneModel {
        if self.auto_answer_due(now) {
            self.waiting_to_connect(now)
        } else if self.timed_out(now) {
            self.idle_again()
        } else {
            self
        }
    }

    /// Whether a signal is only noted: a status code without a call, or before an
    /// incoming call is answered.
    pub open spec fn ignores(self, signal: Signal) -> bool {
        signal is Code && (!self.active() || self.unanswered())
    }

    /// The telephone after a signal of the other party.
    pub open spec fn after_signal(self, signal: Signal, now: Nanos) -> TelephoneModel {
        if self.ignores(signal) {
            self
        } else {
            match signal {
                Signal::Code(SignalCode::Busy) => self.idle_again(),
                Signal::Code(SignalCode::Rejected) => self.idle_again(),
                Signal::Code(SignalCode::Ringing) => self.waiting(
                    CallState::Ringing,
                    now + self.config.wait_time,
                ),
                Signal::Code(SignalCode::Connecting) => self.waiting(
                    CallState::Connecting,
                    now + self.config.connect_time,
                ),
                Signal::Code(SignalCode::Established) => if self.can_establish() {
                    self.established()
                } else {
                    self
                },
                Signal::PreferredProfile(profile) => if self.active() {
                    self.with_profile(profile)
                } else {
                    self
                },
                _ => self,
            }
        }
    }

    /// The events of a signal, the first of which is the signal itself.
    pub open spec fn signal_events(self, signal: Signal) -> Seq<CallEvent> {
        seq![CallEvent::SignalReceived(signal)] + (if self.ignores(signal) {
            Seq::empty()
        } else {
            match signal {
                Signal::Code(SignalCode::Busy) => self.end_events(
                    CallEvent::Busy { identity_hash: self.identity },
                ),
                Signal::Code(SignalCode::Rejected) => self.end_events(
                    CallEvent::Rejected { identity_hash: self.identity },
                ),
                Signal::Code(SignalCode::Ringing) => self.state_events(CallState::Ringing),
                Signal::Code(SignalCode::Connecting) => self.state_events(CallState::Connecting),
                Signal::Code(SignalCode::Established) => if self.can_establish() {
                    self.established_events()
                } else {
                    Seq::empty()
                },
                Signal::PreferredProfile(profile) => if self.active() {
                    self.profile_events(profile)
                } else {
                    Seq::empty()
                },
                _ => Seq::empty(),
            }
        })
    }

    /// Whether the deadline that a signal sets can be written down.
    pub open spec fn signal_time_fits(self, signal: Signal, now: Nanos) -> bool {
        self.ignores(signal) || match signal {
            Signal::Code(SignalCode::Ringing) => now + self.config.wait_time <= u64::MAX,
            Signal::Code(SignalCode::Connecting) => now + self.config.connect_time <= u64::MAX,
            _ => true,
        }
    }

    /// Whether the call is to be answered by itself now.
    pub open spec fn auto_answer_due(self, now: Nanos) -> bool {
        self.state is Ringing && (self.auto_answer_deadline matches Some(deadline) && now
            >= deadline)
    }

    /// Whether the call took too long to be established.
    pub open spec fn timed_out(self, now: Nanos) -> bool {
        !(self.state is Established) && (self.call_deadline matches Some(deadline) && now
            >= deadline)
    }
}

impl Telephone {
    /// The telephone as a mathematical value.
    pub closed spec fn view(&self) -> TelephoneModel {
        TelephoneModel {
            config: self.config,
            state: self.state,
            identity: self.active_identity,
            direction: self.active_direction,
            profile: self.active_profile,
            external_busy: self.external_busy,
            low_latency: self.low_latency_output,
            receive_muted: self.receive_muted,
            transmit_muted: self.transmit_muted,
            call_deadline: self.call_deadline,
            auto_answer_deadline: self.auto_answer_deadline,
        }
    }

    /// The events that were not taken yet.
    pub closed spec fn queued(&self) -> Seq<CallEvent> {
        self.events@
    }

    /// What holds of every telephone.
    pub open spec fn wf(&self) -> bool {
        self@.wf()
    }

    /// A telephone without a call.
    pub fn new(config: TelephoneConfig) -> (telephone: Self)
        ensures
            telephone.wf(),
            telephone.queued() == Seq::<CallEvent>::empty(),
            telephone@.config == config,
            telephone@.is_new(),
    {
        let active_profile = config.profile;
        Telephone {
            config,
            state: CallState::Available,
            active_identity: None,
            active_direction: None,
            active_profile,
            external_busy: false,
            low_latency_output: false,
            receive_muted: false,
            transmit_muted: false,
            call_deadline: None,
            auto_answer_deadline: None,
            events: Vec::new(),
        }
    }

    /// The devices among `devices` that sound can be played on.
    pub fn available_outputs(devices: &[AudioDeviceInfo]) -> (outputs: Vec<AudioDeviceInfo>)
        ensures
            crate::device::device_models(outputs@) == crate::device::devices_of_kind(
                crate::device::device_models(devices@),
                AudioDeviceKind::Output,
            ),
    {
        available_devices(devices, AudioDeviceKind::Output)
    }

    /// The devices among `devices` that sound can be recorded with.
    pub fn available_inputs(devices: &[AudioDeviceInfo]) -> (inputs: Vec<AudioDeviceInfo>)
        ensures
            crate::device::device_models(inputs@) == crate::device::devices_of_kind(
                crate::device::device_models(devices@),
                AudioDeviceKind::Input,
            ),
    {
        available_devices(devices, AudioDeviceKind::Input)
    }

    /// The default device among `devices` to play sound on.
    pub fn default_output(devices: &[AudioDeviceInfo]) -> (output: Option<AudioDeviceInfo>)
        ensures
            (match output {
                Some(output) => Some(output@),
                None => None,
            }) == crate::device::first_device(
                crate::device::device_models(devices@),
                |device: DeviceModel| device.kind == AudioDeviceKind::Output && device.is_default,
            ),
    {
        default_device(devices, AudioDeviceKind::Output)
    }

    /// The default device among `devices` to record sound with.
    pub fn default_input(devices: &[AudioDeviceInfo]) -> (input: Option<AudioDeviceInfo>)
        ensures
            (match input {
                Some(input) => Some(input@),
                None => None,
            }) == crate::device::first_device(
                crate::device::device_models(devices@),
                |device: DeviceModel| device.kind == AudioDeviceKind::Input && device.is_default,
            ),
    {
        default_device(devices, AudioDeviceKind::Input)
    }

    /// Takes the queued events, oldest first.
    pub fn take_events(&mut self) -> (events: Vec<CallEvent>)
        ensures
            events@ == old(self).queued(),
            final(self).queued() == Seq::<CallEvent>::empty(),
            final(self)@ == old(self)@,
    {
        let mut events: Vec<CallEvent> = Vec::new();
        events.append(&mut self.events);
        events
    }

    /// The settings.
    pub fn config(&self) -> (config: &TelephoneConfig)
        ensures
            *config == self@.config,
    {
        &self.config
    }

    /// The state of the call.
    pub fn state(&self) -> (state: CallState)
        ensures
            state == self@.state,
    {
        self.state
    }

    /// The party of the call.
    pub fn active_identity(&self) -> (identity: Option<IdentityHash>)
        ensures
            identity == self@.identity,
    {
        self.active_identity
    }

    /// The profile of the call.
    pub fn active_profile(&self) -> (profile: CallProfile)
        ensures
            profile == self@.profile,
    {
        self.active_profile
    }

    /// Whether there is a call that began here.
    pub fn active_call_is_outgoing(&self) -> (outgoing: bool)
        ensures
            outgoing == (self@.direction == Some(CallDirection::Outgoing)),
    {
        matches!(self.active_direction, Some(CallDirection::Outgoing))
    }

    /// Whether there is a call that began at the other party.
    pub fn active_call_is_incoming(&self) -> (incoming: bool)
        ensures
            incoming == (self@.direction == Some(CallDirection::Incoming)),
    {
        matches!(self.active_direction, Some(CallDirection::Incoming))
    }

    /// Whether sound is played with little delay.
    pub fn low_latency_output(&self) -> (enabled: bool)
        ensures
            enabled == self@.low_latency,
    {
        self.low_latency_output
    }

    /// The gain on what is heard.
    pub fn receive_gain_db(&self) -> (gain_db: GainDb)
        ensures
            gain_db == self@.config.receive_gain_db,
    {
        self.config.receive_gain_db
    }

    /// Sets the gain on what is heard. Only a different gain is an event.
    pub fn set_receive_gain_db(&mut self, gain_db: GainDb)
        ensures
            old(self)@.config.receive_gain_db.equals(gain_db) ==> *final(self) == *old(self),
            !old(self)@.config.receive_gain_db.equals(gain_db) ==> {
                &&& final(self)@ == (TelephoneModel {
                    config: TelephoneConfig { receive_gain_db: gain_db, ..old(self)@.config },
                    ..old(self)@
                })
                &&& final(self).queued() == old(self).queued().push(
                    CallEvent::ReceiveGainChanged(gain_db),
                )
            },
    {
        if !self.config.receive_gain_db.same_gain(gain_db) {
            self.config.receive_gain_db = gain_db;
            self.events.push(CallEvent::ReceiveGainChanged(gain_db));
        }
    }

    /// The gain on what is sent.
    pub fn transmit_gain_db(&self) -> (gain_db: GainDb)
        ensures
            gain_db == self@.config.transmit_gain_db,
    {
        self.config.transmit_gain_db
    }

    /// Sets the gain on what is sent. Only a different gain is an event.
    pub fn set_transmit_gain_db(&mut self, gain_db: GainDb)
        ensures
            old(self)@.config.transmit_gain_db.equals(gain_db) ==> *final(self) == *old(self),
            !old(self)@.config.transmit_gain_db.equals(gain_db) ==> {
                &&& final(self)@ == (TelephoneModel {
                    config: TelephoneConfig { transmit_gain_db: gain_db, ..old(self)@.config },
                    ..old(self)@
                })
                &&& final(self).queued() == old(self).queued().push(
                    CallEvent::TransmitGainChanged(gain_db),
                )
            },
    {
        if !self.config.transmit_gain_db.same_gain(gain_db) {
            self.config.transmit_gain_db = gain_db;
            self.events.push(CallEvent::TransmitGainChanged(gain_db));
        }
    }

    /// Whether what is sent is levelled.
    pub fn use_agc(&self) -> (enabled: bool)
        ensures
            enabled == self@.config.use_agc,
    {
        self.config.use_agc
    }

    /// Switches levelling on or off. Only a change is an event.
    pub fn enable_agc(&mut self, enable: bool)
        ensures
            final(self)@ == (TelephoneModel {
                config: TelephoneConfig { use_agc: enable, ..old(self)@.config },
                ..old(self)@
            }),
            final(self).queued() == (if old(self)@.config.use_agc == enable {
                old(self).queued()
            } else {
                old(self).queued().push(CallEvent::AgcChanged(enable))
            }),
    {
        if self.config.use_agc != enable {
            self.config.use_agc = enable;
            self.events.push(CallEvent::AgcChanged(enable));
        }
    }

    /// Switches levelling off or on.
    pub fn disable_agc(&mut self, disable: bool)
        ensures
            final(self)@ == (TelephoneModel {
                config: TelephoneConfig { use_agc: !disable, ..old(self)@.config },
                ..old(self)@
            }),
            final(self).queued() == (if old(self)@.config.use_agc == !disable {
                old(self).queued()
            } else {
                old(self).queued().push(CallEvent::AgcChanged(!disable))
            }),
    {
        self.enable_agc(!disable);
    }

    /// Whether nothing is heard.
    pub fn receive_muted(&self) -> (muted: bool)
        ensures
            muted == self@.receive_muted,
    {
        self.receive_muted
    }

    /// Mutes what is heard, or ends that. Only a change is an event.
    pub fn mute_receive(&mut self, mute: bool)
        ensures
            final(self)@ == (TelephoneModel { receive_muted: mute, ..old(self)@ }),
            final(self).queued() == (if old(self)@.receive_muted == mute {
                old(self).queued()
            } else {
                old(self).queued().push(CallEvent::ReceiveMutedChanged(mute))
            }),
    {
        if self.receive_muted != mute {
            self.receive_muted = mute;
            self.events.push(CallEvent::ReceiveMutedChanged(mute));
        }
    }

    /// Ends the muting of what is heard, or begins it.
    pub fn unmute_receive(&mut self, unmute: bool)
        ensures
            final(self)@ == (TelephoneModel { receive_muted: !unmute, ..old(self)@ }),
            final(self).queued() == (if old(self)@.receive_muted == !unmute {
                old(self).queued()
            } else {
                old(self).queued().push(CallEvent::ReceiveMutedChanged(!unmute))
            }),
    {
        self.mute_receive(!unmute);
    }

    /// Whether nothing is sent.
    pub fn transmit_muted(&self) -> (muted: bool)
        ensures
            muted == self@.transmit_muted,
    {
        self.transmit_muted
    }

    /// Mutes what is sent, or ends that. Only a change is an event.
    pub fn mute_transmit(&mut self, mute: bool)
        ensures
            final(self)@ == (TelephoneModel { transmit_muted: mute, ..old(self)@ }),
            final(self).queued() == (if old(self)@.transmit_muted == mute {
                old(self).queued()
            } else {
                old(self).queued().push(CallEvent::TransmitMutedChanged(mute))
            }),
    {
        if self.transmit_muted != mute {
            self.transmit_muted = mute;
            self.events.push(CallEvent::TransmitMutedChanged(mute));
        }
    }

    /// Ends the muting of what is sent, or begins it.
    pub fn unmute_transmit(&mut self, unmute: bool)
        ensures
            final(self)@ == (TelephoneModel { transmit_muted: !unmute, ..old(self)@ }),
            final(self).queued() == (if old(self)@.transmit_muted == !unmute {
                old(self).queued()
            } else {
                old(self).queued().push(CallEvent::TransmitMutedChanged(!unmute))
            }),
    {
        self.mute_transmit(!unmute);
    }

    /// Sets how long an answered call may take to be established.
    pub fn set_connect_timeout(&mut self, timeout: Nanos)
        ensures
            final(self)@ == (TelephoneModel {
                config: TelephoneConfig { connect_time: timeout, ..old(self)@.config },
                ..old(self)@
            }),
            final(self).queued() == old(self).queued(),
    {
        self.config.connect_time = timeout;
    }

    /// Sets the time between announces, at least five minutes.
    pub fn set_announce_interval(&mut self, announce_interval: Nanos)
        ensures
            final(self)@ == (TelephoneModel {
                config: TelephoneConfig {
                    announce_interval: if announce_interval < MIN_ANNOUNCE_INTERVAL {
                        MIN_ANNOUNCE_INTERVAL
                    } else {
                        announce_interval
                    },
                    ..old(self)@.config
                },
                ..old(self)@
            }),
            final(self).queued() == old(self).queued(),
    {
        self.config.announce_interval = if announce_interval < MIN_ANNOUNCE_INTERVAL {
            MIN_ANNOUNCE_INTERVAL
        } else {
            announce_interval
        };
    }

    /// How long the busy tone is played.
    pub fn busy_tone_duration(&self) -> (duration: Nanos)
        ensures
            duration == self@.config.busy_tone_duration,
    {
        self.config.busy_tone_duration
    }

    /// Sets how long the busy tone is played.
    pub fn set_busy_tone_duration(&mut self, duration: Nanos)
        ensures
            final(self)@ == (TelephoneModel {
                config: TelephoneConfig { busy_tone_duration: duration, ..old(self)@.config },
                ..old(self)@
            }),
            final(self).queued() == old(self).queued(),
    {
        self.config.busy_tone_duration = duration;
    }

    /// How much sound is left out when sending begins.
    pub fn transmit_start_skip(&self) -> (duration: Nanos)
        ensures
            duration == self@.config.transmit_start_skip,
    {
        self.config.transmit_start_skip
    }

    /// Sets how much sound is left out when sending begins.
    pub fn set_transmit_start_skip(&mut self, duration: Nanos)
        ensures
            final(self)@ == (TelephoneModel {
                config: TelephoneConfig { transmit_start_skip: duration, ..old(self)@.config },
                ..old(self)@
            }),
            final(self).queued() == old(self).queued(),
    {
        self.config.transmit_start_skip = duration;
    }

    /// How long sound grows to full volume when sending begins.
    pub fn transmit_start_ease_in(&self) -> (duration: Nanos)
        ensures
            duration == self@.config.transmit_start_ease_in,
    {
        self.config.transmit_start_ease_in
    }

    /// Sets how long sound grows to full volume when sending begins.
    pub fn set_transmit_start_ease_in(&mut self, duration: Nanos)
        ensures
            final(self)@ == (TelephoneModel {
                config: TelephoneConfig { transmit_start_ease_in: duration, ..old(self)@.config },
                ..old(self)@
            }),
            final(self).queued() == old(self).queued(),
    {
        self.config.transmit_start_ease_in = duration;
    }

    /// Plays sound with little delay, or not. Only a change is an event.
    pub fn set_low_latency_output(&mut self, enabled: bool)
        ensures
            final(self)@ == (TelephoneModel { low_latency: enabled, ..old(self)@ }),
            final(self).queued() == (if old(self)@.low_latency == enabled {
                old(self).queued()
            } else {
                old(self).queued().push(CallEvent::LowLatencyOutputChanged(enabled))
            }),
    {
        if self.low_latency_output != enabled {
            self.low_latency_output = enabled;
            self.events.push(CallEvent::LowLatencyOutputChanged(enabled));
        }
    }

    /// Chooses the profile, the configured one if none is given, and says which it is.
    /// Only a change is an event.
    pub fn select_call_profile(&mut self, profile: Option<CallProfile>) -> (chosen: CallProfile)
        ensures
            chosen == (match profile {
                Some(profile) => profile,
                None => old(self)@.config.profile,
            }),
            final(self)@ == old(self)@.with_profile(chosen),
            final(self).queued() == old(self).queued() + old(self)@.profile_events(chosen),
    {
        let chosen = match profile {
            Some(profile) => profile,
            None => self.config.profile,
        };
        if self.active_profile != chosen {
            self.active_profile = chosen;
            self.events.push(CallEvent::ProfileChanged(chosen));
        }
        assert(self.queued() =~= old(self).queued() + old(self)@.profile_events(chosen));
        chosen
    }

    /// Whether a new call cannot begin.
    pub fn is_busy(&self) -> (busy: bool)
        ensures
            busy == self@.busy(),
    {
        self.external_busy || self.state != CallState::Available
    }

    /// Says that the party is busy for a reason of their own, or no more.
    pub fn set_busy(&mut self, busy: bool)
        ensures
            final(self)@ == (TelephoneModel { external_busy: busy, ..old(self)@ }),
            final(self).queued() == old(self).queued(),
    {
        self.external_busy = busy;
    }

    /// Whether a call from this party would be taken.
    pub fn can_accept_call(&self, identity_hash: &IdentityHash) -> (accepts: bool)
        ensures
            accepts == self@.accepts(identity_hash@),
    {
        !self.is_busy() && !self.config.blocked_callers.contains(identity_hash)
            && self.config.allowed_callers.allows(identity_hash)
    }

    /// Begins a call with the configured profile, unless the telephone is busy.
    pub fn begin_outgoing_call(&mut self, identity_hash: IdentityHash, now: Nanos) -> (begun: bool)
        requires
            old(self).wf(),
            !old(self)@.busy() ==> now + old(self)@.config.wait_time <= u64::MAX,
        ensures
            final(self).wf(),
            begun == !old(self)@.busy(),
            !begun ==> *final(self) == *old(self),
            begun ==> {
                &&& final(self)@ == (TelephoneModel {
                    state: CallState::Calling,
                    identity: Some(identity_hash),
                    direction: Some(CallDirection::Outgoing),
                    profile: old(self)@.config.profile,
                    call_deadline: Some((now + old(self)@.config.wait_time) as Nanos),
                    auto_answer_deadline: None,
                    ..old(self)@
                })
                &&& final(self)@ == old(self)@.called_out(identity_hash, now)
                &&& final(self).queued() == (old(self).queued() + old(self)@.profile_events(
                    old(self)@.config.profile,
                )).push(CallEvent::StateChanged(CallState::Calling))
            },
    {
        self.begin_outgoing_call_with_profile(identity_hash, None, now)
    }

    /// Begins a call with the given profile, or the configured one, unless the telephone is
    /// busy.
    pub fn begin_outgoing_call_with_profile(
        &mut self,
        identity_hash: IdentityHash,
        profile: Option<CallProfile>,
        now: Nanos,
    ) -> (begun: bool)
        requires
            old(self).wf(),
            !old(self)@.busy() ==> now + old(self)@.config.wait_time <= u64::MAX,
        ensures
            final(self).wf(),
            begun == !old(self)@.busy(),
            !begun ==> *final(self) == *old(self),
            begun ==> {
                let chosen = match profile {
                    Some(profile) => profile,
                    None => old(self)@.config.profile,
                };
                &&& final(self)@ == (TelephoneModel {
                    state: CallState::Calling,
                    identity: Some(identity_hash),
                    direction: Some(CallDirection::Outgoing),
                    profile: chosen,
                    call_deadline: Some((now + old(self)@.config.wait_time) as Nanos),
                    auto_answer_deadline: None,
                    ..old(self)@
                })
                &&& final(self)@ == old(self)@.called_out(identity_hash, now).with_profile(chosen)
                &&& final(self).queued() == (old(self).queued() + old(self)@.profile_events(
                    chosen,
                )).push(CallEvent::StateChanged(CallState::Calling))
            },
    {
        if self.is_busy() {
            return false;
        }
        self.select_call_profile(profile);
        self.active_identity = Some(identity_hash);
        self.active_direction = Some(CallDirection::Outgoing);
        self.call_deadline = Some(now + self.config.wait_time);
        self.auto_answer_deadline = None;
        self.set_state(CallState::Calling);
        true
    }

    /// Lets an incoming call ring where the party may call; otherwise the caller is told
    /// that the telephone is busy.
    pub fn begin_incoming_call(&mut self, identity_hash: IdentityHash, now: Nanos) -> (begun: bool)
        requires
            old(self).wf(),
            old(self)@.accepts(identity_hash@) ==> now + old(self)@.config.ring_time <= u64::MAX,
            old(self)@.accepts(identity_hash@) ==> (
            old(self)@.config.auto_answer_after matches Some(delay) ==> now + delay <= u64::MAX),
        ensures
            final(self).wf(),
            begun == old(self)@.accepts(identity_hash@),
            !begun ==> {
                &&& final(self)@ == old(self)@
                &&& final(self).queued() == old(self).queued().push(
                    CallEvent::Busy { identity_hash: Some(identity_hash) },
                )
            },
            begun ==> {
                &&& final(self)@ == (TelephoneModel {
                    state: CallState::Ringing,
                    identity: Some(identity_hash),
                    direction: Some(CallDirection::Incoming),
                    call_deadline: Some((now + old(self)@.config.ring_time) as Nanos),
                    auto_answer_deadline: match old(self)@.config.auto_answer_after {
                        Some(delay) => Some((now + delay) as Nanos),
                        None => None,
                    },
                    ..old(self)@
                })
                &&& final(self)@ == old(self)@.rung(identity_hash, now)
                &&& final(self).queued() == old(self).queued().push(
                    CallEvent::StateChanged(CallState::Ringing),
                ).push(CallEvent::IncomingCall { identity_hash })
            },
    {
        if !self.can_accept_call(&identity_hash) {
            self.events.push(CallEvent::Busy { identity_hash: Some(identity_hash) });
            return false;
        }
        self.active_identity = Some(identity_hash);
        self.active_direction = Some(CallDirection::Incoming);
        self.call_deadline = Some(now + self.config.ring_time);
        self.auto_answer_deadline = match self.config.auto_answer_after {
            Some(delay) => Some(now + delay),
            None => None,
        };
        self.set_state(CallState::Ringing);
        self.events.push(CallEvent::IncomingCall { identity_hash });
        true
    }

    /// Answers a ringing call.
    pub fn answer(&mut self, now: Nanos) -> (answered: bool)
        requires
            old(self).wf(),
            old(self)@.state is Ringing ==> now + old(self)@.config.connect_time <= u64::MAX,
        ensures
            final(self).wf(),
            answered == (old(self)@.state is Ringing),
            !answered ==> *final(self) == *old(self),
            answered ==> {
                &&& final(self)@ == old(self)@.waiting_to_connect(now)
                &&& final(self)@ == (TelephoneModel {
                    state: CallState::Connecting,
                    call_deadline: Some((now + old(self)@.config.connect_time) as Nanos),
                    auto_answer_deadline: None,
                    ..old(self)@
                })
                &&& final(self).queued() == old(self).queued().push(
                    CallEvent::StateChanged(CallState::Connecting),
                )
            },
    {
        if self.state != CallState::Ringing {
            return false;
        }
        self.call_deadline = Some(now + self.config.connect_time);
        self.auto_answer_deadline = None;
        self.set_state(CallState::Connecting);
        true
    }

    /// Establishes a call that is connecting, or an outgoing one that was not answered yet.
    pub fn establish(&mut self) -> (established: bool)
        requires
            old(self).wf(),
        ensures
            final(self).wf(),
            established == old(self)@.can_establish(),
            !established ==> *final(self) == *old(self),
            established ==> {
                &&& final(self)@ == old(self)@.established()
                &&& final(self).queued() == old(self).queued() + old(self)@.established_events()
            },
    {
        if !matches!(self.state, CallState::Connecting | CallState::Calling) {
            return false;
        }
        self.call_deadline = None;
        self.auto_answer_deadline = None;
        self.set_state(CallState::Established);
        if let Some(identity_hash) = self.active_identity {
            self.events.push(CallEvent::CallEstablished { identity_hash });
        }
        assert(self.queued() =~= old(self).queued() + old(self)@.established_events());
        true
    }

    /// Ends the call. An incoming call that was not answered is rejected; without a call
    /// nothing happens.
    pub fn hangup(&mut self)
        requires
            old(self).wf(),
        ensures
            final(self).wf(),
            !old(self)@.active() ==> *final(self) == *old(self),
            old(self)@.active() ==> {
                &&& final(self)@ == old(self)@.idle_again()
                &&& final(self).queued() == old(self).queued() + old(self)@.end_events(
                    if old(self)@.unanswered() {
                        CallEvent::Rejected { identity_hash: old(self)@.identity }
                    } else {
                        CallEvent::CallEnded { identity_hash: old(self)@.identity }
                    },
                )
            },
    {
        if !self.has_active_call() {
            return;
        }
        if matches!(self.active_direction, Some(CallDirection::Incoming)) && self.state
            == CallState::Ringing {
            self.reject();
            return;
        }
        self.end_call();
    }

    /// Rejects the call; without a call nothing happens.
    pub fn reject(&mut self)
        requires
            old(self).wf(),
        ensures
            final(self).wf(),
            !old(self)@.active() ==> *final(self) == *old(self),
            old(self)@.active() ==> {
                &&& final(self)@ == old(self)@.idle_again()
                &&& final(self).queued() == old(self).queued() + old(self)@.end_events(
                    CallEvent::Rejected { identity_hash: old(self)@.identity },
                )
            },
    {
        if !self.has_active_call() {
            return;
        }
        let identity_hash = self.clear_active_call();
        self.set_state(CallState::Available);
        self.events.push(CallEvent::Rejected { identity_hash });
        assert(self.queued() =~= old(self).queued() + old(self)@.end_events(
            CallEvent::Rejected { identity_hash },
        ));
    }

    /// Looks at the clock: a call may be answered by itself, or may have taken too long.
    pub fn tick(&mut self, now: Nanos)
        requires
            old(self).wf(),
            old(self)@.auto_answer_due(now) ==> now + old(self)@.config.connect_time <= u64::MAX,
        ensures
            final(self).wf(),
            final(self)@ == old(self)@.ticked(now),
            old(self)@.auto_answer_due(now) ==> {
                &&& final(self)@ == (TelephoneModel {
                    state: CallState::Connecting,
                    call_deadline: Some((now + old(self)@.config.connect_time) as Nanos),
                    auto_answer_deadline: None,
                    ..old(self)@
                })
                &&& final(self).queued() == old(self).queued().push(
                    CallEvent::StateChanged(CallState::Connecting),
                )
            },
            !old(self)@.auto_answer_due(now) && old(self)@.timed_out(now) ==> {
                &&& final(self)@ == old(self)@.idle_again()
                &&& final(self).queued() == old(self).queued().push(
                    CallEvent::TimedOut {
                        identity_hash: old(self)@.identity,
                        state: old(self)@.state,
                    },
                ) + old(self)@.end_events(
                    CallEvent::CallEnded { identity_hash: old(self)@.identity },
                )
            },
            !old(self)@.auto_answer_due(now) && !old(self)@.timed_out(now) ==> *final(self)
                == *old(self),
    {
        let auto_answer_due = match self.auto_answer_deadline {
            Some(deadline) => now >= deadline,
            None => false,
        };
        if self.state == CallState::Ringing && auto_answer_due {
            let _ = self.answer(now);
            return;
        }
        let overdue = match self.call_deadline {
            Some(deadline) => now >= deadline,
            None => false,
        };
        if self.state != CallState::Established && overdue {
            let identity_hash = self.active_identity;
            let state = self.state;
            self.events.push(CallEvent::TimedOut { identity_hash, state });
            self.end_call();
        }
    }

    /// Follows a signal of the other party.
    pub fn apply_signal(&mut self, signal: Signal, now: Nanos)
        requires
            old(self).wf(),
            old(self)@.signal_time_fits(signal, now),
        ensures
            final(self).wf(),
            final(self)@ == old(self)@.after_signal(signal, now),
            final(self).queued() == old(self).queued() + old(self)@.signal_events(signal),
    {
        self.events.push(CallEvent::SignalReceived(signal));
        let ghost noted = *self;
        if !self.should_ignore_status_signal(signal) {
            match signal {
                Signal::Code(SignalCode::Busy) => {
                    let identity_hash = self.clear_active_call();
                    self.set_state(CallState::Available);
                    self.events.push(CallEvent::Busy { identity_hash });
                },
                Signal::Code(SignalCode::Rejected) => self.reject(),
                Signal::Code(SignalCode::Available) => {},
                Signal::Code(SignalCode::Ringing) => {
                    self.call_deadline = Some(now + self.config.wait_time);
                    self.set_state(CallState::Ringing);
                },
                Signal::Code(SignalCode::Connecting) => {
                    self.call_deadline = Some(now + self.config.connect_time);
                    self.set_state(CallState::Connecting);
                },
                Signal::Code(SignalCode::Established) => {
                    let _ = self.establish();
                },
                Signal::Code(SignalCode::Calling) => {},
                Signal::PreferredProfile(profile) => {
                    if self.has_active_call() {
                        self.select_call_profile(Some(profile));
                    }
                },
                Signal::Unknown(_) => {},
            }
        }
        assert(self.queued() =~= old(self).queued() + old(self)@.signal_events(signal));
    }

    fn set_state(&mut self, state: CallState)
        ensures
            final(self)@ == (TelephoneModel { state, ..old(self)@ }),
            final(self).queued() == old(self).queued() + old(self)@.state_events(state),
    {
        if self.state != state {
            self.state = state;
            self.events.push(CallEvent::StateChanged(state));
        }
        assert(self.queued() =~= old(self).queued() + old(self)@.state_events(state));
    }

    fn should_ignore_status_signal(&self, signal: Signal) -> (ignore: bool)
        ensures
            ignore == self@.ignores(signal),
    {
        if !matches!(signal, Signal::Code(_)) {
            return false;
        }
        !self.has_active_call() || (matches!(self.active_direction, Some(CallDirection::Incoming))
            && self.state == CallState::Ringing)
    }

    /// Whether there is a call.
    pub fn has_active_call(&self) -> (active: bool)
        ensures
            active == self@.active(),
    {
        self.active_identity.is_some() || self.state != CallState::Available
    }

    fn end_call(&mut self)
        requires
            old(self).wf(),
        ensures
            final(self).wf(),
            final(self)@ == old(self)@.idle_again(),
            final(self).queued() == old(self).queued() + old(self)@.end_events(
                CallEvent::CallEnded { identity_hash: old(self)@.identity },
            ),
    {
        let identity_hash = self.clear_active_call();
        self.set_state(CallState::Available);
        self.events.push(CallEvent::CallEnded { identity_hash });
        assert(self.queued() =~= old(self).queued() + old(self)@.end_events(
            CallEvent::CallEnded { identity_hash },
        ));
    }

    fn clear_active_call(&mut self) -> (identity_hash: Option<IdentityHash>)
        ensures
            identity_hash == old(self)@.identity,
            final(self)@ == (TelephoneModel { state: old(self)@.state, ..old(self)@.idle_again() }),
            final(self).queued() == old(self).queued() + old(self)@.unmute_events(),
    {
        self.call_deadline = None;
        self.auto_answer_deadline = None;
        self.active_direction = None;
        self.active_profile = self.config.profile;
        self.clear_mutes();
        self.active_identity.take()
    }

    fn clear_mutes(&mut self)
        ensures
            final(self)@ == (TelephoneModel {
                receive_muted: false,
                transmit_muted: false,
                ..old(self)@
            }),
            final(self).queued() == old(self).queued() + old(self)@.unmute_events(),
    {
        if self.receive_muted {
            self.receive_muted = false;
            self.events.push(CallEvent::ReceiveMutedChanged(false));
        }
        if self.transmit_muted {
            self.transmit_muted = false;
            self.events.push(CallEvent::TransmitMutedChanged(false));
        }
        assert(self.queued() =~= old(self).queued() + old(self)@.unmute_events());
    }
}

/// The other party rings: the call waits for an answer as long as the settings say from that
/// moment on, and time changes nothing before that is over. Nothing else of the call changes.
pub proof fn law_ringing_call_waits_its_time(phone: TelephoneModel, now: Nanos, later: Nanos)
    requires
        phone.wf(),
        phone.identity is Some,
        !(phone.direction == Some(CallDirection::Incoming) && phone.state is Ringing),
        now + phone.config.wait_time <= u64::MAX,
    ensures
        ({
            let after = phone.after_signal(Signal::Code(SignalCode::Ringing), now);
            &&& after.state is Ringing
            &&& after.call_deadline == Some((now + phone.config.wait_time) as Nanos)
            &&& after.auto_answer_deadline is None
            &&& after.identity == phone.identity
            &&& after.direction == phone.direction
            &&& after.profile == phone.profile
            &&& after.config == phone.config
            &&& after.external_busy == phone.external_busy
            &&& after.low_latency == phone.low_latency
            &&& after.receive_muted == phone.receive_muted
            &&& after.transmit_muted == phone.transmit_muted
            &&& later < now + phone.config.wait_time ==> after.ticked(later) == after
            &&& later >= now + phone.config.wait_time ==> after.ticked(later).state is Available
        }),
{
}

/// The other party answers: the call may take as long to be established as the settings say
/// from that moment on. Nothing else of the call changes.
pub proof fn law_connecting_call_waits_its_time(phone: TelephoneModel, now: Nanos, later: Nanos)
    requires
        phone.wf(),
        phone.identity is Some,
        !(phone.direction == Some(CallDirection::Incoming) && phone.state is Ringing),
        now + phone.config.connect_time <= u64::MAX,
    ensures
        ({
            let after = phone.after_signal(Signal::Code(SignalCode::Connecting), now);
            &&& after.state is Connecting
            &&& after.call_deadline == Some((now + phone.config.connect_time) as Nanos)
            &&& after.auto_answer_deadline is None
            &&& after.identity == phone.identity
            &&& after.direction == phone.direction
            &&& after.profile == phone.profile
            &&& after.config == phone.config
            &&& after.external_busy == phone.external_busy
            &&& after.low_latency == phone.low_latency
            &&& after.receive_muted == phone.receive_muted
            &&& after.transmit_muted == phone.transmit_muted
            &&& later < now + phone.config.connect_time ==> after.ticked(later) == after
            &&& later >= now + phone.config.connect_time ==> after.ticked(later).state is Available
        }),
{
}

/// An outgoing call waits as long as the settings say, in the configured profile, and is given
/// up then; nothing that does not belong to a call changes.
pub proof fn law_outgoing_call_waits_its_time(
    phone: TelephoneModel,
    identity_hash: IdentityHash,
    now: Nanos,
    later: Nanos,
)
    requires
        phone.wf(),
        phone.state is Available,
        now + phone.config.wait_time <= u64::MAX,
    ensures
        ({
            let call = phone.called_out(identity_hash, now);
            &&& call.wf()
            &&& call.state is Calling
            &&& call.identity == Some(identity_hash)
            &&& call.direction == Some(CallDirection::Outgoing)
            &&& call.profile == phone.config.profile
            &&& call.call_deadline == Some((now + phone.config.wait_time) as Nanos)
            &&& call.auto_answer_deadline is None
            &&& call.config == phone.config
            &&& call.external_busy == phone.external_busy
            &&& call.low_latency == phone.low_latency
            &&& call.receive_muted == phone.receive_muted
            &&& call.transmit_muted == phone.transmit_muted
            &&& later < now + phone.config.wait_time ==> call.ticked(later) == call
            &&& later >= now + phone.config.wait_time ==> call.ticked(later).state is Available
                && call.ticked(later).identity is None
        }),
{
}

/// An incoming call rings as long as the settings say; where calls are answered by themselves
/// it is answered once the delay is over, even where that is later than the ringing time was,
/// if nobody looked before.
pub proof fn law_incoming_call_rings_its_time(
    phone: TelephoneModel,
    identity_hash: IdentityHash,
    now: Nanos,
    later: Nanos,
)
    requires
        phone.wf(),
        phone.state is Available,
        now + phone.config.ring_time <= u64::MAX,
        phone.config.auto_answer_after matches Some(delay) ==> now + delay <= u64::MAX,
        later + phone.config.connect_time <= u64::MAX,
    ensures
        ({
            let call = phone.rung(identity_hash, now);
            let answered = match phone.config.auto_answer_after {
                Some(delay) => later >= now + delay,
                None => false,
            };
            &&& call.wf()
            &&& call.state is Ringing
            &&& call.identity == Some(identity_hash)
            &&& call.direction == Some(CallDirection::Incoming)
            &&& call.profile == phone.profile
            &&& call.call_deadline == Some((now + phone.config.ring_time) as Nanos)
            &&& call.config == phone.config
            &&& call.external_busy == phone.external_busy
            &&& call.low_latency == phone.low_latency
            &&& call.receive_muted == phone.receive_muted
            &&& call.transmit_muted == phone.transmit_muted
            &&& answered ==> call.ticked(later).state is Connecting && call.ticked(
                later,
            ).call_deadline == Some((later + phone.config.connect_time) as Nanos) && call.ticked(
                later,
            ).identity == Some(identity_hash)
            &&& !answered && later < now + phone.config.ring_time ==> call.ticked(later) == call
            &&& !answered && later >= now + phone.config.ring_time ==> call.ticked(
                later,
            ).state is Available && call.ticked(later).identity is None
        }),
{
}

/// An answered call may take as long to be established as the settings say from the answer on;
/// the party, the direction and the profile stay, and it is not answered by itself any more.
pub proof fn law_answered_call_waits_its_time(phone: TelephoneModel, now: Nanos, later: Nanos)
    requires
        phone.wf(),
        phone.state is Ringing,
        now + phone.config.connect_time <= u64::MAX,
    ensures
        ({
            let answered = phone.waiting_to_connect(now);
            &&& answered.wf()
            &&& answered.state is Connecting
            &&& answered.call_deadline == Some((now + phone.config.connect_time) as Nanos)
            &&& answered.auto_answer_deadline is None
            &&& answered.identity == phone.identity
            &&& answered.direction == phone.direction
            &&& answered.profile == phone.profile
            &&& answered.config == phone.config
            &&& answered.external_busy == phone.external_busy
            &&& answered.low_latency == phone.low_latency
            &&& answered.receive_muted == phone.receive_muted
            &&& answered.transmit_muted == phone.transmit_muted
            &&& later < now + phone.config.connect_time ==> answered.ticked(later) == answered
            &&& later >= now + phone.config.connect_time ==> answered.ticked(
                later,
            ).state is Available
        }),
{
}

/// Only a call that is connecting, or that was not answered yet by the party that is called, is
/// established. It keeps party, direction and profile, and has no deadline from then on.
pub proof fn law_established_call_has_no_deadline(phone: TelephoneModel, now: Nanos)
    requires
        phone.wf(),
        phone.identity is Some,
    ensures
        ({
            let after = phone.after_signal(Signal::Code(SignalCode::Established), now);
            &&& after.state is Established <==> phone.state is Connecting || phone.state is Calling
                || phone.state is Established
            &&& after.state is Established ==> after.call_deadline is None
                && after.auto_answer_deadline is None && after == phone.established()
            &&& !(after.state is Established) ==> after == phone
            &&& after.identity == phone.identity
            &&& after.direction == phone.direction
            &&& after.profile == phone.profile
            &&& after.config == phone.config
            &&& after.external_busy == phone.external_busy
            &&& after.low_latency == phone.low_latency
            &&& after.receive_muted == phone.receive_muted
            &&& after.transmit_muted == phone.transmit_muted
        }),
        phone.can_establish() <==> phone.state is Connecting || phone.state is Calling,
        phone.established().state is Established,
{
}

/// The profile that the other party prefers is the profile of the call from then on, whatever
/// the state of the call, and nothing else changes.
pub proof fn law_preferred_profile_is_taken(
    phone: TelephoneModel,
    profile: CallProfile,
    now: Nanos,
)
    requires
        phone.wf(),
        phone.identity is Some,
    ensures
        ({
            let after = phone.after_signal(Signal::PreferredProfile(profile), now);
            &&& after.profile == profile
            &&& after == (TelephoneModel { profile, ..phone })
        }),
{
}

/// Signals that say nothing about a call, and unknown ones, change nothing.
pub proof fn law_other_signals_change_nothing(phone: TelephoneModel, signal: Signal, now: Nanos)
    requires
        phone.wf(),
        signal is Unknown || signal == Signal::Code(SignalCode::Available) || signal
            == Signal::Code(SignalCode::Calling),
    ensures
        phone.after_signal(signal, now) == phone,
        phone.signal_events(signal) == seq![CallEvent::SignalReceived(signal)],
{
}

/// Where the other party is busy or rejects the call, the call is gone: no party, no
/// direction, no deadline, nothing muted, and the configured profile. What does not belong to
/// the call stays.
pub proof fn law_refused_call_is_gone(phone: TelephoneModel, signal: Signal, now: Nanos)
    requires
        phone.wf(),
        phone.identity is Some,
        !(phone.direction == Some(CallDirection::Incoming) && phone.state is Ringing),
        signal == Signal::Code(SignalCode::Busy) || signal == Signal::Code(SignalCode::Rejected),
    ensures
        ({
            let after = phone.after_signal(signal, now);
            &&& after.state is Available
            &&& after.identity is None
            &&& after.direction is None
            &&& after.call_deadline is None
            &&& after.auto_answer_deadline is None
            &&& !after.receive_muted
            &&& !after.transmit_muted
            &&& after.profile == phone.config.profile
            &&& after.config == phone.config
            &&& after.external_busy == phone.external_busy
            &&& after.low_latency == phone.low_latency
        }),
{
}

/// The events of a signal begin with the signal. After it exactly the changes are told: the
/// new state where it is another one, the end of muting where something was muted, another
/// profile that the other party prefers, and who was reached or lost.
pub proof fn law_signal_events_tell_the_change(phone: TelephoneModel, signal: Signal, now: Nanos)
    requires
        phone.wf(),
        phone.signal_time_fits(signal, now),
    ensures
        ({
            let after = phone.after_signal(signal, now);
            let events = phone.signal_events(signal);
            &&& events.len() > 0
            &&& events[0] == CallEvent::SignalReceived(signal)
            &&& forall|state: CallState|
                #[trigger] events.contains(CallEvent::StateChanged(state)) <==> (phone.state
                    != state && after.state == state)
            &&& forall|muted: bool|
                #[trigger] events.contains(CallEvent::ReceiveMutedChanged(muted)) <==> (
                phone.receive_muted && !after.receive_muted && !muted)
            &&& forall|muted: bool|
                #[trigger] events.contains(CallEvent::TransmitMutedChanged(muted)) <==> (
                phone.transmit_muted && !after.transmit_muted && !muted)
            &&& forall|profile: CallProfile|
                #[trigger] events.contains(CallEvent::ProfileChanged(profile)) <==> (signal
                    is PreferredProfile && phone.profile != profile && after.profile == profile)
            &&& forall|identity_hash: IdentityHash|
                #[trigger] events.contains(CallEvent::CallEstablished { identity_hash }) <==> (
                !(phone.state is Established) && after.state is Established && phone.identity
                    == Some(identity_hash))
            &&& forall|identity_hash: Option<IdentityHash>|
                #[trigger] events.contains(CallEvent::Busy { identity_hash }) <==> (phone.identity
                    is Some && after.identity is None && signal == Signal::Code(SignalCode::Busy)
                    && identity_hash == phone.identity)
            &&& forall|identity_hash: Option<IdentityHash>|
                #[trigger] events.contains(CallEvent::Rejected { identity_hash }) <==> (
                phone.identity is Some && after.identity is None && signal == Signal::Code(
                    SignalCode::Rejected,
                ) && identity_hash == phone.identity)
        }),
{
    let events = phone.signal_events(signal);
    assert(events.len() <= 5);
    if events.len() > 1 {
        assert(events.contains(events[1]));
    }
    if events.len() > 2 {
        assert(events.contains(events[2]));
    }
    if events.len() > 3 {
        assert(events.contains(events[3]));
    }
    if events.len() > 4 {
        assert(events.contains(events[4]));
    }
}

/// The events of the end of a call tell first that nothing is muted any more, then that the
/// telephone is available, and why the call ended last.
pub proof fn law_end_events_tell_the_change(phone: TelephoneModel, reason: CallEvent)
    requires
        phone.wf(),
        phone.identity is Some,
    ensures
        ({
            let events = phone.end_events(reason);
            &&& events.len() >= 2
            &&& events.last() == reason
            &&& events[events.len() - 2] == CallEvent::StateChanged(CallState::Available)
            &&& phone.receive_muted ==> events[0] == CallEvent::ReceiveMutedChanged(false)
            &&& phone.transmit_muted ==> events[events.len() - 3]
                == CallEvent::TransmitMutedChanged(false)
            &&& events.len() == 2 + (if phone.receive_muted {
                1int
            } else {
                0
            }) + (if phone.transmit_muted {
                1int
            } else {
                0
            })
        }),
{
}

/// A party may call exactly if the telephone is not busy, the party is not blocked, and those
/// who may call are all or are listed with that party.
pub proof fn law_who_may_call(phone: TelephoneModel, identity_hash: Seq<u8>)
    ensures
        phone.accepts(identity_hash) <==> {
            &&& phone.state is Available
            &&& !phone.external_busy
            &&& !phone.config.blocked_callers@.contains(identity_hash)
            &&& (phone.config.allowed_callers is All || (
            phone.config.allowed_callers matches CallerPolicy::List(allowed) && allowed@.contains(
                identity_hash,
            )))
        },
{
}

/// Looking at the clock keeps what holds of every telephone, and changes neither the settings
/// nor what does not belong to a call. A call that goes away leaves nothing behind.
pub proof fn law_time_keeps_the_telephone_sound(phone: TelephoneModel, now: Nanos)
    requires
        phone.wf(),
        phone.auto_answer_due(now) ==> now + phone.config.connect_time <= u64::MAX,
    ensures
        ({
            let after = phone.ticked(now);
            &&& after.wf()
            &&& after.config == phone.config
            &&& after.external_busy == phone.external_busy
            &&& after.low_latency == phone.low_latency
            &&& after.identity is Some ==> after.identity == phone.identity && after.direction
                == phone.direction && after.profile == phone.profile && after.receive_muted
                == phone.receive_muted && after.transmit_muted == phone.transmit_muted
            &&& phone.identity is Some && after.identity is None ==> !after.receive_muted
                && !after.transmit_muted && after.profile == phone.config.profile
        }),
{
}

/// Without a call no status code changes the telephone.
pub proof fn law_idle_telephone_ignores_status(phone: TelephoneModel, code: SignalCode, now: Nanos)
    requires
        phone.wf(),
        phone.state is Available,
    ensures
        phone.after_signal(Signal::Code(code), now) == phone,
        phone.signal_events(Signal::Code(code)) == seq![
            CallEvent::SignalReceived(Signal::Code(code)),
        ],
{
}

/// Without a call a preferred profile changes nothing either.
pub proof fn law_idle_telephone_ignores_profiles(
    phone: TelephoneModel,
    profile: CallProfile,
    now: Nanos,
)
    requires
        phone.wf(),
        phone.state is Available,
    ensures
        phone.after_signal(Signal::PreferredProfile(profile), now) == phone,
{
}

/// The other party cannot move an incoming call on before it is answered.
pub proof fn law_unanswered_call_ignores_status(phone: TelephoneModel, code: SignalCode, now: Nanos)
    requires
        phone.wf(),
        phone.unanswered(),
    ensures
        phone.after_signal(Signal::Code(code), now) == phone,
{
}

/// An established call is not established a second time.
pub proof fn law_established_call_stays(phone: TelephoneModel, now: Nanos)
    requires
        phone.wf(),
        phone.state is Established,
    ensures
        phone.after_signal(Signal::Code(SignalCode::Established), now) == phone,
        phone.signal_events(Signal::Code(SignalCode::Established)) == seq![
            CallEvent::SignalReceived(Signal::Code(SignalCode::Established)),
        ],
{
}

/// Every signal keeps what holds of every telephone.
pub proof fn law_signals_keep_the_telephone_sound(
    phone: TelephoneModel,
    signal: Signal,
    now: Nanos,
)
    requires
        phone.wf(),
        phone.signal_time_fits(signal, now),
    ensures
        phone.after_signal(signal, now).wf(),
        phone.after_signal(signal, now).config == phone.config,
        phone.after_signal(signal, now).external_busy == phone.external_busy,
{
}

/// However a call goes away, nothing of it is left: the telephone is as available as it
/// was made, with nothing muted and the configured profile.
pub proof fn law_nothing_of_a_call_is_left(phone: TelephoneModel)
    requires
        phone.wf(),
    ensures
        phone.idle_again().wf(),
        !phone.idle_again().active(),
        !phone.idle_again().receive_muted,
        !phone.idle_again().transmit_muted,
        phone.idle_again().profile == phone.config.profile,
        phone.idle_again().state is Available,
        phone.idle_again().identity is None,
        phone.idle_again().direction is None,
        phone.idle_again().call_deadline is None,
        phone.idle_again().auto_answer_deadline is None,
        phone.idle_again().config == phone.config,
        phone.idle_again().external_busy == phone.external_busy,
        phone.idle_again().low_latency == phone.low_latency,
        phone.idle_again().idle_again() == phone.idle_again(),
        phone.idle_again().busy() == phone.external_busy,
{
}

/// A busy signal and a rejection end a call as hanging up does: the telephone is idle again.
pub proof fn law_call_ends_agree(phone: TelephoneModel, now: Nanos)
    requires
        phone.wf(),
        phone.active(),
        !phone.unanswered(),
    ensures
        phone.after_signal(Signal::Code(SignalCode::Busy), now) == phone.idle_again(),
        phone.after_signal(Signal::Code(SignalCode::Rejected), now) == phone.idle_again(),
{
}

/// A telephone with a call takes no other.
pub proof fn law_one_call_at_a_time(phone: TelephoneModel, identity_hash: Seq<u8>)
    requires
        phone.wf(),
        phone.active(),
    ensures
        phone.busy(),
        !phone.accepts(identity_hash),
{
}

/// A call that is not established is given up at its deadline, and not before.
pub proof fn law_waiting_ends_at_the_deadline(phone: TelephoneModel, now: Nanos)
    requires
        phone.wf(),
        phone.call_deadline is Some,
        !phone.auto_answer_due(now),
    ensures
        now < phone.call_deadline->0 ==> phone.ticked(now) == phone,
        now >= phone.call_deadline->0 ==> phone.ticked(now) == phone.idle_again(),
{
}

/// Time alone changes neither an idle telephone nor an established call.
pub proof fn law_time_leaves_settled_telephones(phone: TelephoneModel, now: Nanos)
    requires
        phone.wf(),
        phone.state is Available || phone.state is Established,
    ensures
        phone.ticked(now) == phone,
{
}

/// Time alone answers only an incoming call that rings.
pub proof fn law_time_answers_only_ringing_calls(phone: TelephoneModel, now: Nanos)
    requires
        phone.wf(),
        phone.auto_answer_due(now),
    ensures
        phone.unanswered(),
        phone.ticked(now).state is Connecting,
        phone.ticked(now).identity == phone.identity,
        !phone.ticked(now).auto_answer_due(now),
{
}

/// Unless it is told otherwise, a telephone rings for a minute, waits seventy seconds for the other
/// party, and lets a call take five seconds to be established.
pub proof fn law_usual_times_of_a_call(
    phone: TelephoneModel,
    identity_hash: IdentityHash,
    now: Nanos,
)
    requires
        phone.wf(),
        phone.config.has_default_settings(),
        now + 70_000_000_000 <= u64::MAX,
    ensures
        phone.state is Available ==> phone.rung(identity_hash, now).call_deadline == Some(
            (now + 60_000_000_000) as Nanos,
        ),
        phone.state is Available ==> phone.rung(identity_hash, now).auto_answer_deadline is None,
        phone.state is Available ==> phone.called_out(identity_hash, now).call_deadline == Some(
            (now + 70_000_000_000) as Nanos,
        ),
        phone.state is Available ==> phone.called_out(identity_hash, now).profile
            == CallProfile::MediumQuality,
        phone.state is Ringing ==> phone.waiting_to_connect(now).call_deadline == Some(
            (now + 5_000_000_000) as Nanos,
        ),
{
}

/// A new telephone is free, and nothing about it is muted.
pub proof fn law_new_telephone_is_free(phone: TelephoneModel)
    requires
        phone.is_new(),
    ensures
        phone.state is Available,
        phone.identity is None,
        phone.direction is None,
        phone.profile == phone.config.profile,
        !phone.external_busy,
        !phone.low_latency,
        !phone.receive_muted,
        !phone.transmit_muted,
        phone.call_deadline is None,
        phone.auto_answer_deadline is None,
{
}

/// Unless it is told otherwise, a telephone announces itself every three hours, evens the volume
/// out, answers nothing by itself, and lets the sound that it sends in after a moment.
pub proof fn law_usual_settings(config: TelephoneConfig)
    requires
        config.has_default_settings(),
    ensures
        config.announce_interval == 3 * 60 * 60 * 1_000_000_000,
        config.announce_interval >= MIN_ANNOUNCE_INTERVAL,
        config.use_agc,
        config.auto_answer_after is None,
        config.receive_gain_db.is_zero() && config.transmit_gain_db.is_zero(),
        config.transmit_start_skip + config.transmit_start_ease_in == 300_000_000,
        config.transmit_start_skip * 3 == config.transmit_start_ease_in,
        config.busy_tone_duration * 4 == 17 * 1_000_000_000,
        config.wait_time == config.ring_time + 10_000_000_000,
{
}

} // verus!
