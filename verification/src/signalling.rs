//! In-band signalling: codes, preferred profiles and their wire values.
use crate::profile::CallProfile;
use crate::text::push_hex_byte;
use vstd::prelude::*;
use vstd::std_specs::convert::{FromSpecImpl, TryFromSpecImpl};

verus! {

/// The packet field that holds signals.
pub const FIELD_SIGNALLING: u8 = 0x00;

/// The packet field that holds frames.
pub const FIELD_FRAMES: u8 = 0x01;

/// A preferred profile is signalled as this value plus the profile's byte.
pub const PREFERRED_PROFILE_BASE: u16 = 0x00FF;

/// Telephony signalling codes.
#[derive(Debug, Clone, Copy, PartialEq, Eq, Hash, Structural)]
pub enum SignalCode {
    Busy,
    Rejected,
    Calling,
    Available,
    Ringing,
    Connecting,
    Established,
}

/// A byte that is no signalling code.
#[derive(Debug, Clone, Copy, PartialEq, Eq, Structural)]
pub struct SignalCodeError(pub u8);

impl SignalCodeError {
    /// The error as text.
    pub fn message(&self) -> (text: String)
        ensures
            text@ == "unknown LXST telephony signal code 0x"@ + crate::text::hex_byte_text(self.0),
    {
        let mut text = "unknown LXST telephony signal code 0x".to_owned();
        push_hex_byte(&mut text, self.0);
        text
    }
}

impl SignalCode {
    /// The code's byte.
    pub open spec fn byte(self) -> u8 {
        match self {
            SignalCode::Busy => 0,
            SignalCode::Rejected => 1,
            SignalCode::Calling => 2,
            SignalCode::Available => 3,
            SignalCode::Ringing => 4,
            SignalCode::Connecting => 5,
            SignalCode::Established => 6,
        }
    }

    /// The code whose byte is `byte`.
    pub open spec fn of_byte(byte: u8) -> Result<SignalCode, SignalCodeError> {
        if byte == 0 {
            Ok(SignalCode::Busy)
        } else if byte == 1 {
            Ok(SignalCode::Rejected)
        } else if byte == 2 {
            Ok(SignalCode::Calling)
        } else if byte == 3 {
            Ok(SignalCode::Available)
        } else if byte == 4 {
            Ok(SignalCode::Ringing)
        } else if byte == 5 {
            Ok(SignalCode::Connecting)
        } else if byte == 6 {
            Ok(SignalCode::Established)
        } else {
            Err(SignalCodeError(byte))
        }
    }

    /// The code's byte.
    pub fn as_u8(self) -> (byte: u8)
        ensures
            byte == self.byte(),
    {
        match self {
            SignalCode::Busy => 0,
            SignalCode::Rejected => 1,
            SignalCode::Calling => 2,
            SignalCode::Available => 3,
            SignalCode::Ringing => 4,
            SignalCode::Connecting => 5,
            SignalCode::Established => 6,
        }
    }
}

impl TryFrom<u8> for SignalCode {
    type Error = SignalCodeError;

    fn try_from(value: u8) -> (code: Result<Self, SignalCodeError>) {
        match value {
            0 => Ok(SignalCode::Busy),
            1 => Ok(SignalCode::Rejected),
            2 => Ok(SignalCode::Calling),
            3 => Ok(SignalCode::Available),
            4 => Ok(SignalCode::Ringing),
            5 => Ok(SignalCode::Connecting),
            6 => Ok(SignalCode::Established),
            other => Err(SignalCodeError(other)),
        }
    }
}

impl TryFromSpecImpl<u8> for SignalCode {
    open spec fn obeys_try_from_spec() -> bool {
        true
    }

    open spec fn try_from_spec(value: u8) -> Result<Self, SignalCodeError> {
        SignalCode::of_byte(value)
    }
}

/// A signalling value.
#[derive(Debug, Clone, Copy, PartialEq, Eq, Hash, Structural)]
pub enum Signal {
    Code(SignalCode),
    PreferredProfile(CallProfile),
    Unknown(u64),
}

impl Signal {
    /// The number on the wire.
    pub open spec fn wire(self) -> u64 {
        match self {
            Signal::Code(code) => code.byte() as u64,
            Signal::PreferredProfile(profile) => (PREFERRED_PROFILE_BASE + profile.byte()) as u64,
            Signal::Unknown(value) => value,
        }
    }

    /// What a number on the wire stands for.
    pub open spec fn of_wire(value: u64) -> Signal {
        if value <= 6 {
            Signal::Code(SignalCode::of_byte(value as u8)->Ok_0)
        } else if PREFERRED_PROFILE_BASE <= value <= PREFERRED_PROFILE_BASE + 255
            && CallProfile::of_byte((value - PREFERRED_PROFILE_BASE) as u8) is Ok {
            Signal::PreferredProfile(
                CallProfile::of_byte((value - PREFERRED_PROFILE_BASE) as u8)->Ok_0,
            )
        } else {
            Signal::Unknown(value)
        }
    }

    /// Whether the signal is written the way in which it would be read: an unknown
    /// value is no number that stands for a code or a profile.
    pub open spec fn canonical(self) -> bool {
        Signal::of_wire(self.wire()) == self
    }

    /// The number on the wire.
    pub fn to_wire_value(self) -> (value: u64)
        ensures
            value == self.wire(),
    {
        match self {
            Signal::Code(code) => code.as_u8() as u64,
            Signal::PreferredProfile(profile) => {
                PREFERRED_PROFILE_BASE as u64 + profile.as_u8() as u64
            },
            Signal::Unknown(value) => value,
        }
    }

    /// What a number on the wire stands for.
    pub fn from_wire_value(value: u64) -> (signal: Self)
        ensures
            signal == Signal::of_wire(value),
    {
        if value <= SignalCode::Established.as_u8() as u64 {
            return match SignalCode::try_from(value as u8) {
                Ok(code) => Signal::Code(code),
                Err(_) => Signal::Unknown(value),
            };
        }
        if value >= PREFERRED_PROFILE_BASE as u64 {
            let profile: u64 = value - PREFERRED_PROFILE_BASE as u64;
            if profile <= u8::MAX as u64 {
                if let Ok(profile) = CallProfile::try_from(profile as u8) {
                    return Signal::PreferredProfile(profile);
                }
            }
        }
        Signal::Unknown(value)
    }
}

impl From<u8> for Signal {
    fn from(value: u8) -> (signal: Self) {
        Signal::from_wire_value(value as u64)
    }
}

impl FromSpecImpl<u8> for Signal {
    open spec fn obeys_from_spec() -> bool {
        true
    }

    open spec fn from_spec(value: u8) -> Self {
        Signal::of_wire(value as u64)
    }
}

/// Whatever number is read, writing the signal gives the number back.
pub proof fn law_signal_wire_value_is_kept(value: u64)
    ensures
        Signal::of_wire(value).wire() == value,
        Signal::of_wire(value).canonical(),
{
}

/// Codes and preferred profiles survive writing and reading.
pub proof fn law_signal_round_trip(signal: Signal)
    requires
        !(signal is Unknown),
    ensures
        Signal::of_wire(signal.wire()) == signal,
{
}

} // verus!
