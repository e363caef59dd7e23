//! The closed enumerations of the protocol and the sample records that the
//! analyzer hands to the metrics store.
use vstd::prelude::*;

verus! {

/// Message types, decoded from the byte at offset 14 of a native frame.
#[derive(Debug, Clone, Copy, PartialEq, Eq, Structural)]
pub enum PacketType {
    SoC,
    PReq,
    PRes,
    SoA,
    ASnd,
}

impl PacketType {
    pub open spec fn spec_from_u8(b: u8) -> Option<PacketType> {
        if b == 0x01 {
            Some(PacketType::SoC)
        } else if b == 0x03 {
            Some(PacketType::PReq)
        } else if b == 0x04 {
            Some(PacketType::PRes)
        } else if b == 0x05 {
            Some(PacketType::SoA)
        } else if b == 0x06 {
            Some(PacketType::ASnd)
        } else {
            None
        }
    }

    /// Decodes a message type code; an unknown code gives `None`.
    pub fn from_u8(b: u8) -> (r: Option<PacketType>)
        ensures
            r == Self::spec_from_u8(b),
    {
        if b == 0x01 {
            Some(PacketType::SoC)
        } else if b == 0x03 {
            Some(PacketType::PReq)
        } else if b == 0x04 {
            Some(PacketType::PRes)
        } else if b == 0x05 {
            Some(PacketType::SoA)
        } else if b == 0x06 {
            Some(PacketType::ASnd)
        } else {
            None
        }
    }
}

/// Service identifiers, as requested in a SoA frame and as announced in an
/// ASnd frame.
#[derive(Debug, Clone, Copy, PartialEq, Eq, Structural)]
pub enum ServiceId {
    NoService,
    Ident,
    Status,
    NmtRequestInvite,
    NmtCommand,
    Sdo,
    Unspecified,
}

impl ServiceId {
    pub open spec fn spec_from_u8(b: u8) -> Option<ServiceId> {
        if b == 0x00 {
            Some(ServiceId::NoService)
        } else if b == 0x01 {
            Some(ServiceId::Ident)
        } else if b == 0x02 {
            Some(ServiceId::Status)
        } else if b == 0x03 {
            Some(ServiceId::NmtRequestInvite)
        } else if b == 0x04 {
            Some(ServiceId::NmtCommand)
        } else if b == 0x05 {
            Some(ServiceId::Sdo)
        } else if b == 0xFF {
            Some(ServiceId::Unspecified)
        } else {
            None
        }
    }

    /// Decodes a service code; an unknown code gives `None`.
    pub fn from_u8(b: u8) -> (r: Option<ServiceId>)
        ensures
            r == Self::spec_from_u8(b),
    {
        if b == 0x00 {
            Some(ServiceId::NoService)
        } else if b == 0x01 {
            Some(ServiceId::Ident)
        } else if b == 0x02 {
            Some(ServiceId::Status)
        } else if b == 0x03 {
            Some(ServiceId::NmtRequestInvite)
        } else if b == 0x04 {
            Some(ServiceId::NmtCommand)
        } else if b == 0x05 {
            Some(ServiceId::Sdo)
        } else if b == 0xFF {
            Some(ServiceId::Unspecified)
        } else {
            None
        }
    }
}

/// Network management states. `Unknown` stands for a state byte that matches
/// none of the defined codes; it is kept apart from "no state observed", which
/// is `None` wherever a state is optional.
#[derive(Debug, Clone, Copy, PartialEq, Eq, Structural)]
pub enum NmtState {
    Off,
    Initialising,
    ResetApplication,
    ResetCommunication,
    ResetConfiguration,
    NotActive,
    PreOperational1,
    PreOperational2,
    ReadyToOperate,
    Operational,
    Stopped,
    BasicEthernet,
    Unknown,
}

impl NmtState {
    /// The protocol code of a state; `Unknown` sorts after every code.
    pub open spec fn spec_rank(self) -> int {
        match self {
            NmtState::Off => 0x00,
            NmtState::Initialising => 0x19,
            NmtState::ResetApplication => 0x29,
            NmtState::ResetCommunication => 0x39,
            NmtState::ResetConfiguration => 0x79,
            NmtState::NotActive => 0x1C,
            NmtState::PreOperational1 => 0x1D,
            NmtState::PreOperational2 => 0x5D,
            NmtState::ReadyToOperate => 0x6D,
            NmtState::Operational => 0xFD,
            NmtState::Stopped => 0x4D,
            NmtState::BasicEthernet => 0x1E,
            NmtState::Unknown => 0x100,
        }
    }

    /// The state whose code is `b`, or `Unknown` when no state has that code.
    pub open spec fn spec_from_u8(b: u8) -> NmtState {
        if b == 0x00 {
            NmtState::Off
        } else if b == 0x19 {
            NmtState::Initialising
        } else if b == 0x29 {
            NmtState::ResetApplication
        } else if b == 0x39 {
            NmtState::ResetCommunication
        } else if b == 0x79 {
            NmtState::ResetConfiguration
        } else if b == 0x1C {
            NmtState::NotActive
        } else if b == 0x1D {
            NmtState::PreOperational1
        } else if b == 0x5D {
            NmtState::PreOperational2
        } else if b == 0x6D {
            NmtState::ReadyToOperate
        } else if b == 0xFD {
            NmtState::Operational
        } else if b == 0x4D {
            NmtState::Stopped
        } else if b == 0x1E {
            NmtState::BasicEthernet
        } else {
            NmtState::Unknown
        }
    }

    pub fn from_u8(b: u8) -> (r: NmtState)
        ensures
            r == Self::spec_from_u8(b),
            r != NmtState::Unknown ==> r.spec_rank() == b,
    {
        if b == 0x00 {
            NmtState::Off
        } else if b == 0x19 {
            NmtState::Initialising
        } else if b == 0x29 {
            NmtState::ResetApplication
        } else if b == 0x39 {
            NmtState::ResetCommunication
        } else if b == 0x79 {
            NmtState::ResetConfiguration
        } else if b == 0x1C {
            NmtState::NotActive
        } else if b == 0x1D {
            NmtState::PreOperational1
        } else if b == 0x5D {
            NmtState::PreOperational2
        } else if b == 0x6D {
            NmtState::ReadyToOperate
        } else if b == 0xFD {
            NmtState::Operational
        } else if b == 0x4D {
            NmtState::Stopped
        } else if b == 0x1E {
            NmtState::BasicEthernet
        } else {
            NmtState::Unknown
        }
    }

    pub fn rank(&self) -> (r: u16)
        ensures
            r == self.spec_rank(),
    {
        match self {
            NmtState::Off => 0x00,
            NmtState::Initialising => 0x19,
            NmtState::ResetApplication => 0x29,
            NmtState::ResetCommunication => 0x39,
            NmtState::ResetConfiguration => 0x79,
            NmtState::NotActive => 0x1C,
            NmtState::PreOperational1 => 0x1D,
            NmtState::PreOperational2 => 0x5D,
            NmtState::ReadyToOperate => 0x6D,
            NmtState::Operational => 0xFD,
            NmtState::Stopped => 0x4D,
            NmtState::BasicEthernet => 0x1E,
            NmtState::Unknown => 0x100,
        }
    }
}

/// The sort position of an optional state: "not observed" first, then the
/// states by their code.
pub open spec fn spec_state_order(s: Option<NmtState>) -> int {
    match s {
        None => 0,
        Some(st) => st.spec_rank() + 1,
    }
}

pub fn state_order(s: Option<NmtState>) -> (r: u16)
    ensures
        r == spec_state_order(s),
{
    match s {
        None => 0,
        Some(st) => st.rank() + 1,
    }
}

/// What a response sample measured.
#[derive(Debug, Clone, Copy, PartialEq, Eq, Structural)]
pub enum ResponseKind {
    PRes,
    Ident,
    Status,
    Sdo,
    NmtCommand,
    Veth,
}

/// The protocol violations (and the one input diagnostic) that the analyzer
/// records.
#[derive(Debug, Clone, Copy, PartialEq, Eq, Structural)]
pub enum ErrorKind {
    UnexpectedVeth,
    PResMissing,
    SdoFromWrongNode,
    NmtFromWrongNode,
    UnexpectedPacketAfterSoa,
    IdentResponseMissing,
    StatusResponseMissing,
    MalformedFrame,
}

impl ErrorKind {
    pub open spec fn spec_index(self) -> int {
        match self {
            ErrorKind::UnexpectedVeth => 0,
            ErrorKind::PResMissing => 1,
            ErrorKind::SdoFromWrongNode => 2,
            ErrorKind::NmtFromWrongNode => 3,
            ErrorKind::UnexpectedPacketAfterSoa => 4,
            ErrorKind::IdentResponseMissing => 5,
            ErrorKind::StatusResponseMissing => 6,
            ErrorKind::MalformedFrame => 7,
        }
    }
}

/// The interval between two consecutive SoC frames.
#[derive(Debug, Clone, Copy, PartialEq, Eq, Structural)]
pub struct CycleSample {
    pub interval: i64,
    pub mn_state: Option<NmtState>,
}

/// The time from a request to its response.
#[derive(Debug, Clone, Copy, PartialEq, Eq, Structural)]
pub struct ResponseSample {
    pub kind: ResponseKind,
    pub node: u8,
    pub elapsed: i64,
    pub mn_state: Option<NmtState>,
    pub cn_state: Option<NmtState>,
}

/// A protocol violation, with the states that were known when it happened.
#[derive(Debug, Clone, Copy, PartialEq, Eq, Structural)]
pub struct ErrorSample {
    pub kind: ErrorKind,
    pub node: u8,
    pub mn_state: Option<NmtState>,
    pub cn_state: Option<NmtState>,
}

/// A node (240 for the managing node) entered a new state.
#[derive(Debug, Clone, Copy, PartialEq, Eq, Structural)]
pub struct StateChangeSample {
    pub node: u8,
    pub state: NmtState,
    pub elapsed: i64,
    pub packet_id: u64,
}

} // verus!
