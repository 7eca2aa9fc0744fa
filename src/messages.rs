//! The control channel's message shapes. Every message carries a
//! `payload_type` tag by which the receiving side dispatches it.

use vstd::prelude::*;
use crate::latency::LatencyTracker;

verus! {

/// The envelope common to all messages.
pub struct MessageBase {
    pub payload_type: String,
}

/// An input event relayed as text, with optional latency tracking.
pub struct MessageInput {
    pub base: MessageBase,
    pub data: String,
    pub latency: Option<LatencyTracker>,
}

pub struct MessageLog {
    pub base: MessageBase,
    pub level: String,
    pub message: String,
    pub time: String,
}

/// A network path candidate of the peer session.
pub struct IceCandidate {
    pub candidate: String,
    pub sdp_mid: Option<String>,
    pub sdp_mline_index: Option<u16>,
    pub username_fragment: Option<String>,
}

#[derive(Debug, PartialEq, Eq, Structural, Clone, Copy)]
pub enum SdpType {
    Unspecified,
    Offer,
    Pranswer,
    Answer,
    Rollback,
}

/// A session description: its role in the exchange and its text.
pub struct SessionDescription {
    pub sdp_type: SdpType,
    pub sdp: String,
}

pub struct MessageICE {
    pub base: MessageBase,
    pub candidate: IceCandidate,
}

pub struct MessageSDP {
    pub base: MessageBase,
    pub sdp: SessionDescription,
}

#[derive(Debug, PartialEq, Eq, Structural, Clone, Copy)]
pub enum JoinerType {
    JoinerNode,
    JoinerClient,
}

pub open spec fn joiner_code(j: JoinerType) -> i32 {
    match j {
        JoinerType::JoinerNode => 0,
        JoinerType::JoinerClient => 1,
    }
}

impl JoinerType {
    /// The joiner type with wire code `value`, if there is one.
    pub fn from_i32(value: i32) -> (r: Option<JoinerType>)
        ensures
            r matches Some(j) ==> joiner_code(j) == value,
            r is None <==> !(0 <= value <= 1),
    {
        if value == 0 {
            Some(JoinerType::JoinerNode)
        } else if value == 1 {
            Some(JoinerType::JoinerClient)
        } else {
            None
        }
    }

    /// The wire code.
    pub fn to_i32(self) -> (r: i32)
        ensures
            r == joiner_code(self),
    {
        match self {
            JoinerType::JoinerNode => 0,
            JoinerType::JoinerClient => 1,
        }
    }
}

pub struct MessageJoin {
    pub base: MessageBase,
    pub joiner_type: JoinerType,
}

/// The relay's answer to a join: the room is unknown, held by another node,
/// or free for this one.
#[derive(Debug, PartialEq, Eq, Structural, Clone, Copy)]
pub enum AnswerType {
    AnswerOffline,
    AnswerInUse,
    AnswerOK,
}

pub open spec fn answer_code(a: AnswerType) -> i32 {
    match a {
        AnswerType::AnswerOffline => 0,
        AnswerType::AnswerInUse => 1,
        AnswerType::AnswerOK => 2,
    }
}

impl AnswerType {
    /// The answer type with wire code `value`, if there is one.
    pub fn from_i32(value: i32) -> (r: Option<AnswerType>)
        ensures
            r matches Some(a) ==> answer_code(a) == value,
            r is None <==> !(0 <= value <= 2),
    {
        if value == 0 {
            Some(AnswerType::AnswerOffline)
        } else if value == 1 {
            Some(AnswerType::AnswerInUse)
        } else if value == 2 {
            Some(AnswerType::AnswerOK)
        } else {
            None
        }
    }

    /// The wire code.
    pub fn to_i32(self) -> (r: i32)
        ensures
            r == answer_code(self),
    {
        match self {
            AnswerType::AnswerOffline => 0,
            AnswerType::AnswerInUse => 1,
            AnswerType::AnswerOK => 2,
        }
    }
}

pub struct MessageAnswer {
    pub base: MessageBase,
    pub answer_type: AnswerType,
}

impl MessageBase {
    /// An envelope with the given tag.
    pub fn tagged(payload_type: &str) -> (r: MessageBase)
        ensures
            r.payload_type@ == payload_type@,
    {
        MessageBase { payload_type: String::from_str(payload_type) }
    }
}

impl MessageJoin {
    /// The join request that a node sends for its room.
    pub fn node() -> (r: MessageJoin)
        ensures
            r.base.payload_type@ == "join"@,
            r.joiner_type == JoinerType::JoinerNode,
    {
        MessageJoin { base: MessageBase::tagged("join"), joiner_type: JoinerType::JoinerNode }
    }
}

impl MessageICE {
    pub fn new(candidate: IceCandidate) -> (r: MessageICE)
        ensures
            r.base.payload_type@ == "ice"@,
            r.candidate == candidate,
    {
        MessageICE { base: MessageBase::tagged("ice"), candidate }
    }
}

impl MessageSDP {
    pub fn new(sdp: SessionDescription) -> (r: MessageSDP)
        ensures
            r.base.payload_type@ == "sdp"@,
            r.sdp == sdp,
    {
        MessageSDP { base: MessageBase::tagged("sdp"), sdp }
    }
}

} // verus!
