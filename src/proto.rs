//! Protocol constants and the small enumerations of the wire format.
use vstd::prelude::*;

verus! {

/// First byte of the greeting exchanged on connect.
pub const GREETING: u8 = 0xEB;

/// Protocol version, sent little-endian after the greeting byte.
pub const PROTOCOL_VERSION: u16 = 1;

pub const RESPONSE_OK: u8 = 0x01;

pub const OP_ACK: u8 = 0xFE;

pub const ERR_NOT_REGISTERED: u8 = 0x71;

pub const ERR_DATA: u8 = 0x72;

pub const ERR_IO: u8 = 0x73;

pub const ERR_OTHER: u8 = 0x74;

pub const ERR_NOT_SUPPORTED: u8 = 0x75;

pub const ERR_BUSY: u8 = 0x76;

pub const ERR_NOT_DELIVERED: u8 = 0x77;

pub const ERR_TIMEOUT: u8 = 0x78;

pub const DEFAULT_QUEUE_SIZE: usize = 8192;

pub const DEFAULT_BUF_SIZE: usize = 16384;

/// Operation codes carried in the lower six bits of an operation's flags byte.
pub const OP_NOP: u8 = 0x00;

pub const OP_PUBLISH: u8 = 0x01;

pub const OP_SUBSCRIBE: u8 = 0x02;

pub const OP_UNSUBSCRIBE: u8 = 0x03;

pub const OP_MESSAGE: u8 = 0x12;

pub const OP_BROADCAST: u8 = 0x13;

/// Kind byte of a frame routed to a receiving client.
pub const KIND_PUBLISH: u8 = 0x01;

pub const KIND_MESSAGE: u8 = 0x12;

pub const KIND_BROADCAST: u8 = 0x13;

#[derive(Clone, Copy, Debug, PartialEq, Eq, Structural)]
pub enum FrameKind {
    Message,
    Broadcast,
    Publish,
    Prepared,
}

#[derive(Clone, Copy, Debug, PartialEq, Eq, Structural)]
pub enum FrameOp {
    Nop,
    Message,
    Broadcast,
    PublishTopic,
    SubscribeTopic,
    UnsubscribeTopic,
}

#[derive(Clone, Copy, Debug, PartialEq, Eq, Structural)]
pub enum QoS {
    No,
    Processed,
}

pub open spec fn kind_byte_spec(k: FrameKind) -> u8 {
    match k {
        FrameKind::Message => KIND_MESSAGE,
        FrameKind::Broadcast => KIND_BROADCAST,
        FrameKind::Publish => KIND_PUBLISH,
        FrameKind::Prepared => 0xFF,
    }
}

pub open spec fn kind_of_byte_spec(b: u8) -> Option<FrameKind> {
    if b == KIND_MESSAGE {
        Some(FrameKind::Message)
    } else if b == KIND_BROADCAST {
        Some(FrameKind::Broadcast)
    } else if b == KIND_PUBLISH {
        Some(FrameKind::Publish)
    } else {
        None
    }
}

pub open spec fn op_of_code_spec(c: u8) -> Option<FrameOp> {
    if c == OP_NOP {
        Some(FrameOp::Nop)
    } else if c == OP_MESSAGE {
        Some(FrameOp::Message)
    } else if c == OP_BROADCAST {
        Some(FrameOp::Broadcast)
    } else if c == OP_PUBLISH {
        Some(FrameOp::PublishTopic)
    } else if c == OP_SUBSCRIBE {
        Some(FrameOp::SubscribeTopic)
    } else if c == OP_UNSUBSCRIBE {
        Some(FrameOp::UnsubscribeTopic)
    } else {
        None
    }
}

pub open spec fn qos_of_code_spec(c: u8) -> Option<QoS> {
    if c == 0 {
        Some(QoS::No)
    } else if c == 1 {
        Some(QoS::Processed)
    } else {
        None
    }
}

impl FrameKind {
    /// The byte that opens a routed frame of this kind.
    pub fn as_byte(&self) -> (r: u8)
        ensures
            r == kind_byte_spec(*self),
    {
        match self {
            FrameKind::Message => KIND_MESSAGE,
            FrameKind::Broadcast => KIND_BROADCAST,
            FrameKind::Publish => KIND_PUBLISH,
            FrameKind::Prepared => 0xFF,
        }
    }

    /// The routed kind that a byte names, if any.
    pub fn from_byte(b: u8) -> (r: Option<FrameKind>)
        ensures
            r == kind_of_byte_spec(b),
    {
        if b == KIND_MESSAGE {
            Some(FrameKind::Message)
        } else if b == KIND_BROADCAST {
            Some(FrameKind::Broadcast)
        } else if b == KIND_PUBLISH {
            Some(FrameKind::Publish)
        } else {
            None
        }
    }
}

impl FrameOp {
    /// The operation that a six-bit operation code names, if any.
    pub fn from_code(c: u8) -> (r: Option<FrameOp>)
        ensures
            r == op_of_code_spec(c),
    {
        if c == OP_NOP {
            Some(FrameOp::Nop)
        } else if c == OP_MESSAGE {
            Some(FrameOp::Message)
        } else if c == OP_BROADCAST {
            Some(FrameOp::Broadcast)
        } else if c == OP_PUBLISH {
            Some(FrameOp::PublishTopic)
        } else if c == OP_SUBSCRIBE {
            Some(FrameOp::SubscribeTopic)
        } else if c == OP_UNSUBSCRIBE {
            Some(FrameOp::UnsubscribeTopic)
        } else {
            None
        }
    }
}

impl QoS {
    /// The quality of service that a two-bit code names, if any.
    pub fn from_code(c: u8) -> (r: Option<QoS>)
        ensures
            r == qos_of_code_spec(c),
    {
        if c == 0 {
            Some(QoS::No)
        } else if c == 1 {
            Some(QoS::Processed)
        } else {
            None
        }
    }
}

} // verus!
