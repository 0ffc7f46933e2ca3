//! Decoding of command bytes and keep-alive statuses.
use vstd::prelude::*;

verus! {

/// Kind of a message, from the command byte of its Init packet.
#[derive(Clone, Copy, Debug, PartialEq, Eq, Structural)]
pub enum CommandKind {
    KeepAlive,
    Msg,
    Cbor,
    Init,
    Ping,
    Cancel,
    Error,
    Wink,
    Lock,
    /// Any other command byte.
    Unknown(u8),
}

/// The kind that a command byte names.
pub open spec fn kind_of(b: u8) -> CommandKind {
    if b == 0xbb {
        CommandKind::KeepAlive
    } else if b == 0x83 {
        CommandKind::Msg
    } else if b == 0x90 {
        CommandKind::Cbor
    } else if b == 0x86 {
        CommandKind::Init
    } else if b == 0x81 {
        CommandKind::Ping
    } else if b == 0x91 {
        CommandKind::Cancel
    } else if b == 0xbf {
        CommandKind::Error
    } else if b == 0x88 {
        CommandKind::Wink
    } else if b == 0x84 {
        CommandKind::Lock
    } else {
        CommandKind::Unknown(b)
    }
}

impl From<u8> for CommandKind {
    fn from(b: u8) -> (r: CommandKind) {
        match b {
            0xbb => CommandKind::KeepAlive,
            0x83 => CommandKind::Msg,
            0x90 => CommandKind::Cbor,
            0x86 => CommandKind::Init,
            0x81 => CommandKind::Ping,
            0x91 => CommandKind::Cancel,
            0xbf => CommandKind::Error,
            0x88 => CommandKind::Wink,
            0x84 => CommandKind::Lock,
            _ => CommandKind::Unknown(b),
        }
    }
}

impl vstd::std_specs::convert::FromSpecImpl<u8> for CommandKind {
    open spec fn obeys_from_spec() -> bool {
        true
    }

    open spec fn from_spec(b: u8) -> CommandKind {
        kind_of(b)
    }
}

/// Status that a keep-alive message reports.
#[derive(Clone, Copy, Debug, PartialEq, Eq, Structural)]
pub enum Status {
    /// The authenticator is still processing the current request.
    Processing,
    /// The authenticator waits for user presence.
    UserPresenceNeeded,
    /// Any other status byte.
    Unknown(u8),
}

/// The status that a keep-alive status byte names.
pub open spec fn status_of(b: u8) -> Status {
    if b == 1 {
        Status::Processing
    } else if b == 2 {
        Status::UserPresenceNeeded
    } else {
        Status::Unknown(b)
    }
}

impl From<u8> for Status {
    fn from(b: u8) -> (r: Status) {
        match b {
            1 => Status::Processing,
            2 => Status::UserPresenceNeeded,
            _ => Status::Unknown(b),
        }
    }
}

impl vstd::std_specs::convert::FromSpecImpl<u8> for Status {
    open spec fn obeys_from_spec() -> bool {
        true
    }

    open spec fn from_spec(b: u8) -> Status {
        status_of(b)
    }
}

/// A keep-alive message without its status byte.
#[derive(Clone, Copy, Debug, PartialEq, Eq, Structural)]
pub enum DecodeError {
    MissingStatus,
}

/// The decoded meaning of a message.
pub enum Command {
    KeepAlive(Status),
    /// Any other command, with its payload unopened.
    Other { kind: CommandKind, payload: Vec<u8> },
}

/// Whether a message of this kind and payload can be decoded: a keep-alive
/// needs its status byte.
pub open spec fn decodable(kind: CommandKind, payload: Seq<u8>) -> bool {
    kind != CommandKind::KeepAlive || payload.len() > 0
}

impl Command {
    /// `self` is what a message of this kind and payload decodes to.
    pub open spec fn decodes_from(self, kind: CommandKind, payload: Seq<u8>) -> bool {
        match self {
            Command::KeepAlive(s) => kind == CommandKind::KeepAlive && payload.len() > 0 && s
                == status_of(payload[0]),
            Command::Other { kind: k, payload: p } => kind != CommandKind::KeepAlive && k == kind
                && p@ == payload,
        }
    }

    /// Decodes a message: a keep-alive reads its status from the first
    /// payload byte; any other kind keeps its payload as it is.
    pub fn decode(kind: CommandKind, payload: Vec<u8>) -> (r: Result<Command, DecodeError>)
        ensures
            r is Ok <==> decodable(kind, payload@),
            r matches Ok(c) ==> c.decodes_from(kind, payload@),
            r matches Err(e) ==> e == DecodeError::MissingStatus,
    {
        if kind == CommandKind::KeepAlive {
            if payload.len() == 0 {
                Err(DecodeError::MissingStatus)
            } else {
                Ok(Command::KeepAlive(Status::from(payload[0])))
            }
        } else {
            Ok(Command::Other { kind, payload })
        }
    }
}

/// What a decoded command means to the touch logic: a keep-alive status, or
/// the kind of any other command.
pub enum Decoded {
    KeepAlive(Status),
    Other(CommandKind),
}

/// What a message of this kind and payload decodes to, as far as the touch
/// logic reads it.
pub open spec fn decoded_of(kind: CommandKind, payload: Seq<u8>) -> Decoded {
    if kind == CommandKind::KeepAlive {
        Decoded::KeepAlive(status_of(payload[0]))
    } else {
        Decoded::Other(kind)
    }
}

impl Command {
    /// What this command means to the touch logic.
    pub open spec fn decoded(self) -> Decoded {
        match self {
            Command::KeepAlive(s) => Decoded::KeepAlive(s),
            Command::Other { kind, payload: _ } => Decoded::Other(kind),
        }
    }
}

} // verus!
