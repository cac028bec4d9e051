//! The type tags and message kinds of the binary protocol.

use vstd::prelude::*;

verus! {

/// What went wrong while bytes were read.
#[derive(Clone, Copy, Debug, PartialEq, Eq, Structural)]
pub enum ProtocolError {
    /// The bytes ended before the value did.
    EOF,
    /// The message does not start with the version that this protocol writes.
    BadVersion,
    /// The number is no kind of message.
    InvalidMessageType,
    /// The byte is no type tag.
    InvalidTypeTag,
    /// The byte is no value of the type that was read.
    InvalidValue,
    /// The length that was read is negative.
    InvalidDataLength,
    /// The bytes of a string are not UTF-8.
    InvalidUtf8,
}

/// The tag that says what type a value has on the wire.
#[derive(Clone, Copy, Debug, PartialEq, Eq, Structural)]
pub enum TType {
    Stop,
    Void,
    Bool,
    Byte,
    Double,
    I16,
    I32,
    I64,
    String,
    Struct,
    TMap,
    TSet,
    List,
    UTF8,
    UTF16,
    Stream,
    Float,
}

impl TType {
    /// The byte that stands for the tag.
    pub open spec fn spec_tag(self) -> u8 {
        match self {
            TType::Stop => 0,
            TType::Void => 1,
            TType::Bool => 2,
            TType::Byte => 3,
            TType::Double => 4,
            TType::I16 => 6,
            TType::I32 => 8,
            TType::I64 => 10,
            TType::String => 11,
            TType::Struct => 12,
            TType::TMap => 13,
            TType::TSet => 14,
            TType::List => 15,
            TType::UTF8 => 16,
            TType::UTF16 => 17,
            TType::Stream => 18,
            TType::Float => 19,
        }
    }

    /// The byte that stands for the tag.
    #[verifier::when_used_as_spec(spec_tag)]
    pub fn tag(self) -> (byte: u8)
        ensures
            byte == self.spec_tag(),
    {
        match self {
            TType::Stop => 0,
            TType::Void => 1,
            TType::Bool => 2,
            TType::Byte => 3,
            TType::Double => 4,
            TType::I16 => 6,
            TType::I32 => 8,
            TType::I64 => 10,
            TType::String => 11,
            TType::Struct => 12,
            TType::TMap => 13,
            TType::TSet => 14,
            TType::List => 15,
            TType::UTF8 => 16,
            TType::UTF16 => 17,
            TType::Stream => 18,
            TType::Float => 19,
        }
    }

    /// The tag that `byte` stands for.
    pub fn from_tag(byte: u8) -> (r: Result<TType, ProtocolError>)
        ensures
            match r {
                Ok(t) => t.spec_tag() == byte,
                Err(e) => e == ProtocolError::InvalidTypeTag && forall|t: TType|
                    #[trigger] t.spec_tag() != byte,
            },
    {
        match byte {
            0 => Ok(TType::Stop),
            1 => Ok(TType::Void),
            2 => Ok(TType::Bool),
            3 => Ok(TType::Byte),
            4 => Ok(TType::Double),
            6 => Ok(TType::I16),
            8 => Ok(TType::I32),
            10 => Ok(TType::I64),
            11 => Ok(TType::String),
            12 => Ok(TType::Struct),
            13 => Ok(TType::TMap),
            14 => Ok(TType::TSet),
            15 => Ok(TType::List),
            16 => Ok(TType::UTF8),
            17 => Ok(TType::UTF16),
            18 => Ok(TType::Stream),
            19 => Ok(TType::Float),
            _ => Err(ProtocolError::InvalidTypeTag),
        }
    }
}

/// The kind of a message.
#[derive(Clone, Copy, Debug, PartialEq, Eq, Structural)]
pub enum MessageType {
    Call,
    Reply,
    Exception,
    Oneway,
}

impl MessageType {
    /// The number that stands for the kind.
    pub open spec fn spec_code(self) -> u8 {
        match self {
            MessageType::Call => 1,
            MessageType::Reply => 2,
            MessageType::Exception => 3,
            MessageType::Oneway => 4,
        }
    }

    /// The number that stands for the kind.
    #[verifier::when_used_as_spec(spec_code)]
    pub fn code(self) -> (n: u8)
        ensures
            n == self.spec_code(),
    {
        match self {
            MessageType::Call => 1,
            MessageType::Reply => 2,
            MessageType::Exception => 3,
            MessageType::Oneway => 4,
        }
    }

    /// The kind that `n` stands for.
    pub fn from_code(n: i32) -> (r: Result<MessageType, ProtocolError>)
        ensures
            match r {
                Ok(t) => t.spec_code() == n,
                Err(e) => e == ProtocolError::InvalidMessageType && forall|t: MessageType|
                    #[trigger] t.spec_code() != n,
            },
    {
        match n {
            1 => Ok(MessageType::Call),
            2 => Ok(MessageType::Reply),
            3 => Ok(MessageType::Exception),
            4 => Ok(MessageType::Oneway),
            _ => Err(ProtocolError::InvalidMessageType),
        }
    }
}

} // verus!
