//! Error taxonomy of the handshake core.
//!
//! Every failure is surfaced to the caller with enough context (category,
//! offending length) to diagnose interoperability problems; none is fatal to
//! anything but the one connection it arose on.

use vstd::prelude::*;

verus! {

/// A malformed name-list or KEXINIT message.
#[derive(Clone, Copy, PartialEq, Eq, Structural, Debug)]
pub enum DecodeError {
    /// Fewer bytes remain than a length field declared.
    ShortInput,
    /// A name-list body held an empty token or a byte outside the
    /// printable-ASCII name alphabet.
    MalformedNameList,
    /// The first payload byte was not the KEXINIT message type.
    WrongMessageType,
    /// Bytes remain after the end of the message.
    TrailingData,
}

/// An invalid packet frame.
#[derive(Clone, Copy, PartialEq, Eq, Structural, Debug)]
pub enum FramingError {
    /// The claimed packet length exceeds the configured maximum.
    OversizedPacket,
    /// The claimed packet length is below the smallest valid frame.
    UndersizedPacket,
    /// Fewer bytes are available than the packet length claims.
    ShortRead,
    /// The padding length is below the minimum or leaves no room for a payload.
    BadPaddingLength,
}

/// The algorithm categories negotiated from a pair of KEXINIT messages.
#[derive(Clone, Copy, PartialEq, Eq, Structural, Debug)]
pub enum AlgorithmCategory {
    KeyExchange,
    ServerHostKey,
    EncryptionClientToServer,
    EncryptionServerToClient,
    MacClientToServer,
    MacServerToClient,
    CompressionClientToServer,
    CompressionServerToClient,
}

/// No common algorithm in a mandatory category.
#[derive(Clone, Copy, PartialEq, Eq, Structural, Debug)]
pub struct NegotiationError {
    pub category: AlgorithmCategory,
}

/// A malformed or missing identification line.
#[derive(Clone, Copy, PartialEq, Eq, Structural, Debug)]
pub enum ProtocolError {
    /// The line exceeds the maximum identification-line length.
    LineTooLong,
    /// The line does not carry the protocol prefix and is not a banner either.
    MalformedLine,
    /// Too many banner lines arrived before any identification line.
    TooManyBannerLines,
}

} // verus!
