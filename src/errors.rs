//! Errors of the feeder core.

use vstd::prelude::*;

verus! {

/// Why a frame could not be normalized.
#[derive(Debug, Clone, Copy, PartialEq, Eq, Structural)]
pub enum ParseError {
    /// The frame is not JSON.
    InvalidJson,
    /// The event has no `e` string.
    MissingEventType,
    /// The event type is not one the normalizer handles.
    UnsupportedEvent,
    /// A required field is missing, has the wrong type, or holds a bad number.
    MalformedEvent,
    /// No parser is registered for the venue.
    UnsupportedExchange,
}

/// Why a record could not be packed into datagrams.
#[derive(Debug, Clone, Copy, PartialEq, Eq, Structural)]
pub enum SerializationError {
    /// The datagram would exceed 1472 bytes.
    PacketTooLarge,
    /// The sequence counter has no room for the datagrams.
    SequenceExhausted,
    /// A batch of records holds a record that spans several items or another batch.
    NestedBatch,
}

/// Why a configuration text was refused.
#[derive(Debug, Clone, Copy, PartialEq, Eq, Structural)]
pub enum ConfigError {
    /// A symbol line holds no symbol.
    EmptySymbolLine,
}

#[derive(Debug, Clone, Copy, PartialEq, Eq, Structural)]
pub enum CryptoFeederError {
    JsonParseError(ParseError),
    SerializationError(SerializationError),
    ConfigError(ConfigError),
    /// The venue is disabled in the endpoint configuration.
    ExchangeDisabled,
}

} // verus!
