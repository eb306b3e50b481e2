//! The mode framework's plain types: duplex, and why a modulator refused a
//! frame.
use vstd::prelude::*;

verus! {

#[derive(Debug, Clone, Copy, PartialEq, Eq)]
pub enum Duplex {
    Half,
    Full,
}

/// Why a modulator could not encode a frame.
#[derive(Debug)]
pub enum ModError {
    /// The payload kind is not supported by this mode.
    UnsupportedPayload(&'static str),
    /// The message is too long for the mode.
    TooLong(String),
    /// The message could not be encoded.
    Encode(String),
}

} // verus!
