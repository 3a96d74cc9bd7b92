use vstd::prelude::*;

verus! {

/// The sector whose trailer holds the access-control secret (any sector but 0).
pub const AUTH_SECTOR: u8 = 1;

/// Relative block of a sector's trailer: the fourth and last block.
pub const SECTOR_TRAILER: u8 = 3;

/// The provisioned credential record: key A "Rusted", access bits and trailer
/// byte, key B "Ferris".
pub const AUTH_DATA: [u8; 16] = [
    0x52, 0x75, 0x73, 0x74, 0x65, 0x64,
    0xFF, 0x07, 0x80, 0x69,
    0x46, 0x65, 0x72, 0x72, 0x69, 0x73,
];

/// The factory-default key of a blank card.
pub const DEFAULT_KEY: [u8; 6] = [0xFF, 0xFF, 0xFF, 0xFF, 0xFF, 0xFF];

/// What can go wrong in an exchange with a card.
#[derive(Debug, Clone, Copy, PartialEq, Eq, Structural)]
pub enum RfidError {
    AuthFailed,
    WriteFailed,
    ReadFailed,
    CardSelectionFailed,
    HaltFailed,
    Unknown,
}

impl RfidError {
    /// Human-readable description of the error.
    pub fn message(&self) -> (r: &'static str)
        ensures
            r@ == error_message(*self),
    {
        match self {
            RfidError::AuthFailed => "Authentication failed",
            RfidError::WriteFailed => "Write operation failed",
            RfidError::ReadFailed => "Read operation failed",
            RfidError::CardSelectionFailed => "Card selection failed",
            RfidError::HaltFailed => "Halt failed",
            RfidError::Unknown => "Unknown error",
        }
    }
}

pub open spec fn error_message(e: RfidError) -> Seq<char> {
    match e {
        RfidError::AuthFailed => "Authentication failed"@,
        RfidError::WriteFailed => "Write operation failed"@,
        RfidError::ReadFailed => "Read operation failed"@,
        RfidError::CardSelectionFailed => "Card selection failed"@,
        RfidError::HaltFailed => "Halt failed"@,
        RfidError::Unknown => "Unknown error"@,
    }
}

/// Key A of a trailer: its first six bytes.
pub open spec fn key_a_of(trailer: Seq<u8>) -> Seq<u8> {
    trailer.subrange(0, 6)
}

/// Key B of a trailer: its last six bytes.
pub open spec fn key_b_of(trailer: Seq<u8>) -> Seq<u8> {
    trailer.subrange(10, 16)
}

} // verus!
