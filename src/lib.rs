//! Access control for a contactless-card door terminal: the sector-keyed card
//! protocol, the access decision, and the provisioning of the credential
//! record, all driven through a narrow card-link interface.

pub mod layout;

pub use layout::{
    AUTH_DATA, AUTH_SECTOR, DEFAULT_KEY, SECTOR_TRAILER, RfidError,
};

pub mod link;

pub use link::{CardLink, Event};

pub mod rfid;

pub use rfid::{auth_key_a, key_b_matches, Rfid};

pub mod access;

pub use access::{access_cycle, CycleOutcome, Decision, Indication, Panel, Terminal};

pub mod provision;

pub use provision::{provision, record_key_a, ProvisionReport};

pub mod card;

pub use card::{MemoryCard, CARD_BLOCKS};

pub mod servo;

pub use servo::{duty_from_angle, duty_range, DutyRange};
