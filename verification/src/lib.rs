//! Agent-debit-note payments: the agent signs debits against a pre-funded note,
//! the facilitator checks and acknowledges them, and a submitter settles them.

pub mod account;
pub mod adn;
pub mod bytes;
pub mod client;
pub mod clock;
pub mod codec;
pub mod config;
pub mod decoder;
pub mod error;
pub mod falcon;
pub mod key;
pub mod lattice;
pub mod message;
pub mod storage;
pub mod submitter;
pub mod text;
pub mod types;
pub mod word;
