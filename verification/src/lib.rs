//! A network-agnostic codec for DNS wire-format messages.
//!
//! `Packet::parse` turns a raw octet buffer into a structured message;
//! `Builder` assembles an outgoing message, compressing names against a
//! per-build dictionary and honouring an optional byte budget.

mod builder;
mod enums;
mod error;
mod header;
mod name;
mod parser;

pub mod rdata;

pub use crate::builder::{Builder, Phase};
pub use crate::enums::{Class, Opcode, QueryClass, QueryType, ResponseCode, Type};
pub use crate::error::Error;
pub use crate::header::Header;
pub use crate::name::{write_name, Name, NameDict};
pub use crate::parser::{Packet, Question, ResourceRecord};
pub use crate::rdata::RData;
