//! Data types and decoders for the type-specific payload of a resource
//! record, dispatched by the record's integer type code.

pub mod a;
pub mod config;

pub use config::{Mx, RData, RDataV, Soa, SoaV, Srv, SrvV};
