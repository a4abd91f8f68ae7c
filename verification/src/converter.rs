//! The two mappings between the statement text model and the nested
//! document model, and the choice between them.

pub mod to_camt053;
pub mod to_mt940;
pub mod convert_streams;
pub mod round_trip;
