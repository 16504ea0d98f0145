//! A table-driven object-relational mapping layer over a cloud tabular
//! query service: field metadata is collected at run time into an immutable
//! `RecordType` descriptor, from which query text, typed query parameters and
//! row decoders are synthesized.

pub mod convert;
pub mod datetime;
pub mod facade;
pub mod mapping;
pub mod numbers;
pub mod params;
pub mod rows;
pub mod schema;
pub mod table;
pub mod text;
pub mod values;
