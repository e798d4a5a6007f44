//! Semantic analysis of ASN.1 modules into a resolved catalog of types and
//! values, and DER encoding of ASN.1 values.
pub mod error;
pub mod time;
pub mod bigint;
pub mod module;
pub mod types;
pub mod values;
pub mod ast;
pub mod context;
pub mod type_parser;
pub mod value_parser;
pub mod constraint_parser;
pub mod encoding;
