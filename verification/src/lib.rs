//! A small line-oriented notation for event models, parsed into a syntax tree.
//!
//! A document is a sequence of records (`u:Customer:"A customer"`) and
//! relationships (`PlaceOrder->OrderPlaced`). [`parsers::parse`] turns the bytes of
//! a document into an [`ast::Ast`]; [`dot_writer::DotWriter`] collects from the
//! tree what a diagram of it shows.

pub mod ast;
pub mod dot_writer;
pub mod grammar;
pub mod joined;
pub mod laws;
pub mod parse_error;
pub mod parsers;
pub mod text;
