//! An encoder of typed values into KDL text.
//!
//! A [`value::Value`] is taken apart by an encoding session
//! ([`ser::Serializer`]), which asks a formatter ([`format::Format`]) for
//! each piece. Two formatters are at hand: a compact one that writes a
//! single line, and one that lays the document out to be read. What the
//! session asks, and in which order, depends on the value and on the
//! policies ([`value::Options`]) alone; what is written for it, on the
//! formatter.

pub mod compact;
pub mod error;
pub mod format;
pub mod human;
pub mod laws;
pub mod lex;
pub mod protocol;
pub mod ser;
pub mod text;
pub mod value;

pub use error::{Error, Result};
pub use ser::Serializer;
