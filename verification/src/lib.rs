//! Typed decoding of D-Bus message arguments.
//!
//! A message body is an untrusted byte buffer together with a signature
//! describing the types of the encoded arguments.  A [`reader::Reader`] is a
//! forward-only cursor over one container level of such a buffer; typed
//! values are extracted through the [`reader::Readable`] contract, and
//! [`values::Any`] is the dynamic, schema-less representation of a decoded
//! argument.

pub mod alignment;
pub mod arg_type;
pub mod command;
pub mod config;
pub mod key_mapping;
pub mod message;
pub mod reader;
pub mod signature;
pub mod text;
pub mod tuples;
pub mod values;
pub mod wire;
