//! Decoder for dBASE (`.dbf`) tables held in memory.
//!
//! A table is a 32-byte header, one 32-byte descriptor per column, a
//! terminator byte (`0x0D`) and then fixed-width records. [`Reader`] parses
//! the header and the descriptor table once and then yields one decoded
//! [`Record`] per call of [`Reader::next`].

pub mod descriptor;
pub mod endian;
pub mod error;
pub mod header;
pub mod laws;
pub mod reading;
pub mod record;
pub mod source;
pub mod text;
pub mod value;

pub use descriptor::{FieldType, RecordFieldInfo};
pub use error::Error;
pub use header::Header;
pub use reading::{read, Reader};
pub use record::Record;
pub use source::ByteSource;
pub use value::{Date, FieldValue};
