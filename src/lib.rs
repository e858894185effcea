//! Decoding and encoding of the outer framing of OpenPGP packets: the tag byte
//! and the length field in front of every packet body.

pub mod error;
pub mod laws;
pub mod packet;
pub mod reader;
pub mod wire;

pub use error::Error;
pub use packet::{next, Format, Packet};
pub use reader::Reader;
