//! Basic value types of the wire format.

pub mod bitlist;
pub mod bytes;
pub mod collections;
pub mod uint;
