//! A fixed-capacity byte ring whose storage is laid out twice back to back, so
//! that any run of up to `N` bytes, starting at any logical offset, can be read
//! as one contiguous slice without wrap-around handling by the caller.

pub mod addressing;
pub mod buffer;
pub mod error;
pub mod length;

pub use buffer::VoodooBuffer;
pub use error::{BufferError, ErrorKind};
