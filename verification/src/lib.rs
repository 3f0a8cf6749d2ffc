//! A bootstrap allocator over one fixed memory range: bytes are handed out
//! from the low end upward, pages from the high end downward.

pub mod early;
pub mod error;
pub mod laws;
pub mod num;
pub mod zones;

pub use early::EarlyAllocator;
pub use error::AllocError;
pub use zones::Zones;
