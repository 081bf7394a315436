//! The SPP items most callers need.

pub use crate::mapper::SppMapper;
pub use crate::msg::{deserialize, serialize, DeserializeError, SppMessage};
