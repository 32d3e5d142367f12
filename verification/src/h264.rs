//! H.264 byte streams.

pub mod error;
pub mod nal_utils;
