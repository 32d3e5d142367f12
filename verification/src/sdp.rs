//! SDP: session descriptions, their text form, and a builder for them.

pub mod error;
pub mod sdp;
pub mod codec;
pub mod time_range;
pub mod builder;
pub mod reader;
pub mod line_laws;
pub mod laws;
