//! RTSP: messages, their wire format, the incremental parser, and the client dialogue.

pub mod error;
pub mod uri;
pub mod message;
pub mod buffer;
pub mod parse;
pub mod request;
pub mod serialize;
pub mod summary;
pub mod response;
pub mod interleaved;
pub mod codec;
pub mod io;
pub mod client;
pub mod client_laws;
pub mod rtp_info;
pub mod transport;
pub mod range;
pub mod parse_laws;
pub mod message_laws;
