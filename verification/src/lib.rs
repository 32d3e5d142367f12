//! Wire-level protocol stack for real-time media: RTP datagrams and their H.264 payload
//! format, RTSP messages and the client dialogue, and SDP session descriptions.

pub mod buf;
pub mod h264;
pub mod ip;
pub mod rtp;
pub mod rtsp;
pub mod sdp;
pub mod text;
pub mod types;
