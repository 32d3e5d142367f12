//! RTP datagrams: the packet codec and the H.264 payload format.

pub mod error;
pub mod packet;
pub mod h264;
pub mod h264_laws;
pub mod packetization;
