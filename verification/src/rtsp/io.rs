//! The two ends of a connection.

use crate::rtsp::interleaved::Serialize;
use crate::rtsp::parse::Message;
use crate::rtsp::request::Request;
use crate::rtsp::response::Response;
use vstd::prelude::*;

verus! {

/// One end of a connection: what it receives and what it sends.
pub trait Target {
    type Inbound: Message;

    type Outbound: Message + Serialize;
}

/// The client's end: responses come in, requests go out.
#[derive(Debug)]
pub struct AsClient;

impl Target for AsClient {
    type Inbound = Response;

    type Outbound = Request;
}

/// The server's end: requests come in, responses go out.
#[derive(Debug)]
pub struct AsServer;

impl Target for AsServer {
    type Inbound = Request;

    type Outbound = Response;
}

} // verus!
