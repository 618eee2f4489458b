//! Extensions of the protocol.
use vstd::prelude::*;
use crate::buf::same_bytes;

verus! {

/// The `:protocol` of an extended CONNECT request.
///
/// See <https://www.rfc-editor.org/rfc/rfc8441.html#section-4>.
#[derive(Debug, Clone, Copy, PartialEq, Eq, Structural)]
pub enum Protocol {
    WebTransport,
    ConnectUdp,
    WebSocket,
}

/// `webtransport`
pub const WEBTRANSPORT: [u8; 12] = [
    0x77, 0x65, 0x62, 0x74, 0x72, 0x61, 0x6e, 0x73, 0x70, 0x6f, 0x72, 0x74,
];

/// `connect-udp`
pub const CONNECT_UDP: [u8; 11] = [
    0x63, 0x6f, 0x6e, 0x6e, 0x65, 0x63, 0x74, 0x2d, 0x75, 0x64, 0x70,
];

/// `websocket`
pub const WEBSOCKET: [u8; 9] = [0x77, 0x65, 0x62, 0x73, 0x6f, 0x63, 0x6b, 0x65, 0x74];

/// How a protocol is spelled.
pub open spec fn protocol_text(protocol: Protocol) -> Seq<u8> {
    match protocol {
        Protocol::WebTransport => WEBTRANSPORT@,
        Protocol::ConnectUdp => CONNECT_UDP@,
        Protocol::WebSocket => WEBSOCKET@,
    }
}

/// The protocol that is spelled so.
pub open spec fn parsed_protocol(text: Seq<u8>) -> Option<Protocol> {
    if text == WEBTRANSPORT@ {
        Some(Protocol::WebTransport)
    } else if text == CONNECT_UDP@ {
        Some(Protocol::ConnectUdp)
    } else if text == WEBSOCKET@ {
        Some(Protocol::WebSocket)
    } else {
        None
    }
}

/// A protocol is read back from how it is spelled.
pub proof fn protocol_round_trip(protocol: Protocol)
    ensures
        parsed_protocol(protocol_text(protocol)) == Some(protocol),
{
    assert(WEBTRANSPORT@.len() == 12);
    assert(CONNECT_UDP@.len() == 11);
    assert(WEBSOCKET@.len() == 9);
}

impl Protocol {
    pub fn as_bytes(&self) -> (text: Vec<u8>)
        ensures
            text@ == protocol_text(*self),
    {
        match self {
            Protocol::WebTransport => crate::buf::to_vec(WEBTRANSPORT.as_slice()),
            Protocol::ConnectUdp => crate::buf::to_vec(CONNECT_UDP.as_slice()),
            Protocol::WebSocket => crate::buf::to_vec(WEBSOCKET.as_slice()),
        }
    }

    pub fn parse(text: &[u8]) -> (protocol: Option<Protocol>)
        ensures
            protocol == parsed_protocol(text@),
    {
        if same_bytes(text, WEBTRANSPORT.as_slice()) {
            Some(Protocol::WebTransport)
        } else if same_bytes(text, CONNECT_UDP.as_slice()) {
            Some(Protocol::ConnectUdp)
        } else if same_bytes(text, WEBSOCKET.as_slice()) {
            Some(Protocol::WebSocket)
        } else {
            None
        }
    }
}

} // verus!
