//! The client's side of the protocol: the requests it sends and what it
//! makes of each reply. The connection itself is the caller's.

use vstd::prelude::*;
use super::{Message, NetError, PROTOCOL_VERSION};
use crate::text::{owned, push_str, push_decimal, decimal};

verus! {

/// The ids a client gives its requests: 1, 2, 3, ... (wrapping to 0
/// after `u64::MAX`).
#[derive(Debug)]
pub struct RequestIds {
    pub next: u64,
}

impl RequestIds {
    /// Ids starting at 1.
    pub fn new() -> (r: Self)
        ensures
            r.next == 1,
    {
        RequestIds { next: 1 }
    }

    /// The next id; the one after it follows.
    pub fn take(&mut self) -> (r: u64)
        ensures
            r == old(self).next,
            final(self).next == (if old(self).next == u64::MAX { 0 } else { old(self).next + 1 }),
    {
        let r = self.next;
        self.next = if r == u64::MAX { 0 } else { r + 1 };
        r
    }
}

/// The handshake a client opens with: the protocol version and the name
/// `calvin-client`.
pub fn handshake_request() -> (r: Message)
    ensures
        r matches Message::Handshake { version, client_name } && version == PROTOCOL_VERSION
            && client_name@ == "calvin-client"@,
{
    Message::Handshake { version: PROTOCOL_VERSION, client_name: owned("calvin-client") }
}

/// What a client makes of the reply to its handshake: an acknowledgment
/// with the same protocol version is accepted; one with another version,
/// or any other message, is a protocol error.
pub fn check_handshake(reply: Message) -> (r: Result<(), NetError>)
    ensures
        reply matches Message::HandshakeAck { version, .. } ==> {
            if version == PROTOCOL_VERSION {
                r is Ok
            } else {
                r matches Err(NetError::Protocol(m)) && m@ == "Version mismatch: client="@
                    + decimal(PROTOCOL_VERSION as nat) + ", server="@ + decimal(version as nat)
            }
        },
        !(reply is HandshakeAck) ==> (r matches Err(NetError::Protocol(m)) && m@ == "Expected HandshakeAck"@),
{
    match reply {
        Message::HandshakeAck { version, .. } => {
            if version != PROTOCOL_VERSION {
                let mut m = owned("Version mismatch: client=");
                push_decimal(&mut m, PROTOCOL_VERSION as u64);
                push_str(&mut m, ", server=");
                push_decimal(&mut m, version as u64);
                return Err(NetError::Protocol(m));
            }
            Ok(())
        }
        _ => Err(NetError::Protocol(owned("Expected HandshakeAck"))),
    }
}

/// What a client makes of the reply to an evaluation: the value's text,
/// the server's error, or a protocol error for any other message.
pub fn eval_reply(reply: Message) -> (r: Result<String, NetError>)
    ensures
        reply matches Message::EvalResponse { result: Ok(v), .. } ==> (r matches Ok(s) && s == v),
        reply matches Message::EvalResponse { result: Err(e), .. } ==> (r matches Err(NetError::Server(m)) && m == e),
        !(reply is EvalResponse) ==> (r matches Err(NetError::Protocol(m)) && m@ == "Expected EvalResponse"@),
{
    match reply {
        Message::EvalResponse { result, .. } => match result {
            Ok(v) => Ok(v),
            Err(e) => Err(NetError::Server(e)),
        },
        _ => Err(NetError::Protocol(owned("Expected EvalResponse"))),
    }
}

/// What a client makes of the reply to a definition: success, the
/// server's error, or a protocol error for any other message.
pub fn define_reply(reply: Message) -> (r: Result<(), NetError>)
    ensures
        reply matches Message::DefineResponse { result: Ok(_), .. } ==> r is Ok,
        reply matches Message::DefineResponse { result: Err(e), .. } ==> (r matches Err(NetError::Server(m)) && m == e),
        !(reply is DefineResponse) ==> (r matches Err(NetError::Protocol(m)) && m@ == "Expected DefineResponse"@),
{
    match reply {
        Message::DefineResponse { result, .. } => match result {
            Ok(()) => Ok(()),
            Err(e) => Err(NetError::Server(e)),
        },
        _ => Err(NetError::Protocol(owned("Expected DefineResponse"))),
    }
}

/// What a client makes of the reply to a listing: the bindings, or a
/// protocol error for any other message.
pub fn bindings_reply(reply: Message) -> (r: Result<Vec<(String, String)>, NetError>)
    ensures
        reply matches Message::ListBindingsResponse { bindings, .. } ==> (r matches Ok(b) && b == bindings),
        !(reply is ListBindingsResponse) ==> (r matches Err(NetError::Protocol(m))
            && m@ == "Expected ListBindingsResponse"@),
{
    match reply {
        Message::ListBindingsResponse { bindings, .. } => Ok(bindings),
        _ => Err(NetError::Protocol(owned("Expected ListBindingsResponse"))),
    }
}

/// What a client makes of the reply to a ping: a pong is success, any
/// other message a protocol error.
pub fn pong_reply(reply: Message) -> (r: Result<(), NetError>)
    ensures
        reply is Pong ==> r is Ok,
        !(reply is Pong) ==> (r matches Err(NetError::Protocol(m)) && m@ == "Expected Pong"@),
{
    match reply {
        Message::Pong { .. } => Ok(()),
        _ => Err(NetError::Protocol(owned("Expected Pong"))),
    }
}

} // verus!
