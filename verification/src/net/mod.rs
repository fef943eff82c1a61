//! The network protocol: messages between a client and a server, their
//! framing on the wire, addresses, and what a server does with each
//! message it receives.
//!
//! A frame is the byte length of a message's JSON text (32 bits,
//! little-endian) followed by that text. Turning messages into JSON and
//! back, and the sockets, are left to the caller.

pub mod server;
pub mod client;

use vstd::prelude::*;
use vstd::bytes::{spec_u32_to_le_bytes, spec_u32_from_le_bytes, u32_to_le_bytes, u32_from_le_bytes,
    lemma_auto_spec_u32_to_from_le_bytes};
use vstd::utf8::{valid_utf8, decode_utf8, encode_utf8, encode_utf8_valid_utf8, encode_utf8_decode_utf8};
use vstd::slice::slice_subrange;
use crate::text::{owned, push_str, chars_of, string_from_chars, parse_u16, parse_u16_chars};
use crate::storage::file::append;
use crate::storage::io_error_text;

verus! {

/// Errors that can occur during networking operations.
#[derive(Debug)]
pub enum NetError {
    Io(std::io::Error),
    ConnectionRefused(String),
    Protocol(String),
    Timeout,
    Serialization(String),
    Server(String),
}

impl NetError {
    /// The message of this error (what `{}` prints). For an I/O error it
    /// is `"I/O error: "` followed by the error's own text.
    pub fn to_string(&self) -> (r: String)
        ensures
            self matches NetError::ConnectionRefused(m) ==> r@ == "Connection refused: "@ + m@,
            self matches NetError::Protocol(m) ==> r@ == "Protocol error: "@ + m@,
            self is Timeout ==> r@ == "Timeout"@,
            self matches NetError::Serialization(m) ==> r@ == "Serialization error: "@ + m@,
            self matches NetError::Server(m) ==> r@ == "Server error: "@ + m@,
            self is Io ==> exists|t: Seq<char>| r@ == "I/O error: "@ + t,
    {
        let mut out = String::new();
        match self {
            NetError::Io(e) => {
                push_str(&mut out, "I/O error: ");
                let t = io_error_text(e);
                push_str(&mut out, t.as_str());
                assert(out@ == "I/O error: "@ + t@);
            }
            NetError::ConnectionRefused(m) => {
                push_str(&mut out, "Connection refused: ");
                push_str(&mut out, m.as_str());
            }
            NetError::Protocol(m) => {
                push_str(&mut out, "Protocol error: ");
                push_str(&mut out, m.as_str());
            }
            NetError::Timeout => {
                push_str(&mut out, "Timeout");
            }
            NetError::Serialization(m) => {
                push_str(&mut out, "Serialization error: ");
                push_str(&mut out, m.as_str());
            }
            NetError::Server(m) => {
                push_str(&mut out, "Server error: ");
                push_str(&mut out, m.as_str());
            }
        }
        out
    }
}

/// The protocol version for Calvin network communication.
pub const PROTOCOL_VERSION: u32 = 1;

/// Message types for the Calvin network protocol.
#[derive(Debug)]
pub enum Message {
    /// A request to evaluate an expression.
    EvalRequest { id: u64, expression: String },
    /// The result of evaluating an expression.
    EvalResponse { id: u64, result: Result<String, String> },
    /// A request to define a variable.
    DefineRequest { id: u64, name: String, expression: String },
    /// The result of a define operation.
    DefineResponse { id: u64, result: Result<(), String> },
    /// A request to list all bindings.
    ListBindingsRequest { id: u64 },
    /// The list of all bindings.
    ListBindingsResponse { id: u64, bindings: Vec<(String, String)> },
    /// A request to get the type of an expression.
    TypeRequest { id: u64, expression: String },
    /// The type of an expression.
    TypeResponse { id: u64, result: Result<String, String> },
    /// A ping message for keepalive.
    Ping { id: u64 },
    /// A pong response.
    Pong { id: u64 },
    /// A shutdown request.
    Shutdown,
    /// A handshake message.
    Handshake { version: u32, client_name: String },
    /// A handshake acknowledgment.
    HandshakeAck { version: u32, server_name: String },
}

/// The frame of a message whose JSON text is `json`.
pub open spec fn frame(json: Seq<char>) -> Seq<u8> {
    spec_u32_to_le_bytes(encode_utf8(json).len() as u32) + encode_utf8(json)
}

/// Frames the JSON text of a message: its byte length (as 32 bits, which
/// truncates a longer text's length), then its bytes.
pub fn frame_message(json: &str) -> (r: Vec<u8>)
    ensures
        r@ == frame(json@),
{
    let bytes = json.as_bytes();
    let len = bytes.len() as u32;
    let mut buf: Vec<u8> = Vec::new();
    append(&mut buf, u32_to_le_bytes(len).as_slice());
    append(&mut buf, bytes);
    buf
}

/// The message `std::str::from_utf8` gives for bytes that are not UTF-8.
pub uninterp spec fn utf8_error_text(bytes: Seq<u8>) -> Seq<char>;

/// `std::str::from_utf8`, owned: the text the bytes encode when they are
/// valid UTF-8, else the text of the error.
#[verifier::external_body]
fn str_from_utf8(bytes: &[u8]) -> (r: Result<String, String>)
    ensures
        r is Ok <==> valid_utf8(bytes@),
        r matches Ok(s) ==> s@ == decode_utf8(bytes@),
        r matches Err(m) ==> m@ == utf8_error_text(bytes@),
{
    match std::str::from_utf8(bytes) {
        Ok(s) => Ok(s.to_string()),
        Err(e) => Err(format!("{}", e)),
    }
}

/// The length a frame at the start of `data` announces.
pub open spec fn announced_len(data: Seq<u8>) -> nat {
    spec_u32_from_le_bytes(data.subrange(0, 4)) as nat
}

/// Takes the first frame off `data`: the JSON text it carries and the
/// number of bytes it takes. Fails with a protocol error when `data` is
/// shorter than a length ("Message too short"), shorter than the frame it
/// announces ("Incomplete message"), or the text is not UTF-8 (the
/// decoder's message).
pub fn unframe_message(data: &[u8]) -> (r: Result<(String, usize), NetError>)
    ensures
        data@.len() < 4 ==> (r matches Err(NetError::Protocol(m)) && m@ == "Message too short"@),
        data@.len() >= 4 && data@.len() < 4 + announced_len(data@) ==>
            (r matches Err(NetError::Protocol(m)) && m@ == "Incomplete message"@),
        data@.len() >= 4 && data@.len() >= 4 + announced_len(data@) ==> ({
            let text = data@.subrange(4, 4 + announced_len(data@) as int);
            if valid_utf8(text) {
                r matches Ok((json, used)) && json@ == decode_utf8(text) && used == 4 + announced_len(data@)
            } else {
                r matches Err(NetError::Protocol(m)) && m@ == utf8_error_text(text)
            }
        }),
{
    if data.len() < 4 {
        return Err(NetError::Protocol(owned("Message too short")));
    }
    let len = u32_from_le_bytes(slice_subrange(data, 0, 4)) as usize;
    if data.len() - 4 < len {
        return Err(NetError::Protocol(owned("Incomplete message")));
    }
    match str_from_utf8(slice_subrange(data, 4, 4 + len)) {
        Ok(json) => Ok((json, 4 + len)),
        Err(m) => Err(NetError::Protocol(m)),
    }
}

/// Taking the frame off a framed text gives back the text and the whole
/// frame's length.
pub proof fn law_frame_roundtrip(json: Seq<char>, rest: Seq<u8>)
    requires
        encode_utf8(json).len() <= u32::MAX,
    ensures
        ({
            let data = frame(json) + rest;
            &&& data.len() >= 4
            &&& announced_len(data) == encode_utf8(json).len()
            &&& data.len() >= 4 + announced_len(data)
            &&& valid_utf8(data.subrange(4, 4 + announced_len(data) as int))
            &&& decode_utf8(data.subrange(4, 4 + announced_len(data) as int)) == json
        }),
{
    lemma_auto_spec_u32_to_from_le_bytes();
    encode_utf8_valid_utf8(json);
    encode_utf8_decode_utf8(json);
    let b = encode_utf8(json);
    let data = frame(json) + rest;
    assert(data.subrange(0, 4) =~= spec_u32_to_le_bytes(b.len() as u32));
    assert(data.subrange(4, 4 + b.len() as int) =~= b);
}

/// The position of the last `:` in `s`.
pub open spec fn last_colon(s: Seq<char>) -> Option<int>
    decreases s.len(),
{
    if s.len() == 0 {
        None
    } else if s.last() == ':' {
        Some(s.len() - 1)
    } else {
        last_colon(s.drop_last())
    }
}

/// Splits `host:port` at its last colon: the host, and the port as Rust
/// parses a `u16`. Fails with a protocol error when there is no colon
/// ("Invalid address: " and the address) or the port does not parse
/// ("Invalid port: " and the text after the colon).
pub fn parse_address(addr: &str) -> (r: Result<(String, u16), NetError>)
    ensures
        match last_colon(addr@) {
            None => r matches Err(NetError::Protocol(m)) && m@ == "Invalid address: "@ + addr@,
            Some(i) => {
                let host = addr@.subrange(0, i);
                let port = addr@.subrange(i + 1, addr@.len() as int);
                match parse_u16(port) {
                    Some(p) => r matches Ok((h, q)) && h@ == host && q == p,
                    None => r matches Err(NetError::Protocol(m)) && m@ == "Invalid port: "@ + port,
                }
            },
        },
{
    let cs = chars_of(addr);
    let mut i = cs.len();
    assert(addr@.take(i as int) =~= addr@);
    while i > 0 && cs[i - 1] != ':'
        invariant
            i <= cs@.len(),
            cs@ == addr@,
            last_colon(addr@) == last_colon(addr@.take(i as int)),
        decreases i,
    {
        proof {
            assert(addr@.take(i as int).drop_last() =~= addr@.take(i - 1));
        }
        i -= 1;
    }
    if i == 0 {
        proof {
            assert(addr@.take(0) =~= Seq::<char>::empty());
        }
        let mut m = owned("Invalid address: ");
        push_str(&mut m, addr);
        return Err(NetError::Protocol(m));
    }
    proof {
        assert(addr@.take(i as int).last() == ':');
    }
    let colon = i - 1;
    let port = parse_u16_chars(&cs, colon + 1, cs.len());
    match port {
        Some(p) => {
            let host = string_from_chars(&cs, 0, colon);
            Ok((host, p))
        }
        None => {
            let mut m = owned("Invalid port: ");
            let text = string_from_chars(&cs, colon + 1, cs.len());
            push_str(&mut m, text.as_str());
            Err(NetError::Protocol(m))
        }
    }
}

/// What a server does with a message it receives.
#[derive(Debug)]
pub enum ServerAction {
    /// Send this reply.
    Reply(Message),
    /// Evaluate the expression and reply with an `EvalResponse` for `id`.
    Evaluate { id: u64, expression: String },
    /// Define `name` as the value of the expression and reply with a
    /// `DefineResponse` for `id`.
    Define { id: u64, name: String, expression: String },
    /// Reply with the bound names in a `ListBindingsResponse` for `id`.
    ListBindings { id: u64 },
    /// Close the connection.
    Close,
    /// Send nothing and wait for the next message.
    Ignore,
}

/// What a server named `server_name` does with `msg`: acknowledge a
/// handshake with its protocol version and name, answer a ping with a pong
/// of the same id, close on shutdown, hand requests to the evaluator, and
/// ignore anything else.
pub fn server_action(msg: Message, server_name: &str) -> (r: ServerAction)
    ensures
        msg is Handshake ==> (r matches ServerAction::Reply(Message::HandshakeAck { version, server_name: n })
            && version == PROTOCOL_VERSION && n@ == server_name@),
        msg matches Message::Ping { id } ==> (r matches ServerAction::Reply(Message::Pong { id: j }) && j == id),
        msg is Shutdown ==> r is Close,
        msg matches Message::EvalRequest { id, expression } ==>
            (r matches ServerAction::Evaluate { id: j, expression: e } && j == id && e == expression),
        msg matches Message::DefineRequest { id, name, expression } ==>
            (r matches ServerAction::Define { id: j, name: n, expression: e } && j == id && n == name && e == expression),
        msg matches Message::ListBindingsRequest { id } ==> (r matches ServerAction::ListBindings { id: j } && j == id),
        !(msg is Handshake || msg is Ping || msg is Shutdown || msg is EvalRequest || msg is DefineRequest
            || msg is ListBindingsRequest) ==> r is Ignore,
{
    match msg {
        Message::Handshake { .. } => ServerAction::Reply(Message::HandshakeAck {
            version: PROTOCOL_VERSION,
            server_name: owned(server_name),
        }),
        Message::EvalRequest { id, expression } => ServerAction::Evaluate { id, expression },
        Message::DefineRequest { id, name, expression } => ServerAction::Define { id, name, expression },
        Message::ListBindingsRequest { id } => ServerAction::ListBindings { id },
        Message::Ping { id } => ServerAction::Reply(Message::Pong { id }),
        Message::Shutdown => ServerAction::Close,
        _ => ServerAction::Ignore,
    }
}

/// The reply listing `names`, each with an empty description.
pub fn bindings_response(id: u64, names: Vec<String>) -> (r: Message)
    ensures
        r matches Message::ListBindingsResponse { id: j, bindings } && j == id
            && bindings@.len() == names@.len()
            && forall|i: int| 0 <= i < names@.len() ==> (#[trigger] bindings@[i]).0@ == names@[i]@
                && bindings@[i].1@ == Seq::<char>::empty(),
{
    let mut bindings: Vec<(String, String)> = Vec::new();
    let mut i: usize = 0;
    while i < names.len()
        invariant
            i <= names@.len(),
            bindings@.len() == i,
            forall|j: int| 0 <= j < i ==> (#[trigger] bindings@[j]).0@ == names@[j]@
                && bindings@[j].1@ == Seq::<char>::empty(),
        decreases names.len() - i,
    {
        bindings.push((names[i].clone(), String::new()));
        i += 1;
    }
    Message::ListBindingsResponse { id, bindings }
}

} // verus!
