//! Protocol operations built on the session: the authentication
//! handshake and the command/response exchange, together with the way
//! each kind of reply is interpreted.
//!
//! Both operations follow the same serialized shape — queue one request,
//! let the caller flush the outgoing bytes and read back exactly one
//! reply, then interpret it. Replies are correlated with requests only by
//! this strict one-at-a-time ordering; the request id of a reply is
//! compared against nothing but the refusal sentinel.

use crate::codec::Packet;
use crate::session::{spec_write, Session};
use vstd::prelude::*;

verus! {

/// Type id of an authentication request.
pub const TYPE_LOGIN: i32 = 3;

/// Type id of a command request.
pub const TYPE_SEND: i32 = 2;

/// Request id carried by a reply when authentication was refused.
pub const LOGIN_FAILED_ID: i32 = -1;

/// How a protocol operation fails. Every failure is fatal to the
/// operation in flight; the session does not self-heal.
#[derive(Debug, PartialEq, Eq)]
pub enum ProtocolError {
    /// The transport reported end of stream before a whole frame arrived.
    ConnectionClosed,
    /// A frame announced a length below the 10-byte floor, which no
    /// further bytes could ever complete.
    MalformedFrame,
    /// A command reply's payload was not valid UTF-8 text.
    InvalidUtf8,
}

impl Session {
    /// Queue an authentication request carrying the credential.
    pub fn queue_login(&mut self, credential: &[u8])
        requires
            old(self)@.req_id < i32::MAX,
            credential@.len() + 10 <= i32::MAX,
        ensures
            final(self)@ == spec_write(old(self)@, TYPE_LOGIN, credential@),
    {
        self.write(TYPE_LOGIN, credential)
    }

    /// Queue a command request carrying the command text.
    pub fn queue_send(&mut self, command: &[u8])
        requires
            old(self)@.req_id < i32::MAX,
            command@.len() + 10 <= i32::MAX,
        ensures
            final(self)@ == spec_write(old(self)@, TYPE_SEND, command@),
    {
        self.write(TYPE_SEND, command)
    }
}

/// Text decoded from `bytes`, if they are valid UTF-8.
pub uninterp spec fn utf8_text(bytes: Seq<u8>) -> Option<Seq<char>>;

/// Relies on String::from_utf8: whether the bytes are valid UTF-8, and
/// the text they decode to, depend on the bytes alone.
#[verifier::external_body]
fn string_from_utf8(bytes: Vec<u8>) -> (r: Option<String>)
    ensures
        r is Some <==> utf8_text(bytes@) is Some,
        r matches Some(s) ==> Some(s@) == utf8_text(bytes@),
{
    String::from_utf8(bytes).ok()
}

/// Interpret an authentication reply: request id -1 is the refusal
/// sentinel; any other id — whether or not it echoes the request — counts
/// as success.
pub fn login_reply(reply: &Packet) -> (ok: bool)
    ensures
        ok == (reply@.req_id != LOGIN_FAILED_ID),
{
    reply.req_id != LOGIN_FAILED_ID
}

/// Interpret a command reply: its payload must be UTF-8 text, and that
/// text is the command's output. Anything else is a decode failure, not a
/// partial string.
pub fn send_reply(reply: Packet) -> (r: Result<String, ProtocolError>)
    ensures
        match r {
            Ok(text) => utf8_text(reply@.payload) == Some(text@),
            Err(e) => e == ProtocolError::InvalidUtf8 && utf8_text(reply@.payload) is None,
        },
{
    match string_from_utf8(reply.payload) {
        Some(text) => Ok(text),
        None => Err(ProtocolError::InvalidUtf8),
    }
}

} // verus!
