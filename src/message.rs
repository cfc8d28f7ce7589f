//! Messages as the relay's users address them.

use std::sync::Arc;
use vstd::prelude::*;
use vstd::utf8::*;
use vstd::string::*;
use crate::frame::utf8_text;
use crate::session::Member;

verus! {

/// A named channel.
pub struct Channel {
    id: String,
    display_name: String,
}

/// Where a message goes.
pub enum Destination {
    /// To every connected session.
    Global,
    /// To the members of a channel.
    Channel(Channel),
    /// To one member.
    Direct(Member),
}

/// What a message is for.
#[derive(Debug, Clone, Copy, PartialEq, Eq, Structural)]
pub enum MessageKind {
    Message,
    Command,
    ServerBroadcast,
}

/// A message: who sent it, its bytes, where it goes and what it is.
pub struct Message {
    pub address: String,
    pub content: Vec<u8>,
    pub channel: Destination,
    pub kind: MessageKind,
}

impl Message {
    /// An empty chat message from `author` to everyone.
    pub fn new(author: Arc<Member>) -> (r: Message)
        ensures
            r.address@ == author.address@,
            r.content@.len() == 0,
            r.channel is Global,
            r.kind == MessageKind::Message,
    {
        Message {
            address: author.address.clone(),
            content: Vec::new(),
            channel: Destination::Global,
            kind: MessageKind::Message,
        }
    }

    /// A message from `author` to everyone, carrying `message`'s UTF-8 bytes.
    pub fn from_string(author: Arc<Member>, message: String, kind: MessageKind) -> (r: Message)
        ensures
            r.address@ == author.address@,
            r.content@ == encode_utf8(message@),
            r.channel is Global,
            r.kind == kind,
    {
        Message {
            address: author.address.clone(),
            content: message.as_str().as_bytes_vec(),
            channel: Destination::Global,
            kind,
        }
    }

    /// The content as text; empty when it is not UTF-8.
    pub fn as_string(&self) -> (r: String)
        ensures
            valid_utf8(self.content@) ==> r@ == decode_utf8(self.content@),
            !valid_utf8(self.content@) ==> r@.len() == 0,
    {
        match utf8_text(self.content.as_slice()) {
            Some(s) => s,
            None => String::new(),
        }
    }
}

} // verus!
