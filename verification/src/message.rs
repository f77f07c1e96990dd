//! Messages between hosts.

use crate::types::{DocId, ServerId};
use vstd::prelude::*;

verus! {

/// The number or the name of a request.
#[derive(Debug, PartialEq, Eq)]
pub enum RequestId {
    /// A number.
    Number(i32),
    /// A name.
    Name(String),
}

impl Clone for RequestId {
    fn clone(&self) -> (r: Self)
        ensures
            r == *self,
    {
        match self {
            RequestId::Number(n) => RequestId::Number(*n),
            RequestId::Name(s) => RequestId::Name(s.clone()),
        }
    }
}

/// How hosts greet each other.
#[derive(Debug, PartialEq, Eq)]
pub struct HeyMessage {
    /// A greeting.
    pub message: String,
    /// What the host shows for itself.
    pub credentials: String,
    /// The version that it runs.
    pub version: String,
}

impl Clone for HeyMessage {
    fn clone(&self) -> (r: Self)
        ensures
            r == *self,
    {
        HeyMessage {
            message: self.message.clone(),
            credentials: self.credentials.clone(),
            version: self.version.clone(),
        }
    }
}

/// What a message between hosts says.
#[derive(Debug, PartialEq, Eq)]
pub enum Msg {
    /// A greeting.
    Hey { hey: HeyMessage },
    /// A file is shared under a document id.
    FileShared { doc: DocId },
    /// The connection to a peer broke.
    ConnectionBroke { peer: ServerId },
    /// A message could not be read or written.
    SerializationErr { reason: String },
    /// How far the connection to a peer has come.
    IceProgress { peer: ServerId, message: String },
}

impl Clone for Msg {
    fn clone(&self) -> (r: Self)
        ensures
            r == *self,
    {
        match self {
            Msg::Hey { hey } => Msg::Hey { hey: hey.clone() },
            Msg::FileShared { doc } => Msg::FileShared { doc: *doc },
            Msg::ConnectionBroke { peer } => Msg::ConnectionBroke { peer: peer.clone() },
            Msg::SerializationErr { reason } => Msg::SerializationErr { reason: reason.clone() },
            Msg::IceProgress { peer, message } => Msg::IceProgress {
                peer: peer.clone(),
                message: message.clone(),
            },
        }
    }
}

} // verus!
