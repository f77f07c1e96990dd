//! A receptor for connections over web sockets.

use crate::text;
use vstd::prelude::*;
use vstd::string::*;

verus! {

/// What happens to a connection.
pub enum ReceptorEvent {
    /// The remote end closed the stream.
    RemoteClosed,
    /// The stream failed, with the description.
    StreamFailed(String),
    /// Something that is no text arrived.
    NotText,
    /// A text that is no message arrived, with the description of the error.
    Unreadable(String),
    /// A message arrived.
    Message,
    /// Whoever took the connection does not take messages any more.
    CallerGone,
    /// There is a message to send.
    Outgoing,
    /// A message could not be sent, with the description.
    SendFailed(String),
}

/// What is done about it.
pub enum ReceptorAction {
    /// Nothing.
    Continue,
    /// The message that arrived is handed on.
    HandOn,
    /// The message is sent.
    Send,
    /// An error is handed on, and it goes on.
    Report(String),
    /// An error is handed on, and it ends.
    ReportAndStop(String),
    /// It ends.
    Stop,
}

/// What is said of a connection that broke.
pub open spec fn broke_text(client_addr: Seq<char>, error: Seq<char>) -> Seq<char> {
    "Connection with "@ + client_addr + " broke: "@ + error
}

/// A connection that broke is named by the address of the client and the error.
pub proof fn lemma_broke_says(client_addr: Seq<char>, error: Seq<char>)
    ensures
        broke_text(client_addr, error) == "Connection with "@ + client_addr + " broke: "@ + error,
{
}

fn broke_message(client_addr: &str, error: &str) -> (r: String)
    ensures
        r@ == broke_text(client_addr@, error@),
{
    let mut r = text::concat3("Connection with ", client_addr, " broke: ");
    r.append(error);
    r
}

/// Decides what to do about what happens to the connection of a client.
pub fn receptor_step(client_addr: &str, event: ReceptorEvent) -> (r: ReceptorAction)
    ensures
        match (event, r) {
            (ReceptorEvent::RemoteClosed, ReceptorAction::Stop) => true,
            (ReceptorEvent::StreamFailed(e), ReceptorAction::ReportAndStop(s)) => s@ == broke_text(
                client_addr@,
                e@,
            ),
            (ReceptorEvent::NotText, ReceptorAction::Continue) => true,
            (ReceptorEvent::Unreadable(e), ReceptorAction::Report(s)) => s@
                == "Can't parse message: "@ + e@,
            (ReceptorEvent::Message, ReceptorAction::HandOn) => true,
            (ReceptorEvent::CallerGone, ReceptorAction::Stop) => true,
            (ReceptorEvent::Outgoing, ReceptorAction::Send) => true,
            (ReceptorEvent::SendFailed(e), ReceptorAction::ReportAndStop(s)) => s@ == broke_text(
                client_addr@,
                e@,
            ),
            _ => false,
        },
{
    match event {
        ReceptorEvent::RemoteClosed => ReceptorAction::Stop,
        ReceptorEvent::StreamFailed(e) => ReceptorAction::ReportAndStop(
            broke_message(client_addr, e.as_str()),
        ),
        ReceptorEvent::NotText => ReceptorAction::Continue,
        ReceptorEvent::Unreadable(e) => ReceptorAction::Report(
            text::concat("Can't parse message: ", e.as_str()),
        ),
        ReceptorEvent::Message => ReceptorAction::HandOn,
        ReceptorEvent::CallerGone => ReceptorAction::Stop,
        ReceptorEvent::Outgoing => ReceptorAction::Send,
        ReceptorEvent::SendFailed(e) => ReceptorAction::ReportAndStop(
            broke_message(client_addr, e.as_str()),
        ),
    }
}

} // verus!
