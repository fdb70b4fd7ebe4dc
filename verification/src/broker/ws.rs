//! Streaming of mesh events to a WebSocket client.

use vstd::prelude::*;
use vstd::string::*;

verus! {

/// What happens while events are streamed.
#[derive(Debug)]
pub enum WsEvent {
    /// A mesh event, as JSON; `None` where it could not be written as JSON.
    Mesh(Option<String>),
    /// The client was too slow: a number of events were skipped.
    Lagged(u64),
    /// There will be no more events.
    SourceClosed,
    /// The last event was sent, or could not be.
    Sent(bool),
    /// The client closed the connection, or it dropped.
    ClientClosed,
    /// The client sent something else.
    ClientMessage,
}

/// What to do for it.
#[derive(Debug)]
pub enum WsAction {
    /// Send a text to the client.
    Send(String),
    /// Wait for what happens next.
    Wait,
    /// End the connection.
    Stop,
}

/// A [`WsAction`] in terms of sequences.
#[verifier::ext_equal]
pub enum ActionView {
    Send(Seq<char>),
    Wait,
    Stop,
}

impl View for WsAction {
    type V = ActionView;

    open spec fn view(&self) -> ActionView {
        match self {
            WsAction::Send(t) => ActionView::Send(t@),
            WsAction::Wait => ActionView::Wait,
            WsAction::Stop => ActionView::Stop,
        }
    }
}

/// A connection to a client.
#[derive(Debug, Clone, Copy, PartialEq, Eq, Structural)]
pub struct WsSession {
    /// Whether events are still streamed.
    pub open: bool,
}

impl WsSession {
    /// A connection that was just opened.
    pub fn new() -> (r: Self)
        ensures
            r == (WsSession { open: true }),
    {
        WsSession { open: true }
    }
}

/// What to do for an event: a mesh event goes to the client, and the connection ends
/// when the client or the source is gone.
pub open spec fn action_for(event: WsEvent) -> ActionView {
    match event {
        WsEvent::Mesh(Some(json)) => ActionView::Send(json@),
        WsEvent::Mesh(None) => ActionView::Wait,
        WsEvent::Lagged(_) => ActionView::Wait,
        WsEvent::SourceClosed => ActionView::Stop,
        WsEvent::Sent(ok) => if ok {
            ActionView::Wait
        } else {
            ActionView::Stop
        },
        WsEvent::ClientClosed => ActionView::Stop,
        WsEvent::ClientMessage => ActionView::Wait,
    }
}

/// Decides what to do for an event.
pub fn ws_handler(session: &mut WsSession, event: WsEvent) -> (r: WsAction)
    ensures
        r@ == action_for(event),
        final(session).open == (old(session).open && !(r is Stop)),
{
    match event {
        WsEvent::Mesh(Some(json)) => WsAction::Send(json),
        WsEvent::Mesh(None) => WsAction::Wait,
        WsEvent::Lagged(_) => WsAction::Wait,
        WsEvent::Sent(true) => WsAction::Wait,
        WsEvent::ClientMessage => WsAction::Wait,
        _ => {
            session.open = false;
            WsAction::Stop
        },
    }
}

} // verus!
