//! Streaming of events to a WebSocket client.

use peat_mesh::broker::ws::{ws_handler, WsAction, WsEvent, WsSession};

#[test]
fn ws_handler_exists() {
    let _ = ws_handler as fn(_, _) -> _;
}

#[test]
fn test_events_are_streamed_until_the_end() {
    let mut session = WsSession::new();
    match ws_handler(&mut session, WsEvent::Mesh(Some("{}".to_string()))) {
        WsAction::Send(text) => assert_eq!(text, "{}"),
        other => panic!("expected Send, got {:?}", other),
    }
    for event in [WsEvent::Sent(true), WsEvent::Mesh(None), WsEvent::Lagged(3), WsEvent::ClientMessage] {
        assert!(matches!(ws_handler(&mut session, event), WsAction::Wait));
        assert!(session.open);
    }
    assert!(matches!(ws_handler(&mut session, WsEvent::SourceClosed), WsAction::Stop));
    assert!(!session.open);
}

#[test]
fn test_lost_client_ends_the_session() {
    for event in [WsEvent::Sent(false), WsEvent::ClientClosed] {
        let mut session = WsSession::new();
        assert!(matches!(ws_handler(&mut session, event), WsAction::Stop));
        assert!(!session.open);
    }
}
