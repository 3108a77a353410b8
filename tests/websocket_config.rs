use rust_streamz::{Collect, MapNode};
use rust_streamz::sources::websocket_client::{
    message_text, WebSocketClient, WebSocketClientConfigBuilder, WsMessage, DEFAULT_BUFFER_SIZE,
};

#[test]
fn builder_defaults() {
    let config = WebSocketClientConfigBuilder::new("wss://example.test/ws").build();
    assert_eq!(config.url, "wss://example.test/ws");
    assert!(config.init_messages.is_empty());
    assert_eq!(config.buffer_size, DEFAULT_BUFFER_SIZE);
    assert_eq!(config.buffer_size, 256);
}

#[test]
fn builder_collects_messages() {
    let config = WebSocketClientConfigBuilder::new("wss://x")
        .with_message("one")
        .with_message("two")
        .with_buffer_size(1024)
        .build();
    assert_eq!(config.init_messages, vec!["one".to_string(), "two".to_string()]);
    assert_eq!(config.buffer_size, 1024);
}

#[test]
fn builder_replaces_messages() {
    let config = WebSocketClientConfigBuilder::new("wss://x")
        .with_message("old")
        .with_messages(vec!["new".to_string()])
        .build();
    assert_eq!(config.init_messages, vec!["new".to_string()]);
}

#[test]
fn client_emits_text_and_valid_binary() {
    let config = WebSocketClientConfigBuilder::new("wss://x").build();
    let mut client = WebSocketClient::new(config, Collect::new());
    assert!(client.handle_message(WsMessage::Text("hello".to_string())));
    assert!(client.handle_message(WsMessage::Binary(b"caf\xc3\xa9".to_vec())));
    assert!(client.handle_message(WsMessage::Binary(vec![0xff, 0xfe])));
    assert!(client.handle_message(WsMessage::Other));
    assert!(!client.handle_message(WsMessage::Close));
    assert_eq!(client.config().url, "wss://x");
    assert_eq!(client.source().down.items, vec!["hello".to_string(), "café".to_string()]);
}

#[test]
fn message_text_extracts_text_and_close() {
    assert_eq!(message_text(WsMessage::Text("t".to_string())), (Some("t".to_string()), true));
    assert_eq!(message_text(WsMessage::Binary(b"ok".to_vec())), (Some("ok".to_string()), true));
    assert_eq!(message_text(WsMessage::Binary(vec![0xc3])), (None, true));
    assert_eq!(message_text(WsMessage::Other), (None, true));
    assert_eq!(message_text(WsMessage::Close), (None, false));
}

#[test]
fn client_pushes_each_text_through_its_graph() {
    let config = WebSocketClientConfigBuilder::new("wss://x").build();
    let down = MapNode::new(|s: &String| s.len(), Collect::new());
    let mut client = WebSocketClient::new(config, down);
    client.handle_message(WsMessage::Text("abc".to_string()));
    assert_eq!(client.source().down.down.items, vec![3]);
    client.handle_message(WsMessage::Text("hello".to_string()));
    assert_eq!(client.source().down.down.items, vec![3, 5]);
}
