use saba_core::client::HttpClient;
use saba_core::dom::{Node, NodeKind, Window};

#[test]
fn test_new_node_has_no_links() {
    let node = Node::new(NodeKind::Text("hi".to_string()));
    assert!(matches!(node.kind, NodeKind::Text(_)));
    assert_eq!(node.parent(), None);
    assert_eq!(node.first_child(), None);
    assert_eq!(node.last_child(), None);
    assert_eq!(node.previous_sibling(), None);
    assert_eq!(node.next_sibling(), None);
}

#[test]
fn test_node_links_round_trip() {
    let mut node = Node::new(NodeKind::Document);
    node.set_parent(Some(0));
    node.set_first_child(Some(1));
    node.set_last_child(Some(2));
    node.set_previous_sibling(Some(3));
    node.set_next_sibling(Some(4));
    node.set_window(Some(5));
    assert_eq!(node.parent(), Some(0));
    assert_eq!(node.first_child(), Some(1));
    assert_eq!(node.last_child(), Some(2));
    assert_eq!(node.previous_sibling(), Some(3));
    assert_eq!(node.next_sibling(), Some(4));
}

#[test]
fn test_window_owns_a_document_root() {
    let window = Window::new();
    let document = window.document();
    assert!(matches!(document.kind, NodeKind::Document));
    assert_eq!(document.parent(), None);
    assert_eq!(document.first_child(), None);
}

#[test]
fn test_request_message_text() {
    let _client = HttpClient::new();
    let request = HttpClient::request_message("example.com", "/index.html");
    assert_eq!(
        request,
        "GET /index.html HTTP/1.1\r\nHost: example.com\nAccept: text/html\n\n"
    );
}
