use script_host::ui::{Focus, Prompt};
use script_host::MessageType;

#[test]
fn focus_of_none_is_unfocused() {
    let focus = Focus::new(None);
    assert!(focus.0.is_none());
    assert!(!focus.is_focused(&"editor".to_string()));
}

#[test]
fn focus_keeps_the_instance_id() {
    let focus = Focus::new(Some("editor".to_string()));
    assert_eq!(focus.0.as_ref().unwrap().0, "editor");
    assert!(focus.is_focused(&"editor".to_string()));
    assert!(!focus.is_focused(&"sidebar".to_string()));
}

#[test]
fn two_grants_to_the_same_instance_differ() {
    // The fresh token makes re-granting focus observable.
    let first = Focus::new(Some("editor".to_string()));
    let second = Focus::new(Some("editor".to_string()));
    assert_ne!(
        first.0.as_ref().unwrap().1,
        second.0.as_ref().unwrap().1
    );
}

#[test]
fn placeholder_replaces_only_the_placeholder() {
    let prompt = Prompt::new("Name?".to_string()).placeholder("Enter value".to_string());
    assert_eq!(prompt.title, "Name?");
    assert_eq!(prompt.placeholder.as_deref(), Some("Enter value"));
}

#[test]
fn message_kinds_order_as_declared() {
    assert!(MessageType::Info < MessageType::Error);
    assert!(MessageType::Error < MessageType::Stdout);
    assert!(MessageType::Stdout < MessageType::Stderr);
    assert_eq!(MessageType::Info, MessageType::Info.clone());
}
