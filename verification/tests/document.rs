use snapchat_analyzer::{ChatData, Message};

fn message(sender: &str, created_microseconds: i64) -> Message {
    Message {
        sender: sender.to_string(),
        media_type: "TEXT".to_string(),
        created: "2021-01-01 10:00:00 UTC".to_string(),
        content: Some("hello".to_string()),
        conversation_title: Some("group".to_string()),
        is_sender: false,
        created_microseconds,
        is_saved: false,
    }
}

fn order(data: &ChatData) -> Vec<i64> {
    data.messages().iter().map(|m| m.created_microseconds).collect()
}

#[test]
fn new_document_is_empty() {
    let data = ChatData::new();
    assert_eq!(data.len(), 0);
    assert!(data.messages().is_empty());
    assert_eq!(data.position(&"a".to_string()), None);
}

#[test]
fn messages_come_conversation_after_conversation() {
    let mut data = ChatData::new();
    data.insert("a".to_string(), vec![message("x", 1), message("y", 2)]);
    data.insert("b".to_string(), vec![]);
    data.insert("c".to_string(), vec![message("z", 3)]);
    assert_eq!(data.len(), 3);
    assert_eq!(order(&data), vec![1, 2, 3]);
    assert_eq!(data.position(&"a".to_string()), Some(0));
    assert_eq!(data.position(&"b".to_string()), Some(1));
    assert_eq!(data.position(&"c".to_string()), Some(2));
    assert_eq!(data.position(&"d".to_string()), None);
    let flat = data.messages();
    assert_eq!(flat[0].sender, "x");
    assert_eq!(flat[1].sender, "y");
    assert_eq!(flat[2].sender, "z");
    assert_eq!(flat[2].content, Some("hello".to_string()));
    assert_eq!(flat[2].conversation_title, Some("group".to_string()));
}

#[test]
fn inserting_under_a_known_identifier_replaces_in_place() {
    let mut data = ChatData::new();
    data.insert("a".to_string(), vec![message("x", 1), message("y", 2)]);
    data.insert("b".to_string(), vec![message("z", 3)]);
    data.insert("a".to_string(), vec![message("w", 4)]);
    assert_eq!(data.len(), 2);
    assert_eq!(order(&data), vec![4, 3]);
    assert_eq!(data.position(&"a".to_string()), Some(0));
    data.insert("b".to_string(), vec![]);
    assert_eq!(data.len(), 2);
    assert_eq!(order(&data), vec![4]);
}

#[test]
fn identifiers_are_told_apart_exactly() {
    let mut data = ChatData::new();
    data.insert("Alice".to_string(), vec![message("x", 1)]);
    data.insert("alice".to_string(), vec![message("x", 2)]);
    data.insert("Alice ".to_string(), vec![message("x", 3)]);
    data.insert("".to_string(), vec![message("x", 4)]);
    assert_eq!(data.len(), 4);
    assert_eq!(order(&data), vec![1, 2, 3, 4]);
    assert_eq!(data.position(&"".to_string()), Some(3));
}
