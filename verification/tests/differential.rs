//! Cross-checks the hand-written codec against a general JSON parser: every
//! frame the encoder emits must be JSON that `serde_json` reads back with
//! the same field values.

use yewchat::codec::{encode_chat_message, encode_envelope};
use yewchat::envelope::ChatMessage;
use yewchat::{Envelope, MsgTypes};

#[test]
fn serde_reads_users_frame() {
    let e = Envelope {
        message_type: MsgTypes::Users,
        data_array: Some(vec!["alice".to_string(), "a\"b\\c".to_string(), "tab\there".to_string()]),
        data: None,
    };
    let v: serde_json::Value = serde_json::from_str(&encode_envelope(&e)).expect("valid JSON");
    assert_eq!(v.get("messageType").unwrap().as_str().unwrap(), "users");
    let arr = v.get("dataArray").unwrap().as_array().unwrap();
    assert_eq!(arr.len(), 3);
    assert_eq!(arr[0].as_str().unwrap(), "alice");
    assert_eq!(arr[1].as_str().unwrap(), "a\"b\\c");
    assert_eq!(arr[2].as_str().unwrap(), "tab\there");
    assert!(v.get("data").unwrap().is_null());
}

#[test]
fn serde_reads_register_frame() {
    let e = Envelope {
        message_type: MsgTypes::Register,
        data_array: None,
        data: Some("carol".to_string()),
    };
    let v: serde_json::Value = serde_json::from_str(&encode_envelope(&e)).expect("valid JSON");
    assert_eq!(v.get("messageType").unwrap().as_str().unwrap(), "register");
    assert!(v.get("dataArray").unwrap().is_null());
    assert_eq!(v.get("data").unwrap().as_str().unwrap(), "carol");
}

#[test]
fn serde_reads_nested_message_payload() {
    let inner = encode_chat_message(&ChatMessage {
        from: "alice".to_string(),
        message: "line one\nline \"two\" \\ done".to_string(),
    });
    let e = Envelope {
        message_type: MsgTypes::Message,
        data_array: None,
        data: Some(inner),
    };
    let v: serde_json::Value = serde_json::from_str(&encode_envelope(&e)).expect("valid JSON");
    assert_eq!(v.get("messageType").unwrap().as_str().unwrap(), "message");
    let payload = v.get("data").unwrap().as_str().unwrap();
    let p: serde_json::Value = serde_json::from_str(payload).expect("valid nested JSON");
    assert_eq!(p.get("from").unwrap().as_str().unwrap(), "alice");
    assert_eq!(
        p.get("message").unwrap().as_str().unwrap(),
        "line one\nline \"two\" \\ done"
    );
}
