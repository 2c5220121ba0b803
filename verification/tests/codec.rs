use yewchat::codec::{
    decode_chat_message, decode_envelope, encode_chat_message, encode_envelope, DecodeError,
};
use yewchat::envelope::ChatMessage;
use yewchat::{Envelope, MsgTypes};

fn users_envelope(names: &[&str]) -> Envelope {
    Envelope {
        message_type: MsgTypes::Users,
        data_array: Some(names.iter().map(|n| n.to_string()).collect()),
        data: None,
    }
}

#[test]
fn encode_users_exact() {
    let e = users_envelope(&["alice", "bob"]);
    assert_eq!(
        encode_envelope(&e),
        "{\"messageType\":\"users\",\"dataArray\":[\"alice\",\"bob\"],\"data\":null}"
    );
}

#[test]
fn encode_users_empty_roster() {
    let e = users_envelope(&[]);
    assert_eq!(
        encode_envelope(&e),
        "{\"messageType\":\"users\",\"dataArray\":[],\"data\":null}"
    );
}

#[test]
fn encode_register_exact() {
    let e = Envelope {
        message_type: MsgTypes::Register,
        data_array: None,
        data: Some("alice".to_string()),
    };
    assert_eq!(
        encode_envelope(&e),
        "{\"messageType\":\"register\",\"dataArray\":null,\"data\":\"alice\"}"
    );
}

#[test]
fn encode_message_exact() {
    let e = Envelope {
        message_type: MsgTypes::Message,
        data_array: None,
        data: Some("hi".to_string()),
    };
    assert_eq!(
        encode_envelope(&e),
        "{\"messageType\":\"message\",\"dataArray\":null,\"data\":\"hi\"}"
    );
}

#[test]
fn decode_users_frame() {
    let r = decode_envelope("{\"messageType\":\"users\",\"dataArray\":[\"alice\",\"bob\"],\"data\":null}");
    let e = r.expect("well-formed frame");
    assert!(matches!(e.message_type, MsgTypes::Users));
    assert_eq!(e.data_array, Some(vec!["alice".to_string(), "bob".to_string()]));
    assert_eq!(e.data, None);
}

#[test]
fn decode_register_frame() {
    let r = decode_envelope("{\"messageType\":\"register\",\"dataArray\":null,\"data\":\"carol\"}");
    let e = r.expect("well-formed frame");
    assert!(matches!(e.message_type, MsgTypes::Register));
    assert_eq!(e.data_array, None);
    assert_eq!(e.data, Some("carol".to_string()));
}

#[test]
fn round_trip_all_kinds() {
    let cases = vec![
        users_envelope(&["alice", "bob", "carol"]),
        users_envelope(&[]),
        Envelope {
            message_type: MsgTypes::Register,
            data_array: None,
            data: Some("dave".to_string()),
        },
        Envelope {
            message_type: MsgTypes::Message,
            data_array: None,
            data: Some("{\"from\":\"a\",\"message\":\"b\"}".to_string()),
        },
    ];
    for e in cases {
        let d = decode_envelope(&encode_envelope(&e)).expect("round trip");
        assert!(d.message_type == e.message_type);
        assert_eq!(d.data_array, e.data_array);
        assert_eq!(d.data, e.data);
    }
}

#[test]
fn round_trip_escaped_text() {
    let e = Envelope {
        message_type: MsgTypes::Message,
        data_array: None,
        data: Some("a\"b\\c\nd\re\tf".to_string()),
    };
    let wire = encode_envelope(&e);
    assert_eq!(
        wire,
        "{\"messageType\":\"message\",\"dataArray\":null,\"data\":\"a\\\"b\\\\c\\nd\\re\\tf\"}"
    );
    let d = decode_envelope(&wire).expect("round trip");
    assert_eq!(d.data, Some("a\"b\\c\nd\re\tf".to_string()));
}

#[test]
fn round_trip_escaped_roster_names() {
    let e = users_envelope(&["a\"b", "c\\d", "tab\there"]);
    let d = decode_envelope(&encode_envelope(&e)).expect("round trip");
    assert_eq!(
        d.data_array,
        Some(vec!["a\"b".to_string(), "c\\d".to_string(), "tab\there".to_string()])
    );
}

#[test]
fn decode_rejects_malformed() {
    let bad = [
        "",
        "{}",
        "not json at all",
        "{\"messageType\":\"users\"}",
        "{\"messageType\":\"users\",\"dataArray\":[\"alice\"",
        "{\"messageType\":\"users\",\"dataArray\":null,\"data\":null} ",
        "{\"messageType\":\"message\",\"dataArray\":null,\"data\":\"x\\qy\"}",
        "{\"messageType\":\"message\",\"dataArray\":null,\"data\":\"open",
    ];
    for s in bad {
        assert!(matches!(decode_envelope(s), Err(DecodeError::Malformed)), "input: {s:?}");
    }
}

#[test]
fn decode_rejects_unknown_kind() {
    let r = decode_envelope("{\"messageType\":\"presence\",\"dataArray\":null,\"data\":null}");
    assert!(matches!(r, Err(DecodeError::UnknownKind)));
}

#[test]
fn chat_message_codec_exact() {
    let m = ChatMessage { from: "alice".to_string(), message: "hello".to_string() };
    let wire = encode_chat_message(&m);
    assert_eq!(wire, "{\"from\":\"alice\",\"message\":\"hello\"}");
    let d = decode_chat_message(&wire).expect("round trip");
    assert_eq!(d.from, "alice");
    assert_eq!(d.message, "hello");
}

#[test]
fn chat_message_round_trip_escapes() {
    let m = ChatMessage { from: "a\"b".to_string(), message: "line\nbreak\\".to_string() };
    let d = decode_chat_message(&encode_chat_message(&m)).expect("round trip");
    assert_eq!(d.from, "a\"b");
    assert_eq!(d.message, "line\nbreak\\");
}

#[test]
fn chat_message_rejects_malformed() {
    for s in ["", "{}", "{\"from\":\"a\"}", "{\"from\":\"a\",\"message\":\"b\"} "] {
        assert!(decode_chat_message(s).is_none(), "input: {s:?}");
    }
}
