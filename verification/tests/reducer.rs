use yewchat::chat::{is_image_message, make_profile, profile_for, Chat, Msg};
use yewchat::envelope::{ChatMessage, UserProfile};
use yewchat::login::login;

const AVATAR_PREFIX: &str = "https://api.dicebear.com/8.x/adventurer-neutral/svg?seed=";

fn fresh_chat(name: &str) -> Chat {
    let (chat, _register) = Chat::create(name.to_string());
    chat
}

#[test]
fn create_starts_empty_and_registers() {
    let (chat, register) = Chat::create("alice".to_string());
    assert_eq!(chat.username, "alice");
    assert!(chat.users.is_empty());
    assert!(chat.messages.is_empty());
    assert_eq!(
        register,
        "{\"messageType\":\"register\",\"dataArray\":null,\"data\":\"alice\"}"
    );
}

#[test]
fn users_frame_replaces_roster() {
    let mut chat = fresh_chat("alice");
    let frame = "{\"messageType\":\"users\",\"dataArray\":[\"alice\",\"bob\"],\"data\":null}";
    let (changed, out) = chat.update(Msg::HandleMsg(frame.to_string()));
    assert!(changed);
    assert!(out.is_none());
    assert_eq!(chat.users.len(), 2);
    assert_eq!(chat.users[0].name, "alice");
    assert_eq!(chat.users[0].avatar, format!("{AVATAR_PREFIX}alice"));
    assert_eq!(chat.users[1].name, "bob");
    assert_eq!(chat.users[1].avatar, format!("{AVATAR_PREFIX}bob"));
}

#[test]
fn users_frame_is_a_full_replace() {
    let mut chat = fresh_chat("alice");
    let first = "{\"messageType\":\"users\",\"dataArray\":[\"alice\",\"bob\"],\"data\":null}";
    let second = "{\"messageType\":\"users\",\"dataArray\":[\"carol\"],\"data\":null}";
    chat.update(Msg::HandleMsg(first.to_string()));
    chat.update(Msg::HandleMsg(second.to_string()));
    assert_eq!(chat.users.len(), 1);
    assert_eq!(chat.users[0].name, "carol");
}

#[test]
fn message_frames_append_in_order() {
    let mut chat = fresh_chat("alice");
    let f1 = "{\"messageType\":\"message\",\"dataArray\":null,\"data\":\"{\\\"from\\\":\\\"bob\\\",\\\"message\\\":\\\"hi\\\"}\"}";
    let f2 = "{\"messageType\":\"message\",\"dataArray\":null,\"data\":\"{\\\"from\\\":\\\"alice\\\",\\\"message\\\":\\\"hello\\\"}\"}";
    let (c1, _) = chat.update(Msg::HandleMsg(f1.to_string()));
    let (c2, _) = chat.update(Msg::HandleMsg(f2.to_string()));
    assert!(c1 && c2);
    assert_eq!(chat.messages.len(), 2);
    assert_eq!(chat.messages[0].from, "bob");
    assert_eq!(chat.messages[0].message, "hi");
    assert_eq!(chat.messages[1].from, "alice");
    assert_eq!(chat.messages[1].message, "hello");
}

#[test]
fn bad_payload_leaves_messages_unchanged() {
    let mut chat = fresh_chat("alice");
    let good = "{\"messageType\":\"message\",\"dataArray\":null,\"data\":\"{\\\"from\\\":\\\"bob\\\",\\\"message\\\":\\\"hi\\\"}\"}";
    chat.update(Msg::HandleMsg(good.to_string()));
    let bad = "{\"messageType\":\"message\",\"dataArray\":null,\"data\":\"not a payload\"}";
    let (changed, out) = chat.update(Msg::HandleMsg(bad.to_string()));
    assert!(!changed);
    assert!(out.is_none());
    assert_eq!(chat.messages.len(), 1);
    let null_data = "{\"messageType\":\"message\",\"dataArray\":null,\"data\":null}";
    let (changed, _) = chat.update(Msg::HandleMsg(null_data.to_string()));
    assert!(!changed);
    assert_eq!(chat.messages.len(), 1);
}

#[test]
fn register_frame_is_ignored() {
    let mut chat = fresh_chat("alice");
    let frame = "{\"messageType\":\"register\",\"dataArray\":null,\"data\":\"bob\"}";
    let (changed, out) = chat.update(Msg::HandleMsg(frame.to_string()));
    assert!(!changed);
    assert!(out.is_none());
    assert!(chat.users.is_empty());
    assert!(chat.messages.is_empty());
}

#[test]
fn unknown_kind_leaves_state_unchanged() {
    let mut chat = fresh_chat("alice");
    let roster = "{\"messageType\":\"users\",\"dataArray\":[\"alice\"],\"data\":null}";
    chat.update(Msg::HandleMsg(roster.to_string()));
    let unknown = "{\"messageType\":\"typing\",\"dataArray\":null,\"data\":\"bob\"}";
    let (changed, out) = chat.update(Msg::HandleMsg(unknown.to_string()));
    assert!(!changed);
    assert!(out.is_none());
    assert_eq!(chat.users.len(), 1);
    assert!(chat.messages.is_empty());
}

#[test]
fn malformed_frame_leaves_state_unchanged() {
    let mut chat = fresh_chat("alice");
    let (changed, out) = chat.update(Msg::HandleMsg("garbage".to_string()));
    assert!(!changed);
    assert!(out.is_none());
    assert!(chat.users.is_empty());
    assert!(chat.messages.is_empty());
}

#[test]
fn submit_sends_one_exact_frame() {
    let mut chat = fresh_chat("alice");
    let (changed, out) = chat.update(Msg::SubmitMessage("hello".to_string()));
    assert!(!changed);
    assert_eq!(
        out.expect("an outbound frame"),
        "{\"messageType\":\"message\",\"dataArray\":null,\"data\":\"{\\\"from\\\":\\\"alice\\\",\\\"message\\\":\\\"hello\\\"}\"}"
    );
    assert!(chat.messages.is_empty());
    assert!(chat.users.is_empty());
}

#[test]
fn submitted_message_appears_only_when_echoed() {
    let mut chat = fresh_chat("alice");
    let (_, out) = chat.update(Msg::SubmitMessage("hello".to_string()));
    assert!(chat.messages.is_empty());
    let echo = out.expect("an outbound frame");
    let (changed, _) = chat.update(Msg::HandleMsg(echo));
    assert!(changed);
    assert_eq!(chat.messages.len(), 1);
    assert_eq!(chat.messages[0].from, "alice");
    assert_eq!(chat.messages[0].message, "hello");
}

#[test]
fn gif_suffix_is_flagged_exactly() {
    let gif = ChatMessage { from: "a".to_string(), message: "cat.gif".to_string() };
    assert!(is_image_message(&gif));
    let not_gif = ChatMessage { from: "a".to_string(), message: "hello.gif.txt".to_string() };
    assert!(!is_image_message(&not_gif));
    let bare = ChatMessage { from: "a".to_string(), message: ".gif".to_string() };
    assert!(is_image_message(&bare));
    let short = ChatMessage { from: "a".to_string(), message: "gif".to_string() };
    assert!(!is_image_message(&short));
    let plain = ChatMessage { from: "a".to_string(), message: "hello".to_string() };
    assert!(!is_image_message(&plain));
}

#[test]
fn sender_lookup_finds_roster_entry() {
    let users: Vec<UserProfile> = vec![
        make_profile(&"alice".to_string()),
        make_profile(&"bob".to_string()),
    ];
    let p = profile_for(&users, &"bob".to_string());
    assert_eq!(p.name, "bob");
    assert_eq!(p.avatar, format!("{AVATAR_PREFIX}bob"));
}

#[test]
fn sender_lookup_falls_back_for_unknown_sender() {
    let users: Vec<UserProfile> = vec![make_profile(&"alice".to_string())];
    let p = profile_for(&users, &"ghost".to_string());
    assert_eq!(p.name, "ghost");
    assert_eq!(p.avatar, format!("{AVATAR_PREFIX}ghost"));
}

#[test]
fn login_requires_a_nonempty_name() {
    assert!(login(String::new()).is_none());
    assert_eq!(login("alice".to_string()), Some("alice".to_string()));
}
