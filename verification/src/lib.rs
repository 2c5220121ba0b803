//! Core of a small chat client: the websocket message-envelope codec and the
//! view-state reducer that turns inbound envelopes and local actions into the
//! next UI state (roster of users, list of messages).

pub mod chat;
pub mod codec;
pub mod envelope;
pub mod login;

pub use chat::Chat;
pub use chat::Msg;
pub use envelope::Envelope;
pub use envelope::MsgTypes;
