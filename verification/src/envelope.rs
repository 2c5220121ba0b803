//! The wire envelope exchanged with the chat server, and the data carried by
//! its payloads: chat messages and user profiles.

use vstd::prelude::*;

verus! {

/// The three recognized values of the wire field `messageType`.
#[derive(Clone, Copy, Debug, PartialEq, Eq, Structural)]
pub enum MsgTypes {
    Users,
    Register,
    Message,
}

/// One frame of the chat wire protocol.
///
/// `Users` frames carry `data_array` (the roster) and no `data`; `Register`
/// and `Message` frames carry `data` (a username, respectively a message
/// payload) and no `data_array`.
#[derive(Debug)]
pub struct Envelope {
    pub message_type: MsgTypes,
    pub data_array: Option<Vec<String>>,
    pub data: Option<String>,
}

/// Mathematical model of an [`Envelope`].
pub struct EnvelopeV {
    pub message_type: MsgTypes,
    pub data_array: Option<Seq<Seq<char>>>,
    pub data: Option<Seq<char>>,
}

impl View for Envelope {
    type V = EnvelopeV;

    open spec fn view(&self) -> EnvelopeV {
        EnvelopeV {
            message_type: self.message_type,
            data_array: self.data_array.deep_view(),
            data: self.data.deep_view(),
        }
    }
}

impl EnvelopeV {
    /// Kind/payload consistency of an envelope: `Users` carries the roster
    /// and nothing else; `Register` and `Message` carry `data` alone.
    pub open spec fn wf(self) -> bool {
        match self.message_type {
            MsgTypes::Users => self.data_array is Some && self.data is None,
            MsgTypes::Register => self.data is Some && self.data_array is None,
            MsgTypes::Message => self.data is Some && self.data_array is None,
        }
    }
}

/// One chat message, as carried in the `data` payload of a `Message` frame.
#[derive(Debug)]
pub struct ChatMessage {
    pub from: String,
    pub message: String,
}

/// Mathematical model of a [`ChatMessage`].
pub struct ChatMessageV {
    pub from: Seq<char>,
    pub message: Seq<char>,
}

impl View for ChatMessage {
    type V = ChatMessageV;

    open spec fn view(&self) -> ChatMessageV {
        ChatMessageV { from: self.from@, message: self.message@ }
    }
}

impl DeepView for ChatMessage {
    type V = ChatMessageV;

    open spec fn deep_view(&self) -> ChatMessageV {
        self.view()
    }
}

/// One entry of the roster: a username and its derived avatar URL.
#[derive(Debug)]
pub struct UserProfile {
    pub name: String,
    pub avatar: String,
}

/// Mathematical model of a [`UserProfile`].
pub struct UserProfileV {
    pub name: Seq<char>,
    pub avatar: Seq<char>,
}

impl View for UserProfile {
    type V = UserProfileV;

    open spec fn view(&self) -> UserProfileV {
        UserProfileV { name: self.name@, avatar: self.avatar@ }
    }
}

impl DeepView for UserProfile {
    type V = UserProfileV;

    open spec fn deep_view(&self) -> UserProfileV {
        self.view()
    }
}

} // verus!
