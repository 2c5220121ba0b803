//! The view-state reducer of the chat screen: given the current state (the
//! roster of users and the list of messages) and one event — an inbound wire
//! frame or a locally submitted message — it produces the next state and, for
//! a submission, the outbound frame to hand to the transport.

use vstd::prelude::*;
use vstd::string::StringExecFns;

use crate::codec::{
    decode_chat_message, decode_envelope, enc_envelope, enc_msg, encode_chat_message,
    encode_envelope, spec_decode, spec_decode_msg,
};
use crate::envelope::{
    ChatMessage, ChatMessageV, Envelope, EnvelopeV, MsgTypes, UserProfile, UserProfileV,
};

verus! {

/// One event consumed by the reducer: a received wire frame, or the text of
/// the input field at the moment the user submits it.
pub enum Msg {
    HandleMsg(String),
    SubmitMessage(String),
}

/// Mathematical model of a [`Msg`].
pub enum MsgV {
    HandleMsg(Seq<char>),
    SubmitMessage(Seq<char>),
}

impl View for Msg {
    type V = MsgV;

    open spec fn view(&self) -> MsgV {
        match self {
            Msg::HandleMsg(s) => MsgV::HandleMsg(s@),
            Msg::SubmitMessage(s) => MsgV::SubmitMessage(s@),
        }
    }
}

/// The chat screen's view state: the identity chosen at login (read-only for
/// the session), the roster, and the grow-only list of messages.
pub struct Chat {
    pub username: String,
    pub users: Vec<UserProfile>,
    pub messages: Vec<ChatMessage>,
}

/// Mathematical model of a [`Chat`].
pub struct ChatV {
    pub username: Seq<char>,
    pub users: Seq<UserProfileV>,
    pub messages: Seq<ChatMessageV>,
}

impl View for Chat {
    type V = ChatV;

    open spec fn view(&self) -> ChatV {
        ChatV {
            username: self.username@,
            users: self.users.deep_view(),
            messages: self.messages.deep_view(),
        }
    }
}

// ---------------------------------------------------------------------------
// Profiles and the rendering contract
// ---------------------------------------------------------------------------

/// The avatar URL derived from a username.
pub open spec fn avatar_of(name: Seq<char>) -> Seq<char> {
    "https://api.dicebear.com/8.x/adventurer-neutral/svg?seed="@ + name
}

/// The profile derived from a username alone.
pub open spec fn profile_of(name: Seq<char>) -> UserProfileV {
    UserProfileV { name: name, avatar: avatar_of(name) }
}

/// Builds the profile shown for a username.
pub fn make_profile(name: &String) -> (r: UserProfile)
    ensures
        r@ == profile_of(name@),
{
    UserProfile {
        name: name.clone(),
        avatar: String::from_str("https://api.dicebear.com/8.x/adventurer-neutral/svg?seed=")
            .concat(name.as_str()),
    }
}

/// The rendering rule for message bodies: exactly the texts that end with
/// the four characters `.gif` are shown as image references.
pub open spec fn is_image_ref(s: Seq<char>) -> bool {
    s.len() >= 4 && s.skip(s.len() - 4) == ".gif"@
}

/// Whether a message must be rendered as an image reference rather than as
/// literal text.
pub fn is_image_message(m: &ChatMessage) -> (r: bool)
    ensures
        r == is_image_ref(m@.message),
{
    let s = m.message.as_str();
    let n = s.unicode_len();
    if n < 4 {
        return false;
    }
    let hit = s.get_char(n - 4) == '.' && s.get_char(n - 3) == 'g' && s.get_char(n - 2) == 'i'
        && s.get_char(n - 1) == 'f';
    proof {
        reveal_strlit(".gif");
        let tail = s@.skip(n - 4 as int);
        if hit {
            assert(tail =~= ".gif"@);
        } else {
            if tail == ".gif"@ {
                assert(tail[0] == '.' && tail[1] == 'g' && tail[2] == 'i' && tail[3] == 'f');
                assert(s@[n - 4 as int] == '.' && s@[n - 3 as int] == 'g' && s@[n - 2 as int]
                    == 'i' && s@[n - 1 as int] == 'f');
            }
        }
    }
    hit
}

/// The profile shown for a sender: the first roster entry with that name,
/// or, for a sender absent from the roster, the fallback profile derived
/// from the name itself.
pub open spec fn spec_profile_for(users: Seq<UserProfileV>, name: Seq<char>) -> UserProfileV
    decreases users.len(),
{
    if users.len() == 0 {
        profile_of(name)
    } else if users[0].name == name {
        users[0]
    } else {
        spec_profile_for(users.drop_first(), name)
    }
}

/// Looks a sender up in the roster, never failing: an unknown sender gets
/// the fallback profile derived from the name.
pub fn profile_for(users: &Vec<UserProfile>, name: &String) -> (r: UserProfile)
    ensures
        r@ == spec_profile_for(users.deep_view(), name@),
{
    let n = users.len();
    let mut k: usize = 0;
    proof {
        assert(users.deep_view().skip(0) =~= users.deep_view());
    }
    while k < n
        invariant
            0 <= k <= n,
            n == users@.len(),
            spec_profile_for(users.deep_view(), name@) == spec_profile_for(
                users.deep_view().skip(k as int),
                name@,
            ),
        decreases n - k,
    {
        let ghost pre = users.deep_view().skip(k as int);
        proof {
            assert(pre[0] == users.deep_view()[k as int]);
            assert(pre.drop_first() =~= users.deep_view().skip(k + 1 as int));
        }
        if users[k].name == *name {
            return UserProfile { name: users[k].name.clone(), avatar: users[k].avatar.clone() };
        }
        k = k + 1;
    }
    proof {
        assert(users.deep_view().skip(n as int) =~= Seq::<UserProfileV>::empty());
    }
    make_profile(name)
}

// ---------------------------------------------------------------------------
// The reducer
// ---------------------------------------------------------------------------

/// The transition of the chat screen: from a state and one event to the next
/// state, whether the view changed, and the outbound frame, if any.
///
/// An inbound `Users` frame replaces the roster wholesale, one profile per
/// listed name in the given order; an inbound `Message` frame whose payload
/// parses appends it; a `Register` frame, an unrecognized kind and any
/// malformed text leave the state unchanged. A submission never changes the
/// state: the sent message appears only once the server echoes it back.
pub open spec fn spec_update(c: ChatV, m: MsgV) -> (ChatV, bool, Option<Seq<char>>) {
    match m {
        MsgV::HandleMsg(s) => match spec_decode(s) {
            Ok(env) => match env.message_type {
                MsgTypes::Users => {
                    let names = match env.data_array {
                        Some(a) => a,
                        None => Seq::empty(),
                    };
                    (
                        ChatV {
                            username: c.username,
                            users: names.map_values(|n: Seq<char>| profile_of(n)),
                            messages: c.messages,
                        },
                        true,
                        None,
                    )
                },
                MsgTypes::Message => match env.data {
                    Some(d) => match spec_decode_msg(d) {
                        Some(cm) => (
                            ChatV {
                                username: c.username,
                                users: c.users,
                                messages: c.messages.push(cm),
                            },
                            true,
                            None,
                        ),
                        None => (c, false, None),
                    },
                    None => (c, false, None),
                },
                MsgTypes::Register => (c, false, None),
            },
            Err(_) => (c, false, None),
        },
        MsgV::SubmitMessage(t) => (
            c,
            false,
            Some(
                enc_envelope(
                    EnvelopeV {
                        message_type: MsgTypes::Message,
                        data_array: None,
                        data: Some(enc_msg(ChatMessageV { from: c.username, message: t })),
                    },
                ),
            ),
        ),
    }
}

impl Chat {
    /// Enters the chat screen: empty view state, and the `Register` frame
    /// announcing the chosen identity, to be sent at once.
    pub fn create(username: String) -> (r: (Chat, String))
        ensures
            r.0@ == (ChatV {
                username: username@,
                users: Seq::<UserProfileV>::empty(),
                messages: Seq::<ChatMessageV>::empty(),
            }),
            r.1@ == enc_envelope(
                EnvelopeV {
                    message_type: MsgTypes::Register,
                    data_array: None,
                    data: Some(username@),
                },
            ),
    {
        let frame = encode_envelope(
            &Envelope {
                message_type: MsgTypes::Register,
                data_array: None,
                data: Some(username.clone()),
            },
        );
        let chat = Chat { username, users: Vec::new(), messages: Vec::new() };
        proof {
            assert(chat.users.deep_view() =~= Seq::<UserProfileV>::empty());
            assert(chat.messages.deep_view() =~= Seq::<ChatMessageV>::empty());
        }
        (chat, frame)
    }

    /// Processes one event, as [`spec_update`] describes. The returned flag
    /// says whether the view changed; the returned text, if any, is the
    /// frame to hand to the transport.
    pub fn update(&mut self, msg: Msg) -> (r: (bool, Option<String>))
        ensures
            ({
                let su = spec_update(old(self)@, msg@);
                &&& final(self)@ == su.0
                &&& r.0 == su.1
                &&& r.1.deep_view() == su.2
            }),
    {
        match msg {
            Msg::HandleMsg(s) => {
                match decode_envelope(s.as_str()) {
                    Ok(env) => {
                        let ghost envv = env@;
                        match env.message_type {
                            MsgTypes::Users => {
                                let names: Vec<String> = match env.data_array {
                                    Some(a) => a,
                                    None => Vec::new(),
                                };
                                proof {
                                    assert(match envv.data_array {
                                        Some(ns) => ns == names.deep_view(),
                                        None => names.deep_view().len() == 0,
                                    });
                                }
                                let n = names.len();
                                let mut profs: Vec<UserProfile> = Vec::new();
                                proof {
                                    assert(profs.deep_view() =~= names.deep_view().take(
                                        0,
                                    ).map_values(|nm: Seq<char>| profile_of(nm)));
                                }
                                let mut k: usize = 0;
                                while k < n
                                    invariant
                                        0 <= k <= n,
                                        n == names@.len(),
                                        profs.deep_view() == names.deep_view().take(
                                            k as int,
                                        ).map_values(|nm: Seq<char>| profile_of(nm)),
                                    decreases n - k,
                                {
                                    let ghost pre = profs.deep_view();
                                    profs.push(make_profile(&names[k]));
                                    proof {
                                        assert(names.deep_view().take(k + 1 as int)
                                            =~= names.deep_view().take(k as int).push(
                                            names.deep_view()[k as int],
                                        ));
                                        assert(profs.deep_view() =~= pre.push(
                                            profile_of(names.deep_view()[k as int]),
                                        ));
                                        assert(names.deep_view().take(k + 1 as int).map_values(
                                            |nm: Seq<char>| profile_of(nm),
                                        ) =~= names.deep_view().take(k as int).map_values(
                                            |nm: Seq<char>| profile_of(nm),
                                        ).push(profile_of(names.deep_view()[k as int])));
                                    }
                                    k = k + 1;
                                }
                                proof {
                                    assert(names.deep_view().take(n as int) =~= names.deep_view());
                                    if envv.data_array is None {
                                        assert(names.deep_view() =~= Seq::<Seq<char>>::empty());
                                        assert(names.deep_view().map_values(
                                            |nm: Seq<char>| profile_of(nm),
                                        ) =~= Seq::<Seq<char>>::empty().map_values(
                                            |nm: Seq<char>| profile_of(nm),
                                        ));
                                    }
                                }
                                self.users = profs;
                                (true, None)
                            },
                            MsgTypes::Message => {
                                match env.data {
                                    Some(d) => {
                                        proof {
                                            assert(envv.data == Some(d@));
                                        }
                                        match decode_chat_message(d.as_str()) {
                                            Some(cm) => {
                                                let ghost pre = self.messages.deep_view();
                                                let ghost cmv = cm@;
                                                self.messages.push(cm);
                                                proof {
                                                    assert(self.messages.deep_view() =~= pre.push(
                                                        cmv,
                                                    ));
                                                }
                                                (true, None)
                                            },
                                            None => (false, None),
                                        }
                                    },
                                    None => (false, None),
                                }
                            },
                            MsgTypes::Register => (false, None),
                        }
                    },
                    Err(_) => (false, None),
                }
            },
            Msg::SubmitMessage(t) => {
                let inner = encode_chat_message(
                    &ChatMessage { from: self.username.clone(), message: t },
                );
                let frame = encode_envelope(
                    &Envelope {
                        message_type: MsgTypes::Message,
                        data_array: None,
                        data: Some(inner),
                    },
                );
                (false, Some(frame))
            },
        }
    }
}

// ---------------------------------------------------------------------------
// Laws of the reducer
// ---------------------------------------------------------------------------

/// The state after a whole sequence of events, oldest first.
pub open spec fn spec_run(c: ChatV, msgs: Seq<MsgV>) -> ChatV
    decreases msgs.len(),
{
    if msgs.len() == 0 {
        c
    } else {
        spec_update(spec_run(c, msgs.drop_last()), msgs.last()).0
    }
}

/// A received frame that decodes to a `Users` envelope carrying a roster.
pub open spec fn is_users_frame(m: MsgV) -> bool {
    match m {
        MsgV::HandleMsg(s) => match spec_decode(s) {
            Ok(env) => env.message_type == MsgTypes::Users && env.data_array is Some,
            Err(_) => false,
        },
        _ => false,
    }
}

/// The roster carried by a `Users` frame.
pub open spec fn users_frame_names(m: MsgV) -> Seq<Seq<char>> {
    match m {
        MsgV::HandleMsg(s) => match spec_decode(s) {
            Ok(env) => match env.data_array {
                Some(a) => a,
                None => Seq::empty(),
            },
            Err(_) => Seq::empty(),
        },
        _ => Seq::empty(),
    }
}

/// A received frame that decodes to a `Message` envelope whose payload
/// parses as a chat message.
pub open spec fn is_message_frame(m: MsgV) -> bool {
    match m {
        MsgV::HandleMsg(s) => match spec_decode(s) {
            Ok(env) => env.message_type == MsgTypes::Message && match env.data {
                Some(d) => spec_decode_msg(d) is Some,
                None => false,
            },
            Err(_) => false,
        },
        _ => false,
    }
}

/// The chat message carried by a valid `Message` frame.
pub open spec fn frame_payload(m: MsgV) -> ChatMessageV {
    let none = ChatMessageV { from: Seq::empty(), message: Seq::empty() };
    match m {
        MsgV::HandleMsg(s) => match spec_decode(s) {
            Ok(env) => match env.data {
                Some(d) => match spec_decode_msg(d) {
                    Some(cm) => cm,
                    None => none,
                },
                None => none,
            },
            Err(_) => none,
        },
        _ => none,
    }
}

/// Law: after any sequence of `Users` frames, the roster equals the most
/// recent frame's list — order preserved, one derived profile per name —
/// and the messages and the identity are untouched.
pub proof fn lemma_users_replace(c: ChatV, msgs: Seq<MsgV>)
    requires
        msgs.len() > 0,
        forall|i: int| 0 <= i < msgs.len() ==> is_users_frame(#[trigger] msgs[i]),
    ensures
        spec_run(c, msgs).users == users_frame_names(msgs.last()).map_values(
            |n: Seq<char>| profile_of(n),
        ),
        spec_run(c, msgs).messages == c.messages,
        spec_run(c, msgs).username == c.username,
    decreases msgs.len(),
{
    let prev = spec_run(c, msgs.drop_last());
    if msgs.len() == 1 {
        assert(msgs.drop_last().len() == 0);
        assert(prev == c);
    } else {
        assert(forall|i: int|
            0 <= i < msgs.drop_last().len() ==> is_users_frame(#[trigger] msgs.drop_last()[i]))
            by {
            assert(forall|i: int|
                0 <= i < msgs.drop_last().len() ==> msgs.drop_last()[i] == msgs[i]);
        }
        lemma_users_replace(c, msgs.drop_last());
    }
    assert(is_users_frame(msgs.last()));
    assert(spec_run(c, msgs) == spec_update(prev, msgs.last()).0);
}

/// Law: after any sequence of valid `Message` frames, the message list has
/// grown by exactly their payloads, in arrival order, and the roster and the
/// identity are untouched.
pub proof fn lemma_messages_append(c: ChatV, msgs: Seq<MsgV>)
    requires
        forall|i: int| 0 <= i < msgs.len() ==> is_message_frame(#[trigger] msgs[i]),
    ensures
        spec_run(c, msgs).messages == c.messages + msgs.map_values(
            |m: MsgV| frame_payload(m),
        ),
        spec_run(c, msgs).users == c.users,
        spec_run(c, msgs).username == c.username,
    decreases msgs.len(),
{
    let f = |m: MsgV| frame_payload(m);
    if msgs.len() == 0 {
        assert(msgs.map_values(f) =~= Seq::<ChatMessageV>::empty());
        assert(c.messages + msgs.map_values(f) =~= c.messages);
    } else {
        assert(forall|i: int|
            0 <= i < msgs.drop_last().len() ==> is_message_frame(#[trigger] msgs.drop_last()[i]))
            by {
            assert(forall|i: int|
                0 <= i < msgs.drop_last().len() ==> msgs.drop_last()[i] == msgs[i]);
        }
        lemma_messages_append(c, msgs.drop_last());
        assert(is_message_frame(msgs.last()));
        assert(msgs.map_values(f) =~= msgs.drop_last().map_values(f).push(f(msgs.last())));
        assert(c.messages + msgs.drop_last().map_values(f).push(f(msgs.last())) =~= (c.messages
            + msgs.drop_last().map_values(f)).push(f(msgs.last())));
    }
}

/// Law: the message list is grow-only: no event removes, reorders or
/// rewrites what already stands in it.
pub proof fn lemma_messages_grow_only(c: ChatV, m: MsgV)
    ensures
        spec_update(c, m).0.messages.len() >= c.messages.len(),
        spec_update(c, m).0.messages.take(c.messages.len() as int) == c.messages,
{
    assert(spec_update(c, m).0.messages.take(c.messages.len() as int) =~= c.messages);
}

/// Law: a `Message` frame whose nested payload does not parse leaves the
/// state unchanged and reports no view change.
pub proof fn lemma_bad_payload_no_change(c: ChatV, s: Seq<char>, env: EnvelopeV)
    requires
        spec_decode(s) == Ok::<EnvelopeV, crate::codec::DecodeError>(env),
        env.message_type == MsgTypes::Message,
        match env.data {
            Some(d) => spec_decode_msg(d) is None,
            None => true,
        },
    ensures
        spec_update(c, MsgV::HandleMsg(s)) == (c, false, None::<Seq<char>>),
{
}

/// Law: a submission changes nothing by itself, and if the server echoes
/// the produced frame back, the reducer appends exactly the submitted
/// message, signed with the session's identity.
pub proof fn lemma_echoed_submission_appends(c: ChatV, t: Seq<char>)
    ensures
        ({
            let cm = ChatMessageV { from: c.username, message: t };
            let env = EnvelopeV {
                message_type: MsgTypes::Message,
                data_array: None,
                data: Some(enc_msg(cm)),
            };
            let frame = enc_envelope(env);
            &&& env.wf()
            &&& spec_update(c, MsgV::SubmitMessage(t)) == (c, false, Some(frame))
            &&& spec_update(c, MsgV::HandleMsg(frame)) == (
                ChatV { username: c.username, users: c.users, messages: c.messages.push(cm) },
                true,
                None::<Seq<char>>,
            )
        }),
{
    let cm = ChatMessageV { from: c.username, message: t };
    let env = EnvelopeV {
        message_type: MsgTypes::Message,
        data_array: None,
        data: Some(enc_msg(cm)),
    };
    crate::codec::lemma_envelope_round_trip(env);
    crate::codec::lemma_msg_round_trip(cm);
}

/// Law: a frame that the decoder rejects — malformed text as well as a
/// well-shaped frame with an unrecognized `messageType` — leaves the state
/// unchanged and reports no view change.
pub proof fn lemma_rejected_no_change(c: ChatV, s: Seq<char>)
    requires
        spec_decode(s) is Err,
    ensures
        spec_update(c, MsgV::HandleMsg(s)) == (c, false, None::<Seq<char>>),
{
}

} // verus!
