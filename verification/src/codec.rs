//! Codec for the textual wire format of the chat protocol.
//!
//! A frame is one JSON object with the fixed field names `messageType`,
//! `dataArray` and `data`, in that order, without extra whitespace:
//!
//! ```text
//! {"messageType":"users","dataArray":["a","b"],"data":null}
//! ```
//!
//! A `Message` frame's `data` holds in turn the JSON text
//! `{"from":"<name>","message":"<text>"}`. String bodies escape `"`, `\`,
//! and the three common control characters; every other character stands
//! for itself. The decoder accepts exactly this canonical form and reports
//! anything else as malformed, with an unrecognized `messageType` told apart
//! as its own recoverable error.

use vstd::prelude::*;
use vstd::string::StrSliceExecFns;

use crate::envelope::{ChatMessage, ChatMessageV, Envelope, EnvelopeV, MsgTypes};

verus! {

/// Why a frame was rejected by the decoder.
#[derive(Clone, Copy, Debug, PartialEq, Eq, Structural)]
pub enum DecodeError {
    /// The text is not a frame of the canonical wire shape.
    Malformed,
    /// The frame is well shaped but its `messageType` is not one of the
    /// three recognized values.
    UnknownKind,
}

// ---------------------------------------------------------------------------
// String bodies: escaping and its inverse
// ---------------------------------------------------------------------------

/// Wire text of one character inside a quoted string body.
pub open spec fn esc_char(c: char) -> Seq<char> {
    if c == '"' {
        seq!['\\', '"']
    } else if c == '\\' {
        seq!['\\', '\\']
    } else if c == '\n' {
        seq!['\\', 'n']
    } else if c == '\r' {
        seq!['\\', 'r']
    } else if c == '\t' {
        seq!['\\', 't']
    } else {
        seq![c]
    }
}

/// The character named by a backslash escape, if the escape is recognized.
pub open spec fn unesc_char(c: char) -> Option<char> {
    if c == '"' {
        Some('"')
    } else if c == '\\' {
        Some('\\')
    } else if c == 'n' {
        Some('\n')
    } else if c == 'r' {
        Some('\r')
    } else if c == 't' {
        Some('\t')
    } else {
        None
    }
}

/// Wire text of a whole string body (what stands between the quotes).
pub open spec fn escape(s: Seq<char>) -> Seq<char>
    decreases s.len(),
{
    if s.len() == 0 {
        Seq::empty()
    } else {
        esc_char(s[0]) + escape(s.drop_first())
    }
}

/// Reads a quoted string body from `s`, the text standing right after the
/// opening quote. Returns the unescaped content and the text after the
/// closing quote.
pub open spec fn parse_str_body(s: Seq<char>) -> Option<(Seq<char>, Seq<char>)>
    decreases s.len(),
{
    if s.len() == 0 {
        None
    } else if s[0] == '"' {
        Some((Seq::empty(), s.drop_first()))
    } else if s[0] == '\\' {
        if s.len() >= 2 {
            match unesc_char(s[1]) {
                Some(c) => match parse_str_body(s.skip(2)) {
                    Some(p) => Some((seq![c] + p.0, p.1)),
                    None => None,
                },
                None => None,
            }
        } else {
            None
        }
    } else {
        match parse_str_body(s.drop_first()) {
            Some(p) => Some((seq![s[0]] + p.0, p.1)),
            None => None,
        }
    }
}

/// A successful parse of a string body consumes at least the closing quote.
pub proof fn lemma_parse_str_body_len(s: Seq<char>)
    ensures
        parse_str_body(s) matches Some(p) ==> p.1.len() < s.len(),
    decreases s.len(),
{
    if s.len() == 0 {
    } else if s[0] == '"' {
    } else if s[0] == '\\' {
        if s.len() >= 2 && unesc_char(s[1]) is Some {
            lemma_parse_str_body_len(s.skip(2));
        }
    } else {
        lemma_parse_str_body_len(s.drop_first());
    }
}

/// Escaping then parsing a string body gives the body back, whatever follows
/// the closing quote.
pub proof fn lemma_parse_escape(s: Seq<char>, rest: Seq<char>)
    ensures
        parse_str_body(escape(s) + seq!['"'] + rest) == Some((s, rest)),
    decreases s.len(),
{
    let t = escape(s) + seq!['"'] + rest;
    if s.len() == 0 {
        assert(t =~= seq!['"'] + rest);
        assert(t[0] == '"');
        assert(t.drop_first() =~= rest);
        assert(s =~= Seq::<char>::empty());
    } else {
        let c = s[0];
        let e = esc_char(c);
        let t2 = escape(s.drop_first()) + seq!['"'] + rest;
        assert(t =~= e + t2);
        lemma_parse_escape(s.drop_first(), rest);
        if c == '"' || c == '\\' || c == '\n' || c == '\r' || c == '\t' {
            assert(e.len() == 2 && e[0] == '\\');
            assert(t[0] == '\\');
            assert(t[1] == e[1]);
            assert(unesc_char(e[1]) == Some(c));
            assert(t.skip(2) =~= t2);
            assert(seq![c] + s.drop_first() =~= s);
        } else {
            assert(t[0] == c);
            assert(c != '"' && c != '\\');
            assert(t.drop_first() =~= t2);
            assert(seq![c] + s.drop_first() =~= s);
        }
    }
}

// ---------------------------------------------------------------------------
// String arrays
// ---------------------------------------------------------------------------

/// Wire text of an array of string bodies, from the first item on (the
/// opening `[` stands outside; the closing `]` is included).
pub open spec fn enc_items(items: Seq<Seq<char>>) -> Seq<char>
    decreases items.len(),
{
    if items.len() == 0 {
        seq![']']
    } else {
        seq!['"'] + escape(items[0]) + seq!['"'] + enc_more(items.drop_first())
    }
}

/// Wire text of the items after the first one, each led by a comma.
pub open spec fn enc_more(items: Seq<Seq<char>>) -> Seq<char>
    decreases items.len(),
{
    if items.len() == 0 {
        seq![']']
    } else {
        seq![','] + seq!['"'] + escape(items[0]) + seq!['"'] + enc_more(items.drop_first())
    }
}

/// Reads an array of string bodies from `s`, the text right after the
/// opening `[`. Returns the items and the text after the closing `]`.
pub open spec fn parse_items(s: Seq<char>) -> Option<(Seq<Seq<char>>, Seq<char>)>
    decreases s.len(), 1int,
    via parse_items_dec
{
    if s.len() == 0 {
        None
    } else if s[0] == ']' {
        Some((Seq::empty(), s.drop_first()))
    } else if s[0] == '"' {
        match parse_str_body(s.drop_first()) {
            Some(p) => match parse_more(p.1) {
                Some(q) => Some((seq![p.0] + q.0, q.1)),
                None => None,
            },
            None => None,
        }
    } else {
        None
    }
}

/// Reads the items after the first one: either the closing `]`, or a comma
/// followed by another quoted string body.
pub open spec fn parse_more(s: Seq<char>) -> Option<(Seq<Seq<char>>, Seq<char>)>
    decreases s.len(), 0int,
    via parse_more_dec
{
    if s.len() == 0 {
        None
    } else if s[0] == ']' {
        Some((Seq::empty(), s.drop_first()))
    } else if s[0] == ',' {
        if s.len() >= 2 && s[1] == '"' {
            match parse_str_body(s.skip(2)) {
                Some(p) => match parse_more(p.1) {
                    Some(q) => Some((seq![p.0] + q.0, q.1)),
                    None => None,
                },
                None => None,
            }
        } else {
            None
        }
    } else {
        None
    }
}

#[via_fn]
proof fn parse_items_dec(s: Seq<char>) {
    if s.len() > 0 && s[0] != ']' && s[0] == '"' {
        lemma_parse_str_body_len(s.drop_first());
    }
}

#[via_fn]
proof fn parse_more_dec(s: Seq<char>) {
    if s.len() >= 2 && s[0] == ',' && s[1] == '"' {
        lemma_parse_str_body_len(s.skip(2));
    }
}

proof fn lemma_parse_enc_more(items: Seq<Seq<char>>, rest: Seq<char>)
    ensures
        parse_more(enc_more(items) + rest) == Some((items, rest)),
    decreases items.len(),
{
    let t = enc_more(items) + rest;
    if items.len() == 0 {
        assert(t =~= seq![']'] + rest);
        assert(t[0] == ']');
        assert(t.drop_first() =~= rest);
        assert(items =~= Seq::<Seq<char>>::empty());
    } else {
        let x = items[0];
        let tail = enc_more(items.drop_first()) + rest;
        assert(t =~= seq![','] + seq!['"'] + escape(x) + seq!['"'] + tail);
        assert(t[0] == ',');
        assert(t[1] == '"');
        assert(t.len() >= 2);
        assert(t.skip(2) =~= escape(x) + seq!['"'] + tail);
        lemma_parse_escape(x, tail);
        lemma_parse_enc_more(items.drop_first(), rest);
        assert(seq![x] + items.drop_first() =~= items);
    }
}

proof fn lemma_parse_enc_items(items: Seq<Seq<char>>, rest: Seq<char>)
    ensures
        parse_items(enc_items(items) + rest) == Some((items, rest)),
{
    let t = enc_items(items) + rest;
    if items.len() == 0 {
        assert(t =~= seq![']'] + rest);
        assert(t[0] == ']');
        assert(t.drop_first() =~= rest);
        assert(items =~= Seq::<Seq<char>>::empty());
    } else {
        let x = items[0];
        let tail = enc_more(items.drop_first()) + rest;
        assert(t =~= seq!['"'] + (escape(x) + seq!['"'] + tail));
        assert(t[0] == '"');
        assert(t.drop_first() =~= escape(x) + seq!['"'] + tail);
        lemma_parse_escape(x, tail);
        lemma_parse_enc_more(items.drop_first(), rest);
        assert(seq![x] + items.drop_first() =~= items);
    }
}

// ---------------------------------------------------------------------------
// Envelope grammar
// ---------------------------------------------------------------------------

/// The wire word of each recognized `messageType` value.
pub open spec fn kind_text(t: MsgTypes) -> Seq<char> {
    match t {
        MsgTypes::Users => "users"@,
        MsgTypes::Register => "register"@,
        MsgTypes::Message => "message"@,
    }
}

/// The kind named by a wire word, if recognized.
pub open spec fn kind_of(w: Seq<char>) -> Option<MsgTypes> {
    if w == "users"@ {
        Some(MsgTypes::Users)
    } else if w == "register"@ {
        Some(MsgTypes::Register)
    } else if w == "message"@ {
        Some(MsgTypes::Message)
    } else {
        None
    }
}

/// Wire text of an optional string payload: `null`, or a quoted body.
pub open spec fn enc_opt_str(d: Option<Seq<char>>) -> Seq<char> {
    match d {
        None => "null"@,
        Some(s) => seq!['"'] + escape(s) + seq!['"'],
    }
}

/// Wire text of an optional string array: `null`, or a bracketed list.
pub open spec fn enc_opt_arr(a: Option<Seq<Seq<char>>>) -> Seq<char> {
    match a {
        None => "null"@,
        Some(items) => seq!['['] + enc_items(items),
    }
}

/// Wire text of a whole envelope.
pub open spec fn enc_envelope(e: EnvelopeV) -> Seq<char> {
    "{\"messageType\":\""@ + escape(kind_text(e.message_type)) + seq!['"']
        + ",\"dataArray\":"@ + enc_opt_arr(e.data_array)
        + ",\"data\":"@ + enc_opt_str(e.data) + seq!['}']
}

/// `s` begins with the prefix `p`.
pub open spec fn starts_with(s: Seq<char>, p: Seq<char>) -> bool {
    p.len() <= s.len() && s.take(p.len() as int) == p
}

/// Reads an optional string payload; returns it and the remaining text.
pub open spec fn parse_opt_str(s: Seq<char>) -> Option<(Option<Seq<char>>, Seq<char>)> {
    if starts_with(s, "null"@) {
        Some((None, s.skip("null"@.len() as int)))
    } else if s.len() > 0 && s[0] == '"' {
        match parse_str_body(s.drop_first()) {
            Some(p) => Some((Some(p.0), p.1)),
            None => None,
        }
    } else {
        None
    }
}

/// Reads an optional string array; returns it and the remaining text.
pub open spec fn parse_opt_arr(s: Seq<char>) -> Option<(Option<Seq<Seq<char>>>, Seq<char>)> {
    if starts_with(s, "null"@) {
        Some((None, s.skip("null"@.len() as int)))
    } else if s.len() > 0 && s[0] == '[' {
        match parse_items(s.drop_first()) {
            Some(p) => Some((Some(p.0), p.1)),
            None => None,
        }
    } else {
        None
    }
}

/// Reads a whole envelope in canonical form: the raw kind word, the optional
/// array and the optional string payload. Nothing may follow the closing
/// brace.
pub open spec fn parse_envelope(s: Seq<char>) -> Option<
    (Seq<char>, Option<Seq<Seq<char>>>, Option<Seq<char>>),
> {
    let p0 = "{\"messageType\":\""@;
    let p1 = ",\"dataArray\":"@;
    let p2 = ",\"data\":"@;
    if starts_with(s, p0) {
        match parse_str_body(s.skip(p0.len() as int)) {
            Some(k) => if starts_with(k.1, p1) {
                match parse_opt_arr(k.1.skip(p1.len() as int)) {
                    Some(a) => if starts_with(a.1, p2) {
                        match parse_opt_str(a.1.skip(p2.len() as int)) {
                            Some(d) => if d.1 =~= seq!['}'] {
                                Some((k.0, a.0, d.0))
                            } else {
                                None
                            },
                            None => None,
                        }
                    } else {
                        None
                    },
                    None => None,
                }
            } else {
                None
            },
            None => None,
        }
    } else {
        None
    }
}

/// What the decoder returns on any input text: the envelope of a canonical
/// frame with a recognized kind, or the error that names what went wrong.
pub open spec fn spec_decode(s: Seq<char>) -> Result<EnvelopeV, DecodeError> {
    match parse_envelope(s) {
        None => Err(DecodeError::Malformed),
        Some(p) => match kind_of(p.0) {
            None => Err(DecodeError::UnknownKind),
            Some(t) => Ok(EnvelopeV { message_type: t, data_array: p.1, data: p.2 }),
        },
    }
}

// ---------------------------------------------------------------------------
// The nested chat-message payload
// ---------------------------------------------------------------------------

/// Wire text of the `data` payload of a `Message` frame.
pub open spec fn enc_msg(m: ChatMessageV) -> Seq<char> {
    "{\"from\":\""@ + escape(m.from) + seq!['"']
        + ",\"message\":\""@ + escape(m.message) + seq!['"'] + seq!['}']
}

/// What the payload decoder returns: the chat message of a canonical
/// payload, or nothing.
pub open spec fn spec_decode_msg(s: Seq<char>) -> Option<ChatMessageV> {
    let q0 = "{\"from\":\""@;
    let q1 = ",\"message\":\""@;
    if starts_with(s, q0) {
        match parse_str_body(s.skip(q0.len() as int)) {
            Some(f) => if starts_with(f.1, q1) {
                match parse_str_body(f.1.skip(q1.len() as int)) {
                    Some(m) => if m.1 =~= seq!['}'] {
                        Some(ChatMessageV { from: f.0, message: m.0 })
                    } else {
                        None
                    },
                    None => None,
                }
            } else {
                None
            },
            None => None,
        }
    } else {
        None
    }
}

// ---------------------------------------------------------------------------
// Round trips
// ---------------------------------------------------------------------------

/// The three wire words name back the kinds they encode.
pub proof fn lemma_kind_round_trip(t: MsgTypes)
    ensures
        kind_of(kind_text(t)) == Some(t),
{
    reveal_strlit("users");
    reveal_strlit("register");
    reveal_strlit("message");
    assert("users"@.len() == 5);
    assert("register"@.len() == 8);
    assert("message"@.len() == 7);
}

/// Law: encoding an envelope and decoding the text gives the envelope back,
/// for every kind and every payload combination.
#[verifier::rlimit(50)]
pub proof fn lemma_envelope_round_trip(e: EnvelopeV)
    ensures
        spec_decode(enc_envelope(e)) == Ok::<EnvelopeV, DecodeError>(e),
{
    let p0 = "{\"messageType\":\""@;
    let p1 = ",\"dataArray\":"@;
    let p2 = ",\"data\":"@;
    let k = kind_text(e.message_type);
    let s = enc_envelope(e);
    let rest3 = p2 + enc_opt_str(e.data) + seq!['}'];
    let rest2 = enc_opt_arr(e.data_array) + rest3;
    let rest1 = p1 + rest2;
    reveal_strlit("null");
    assert("null"@.len() == 4 && "null"@[0] == 'n');

    // The fixed head, then the kind word.
    assert(s =~= p0 + (escape(k) + seq!['"'] + rest1));
    assert(starts_with(s, p0)) by {
        assert(s.take(p0.len() as int) =~= p0);
    }
    assert(s.skip(p0.len() as int) =~= escape(k) + seq!['"'] + rest1);
    lemma_parse_escape(k, rest1);

    // The `dataArray` field.
    assert(starts_with(rest1, p1)) by {
        assert(rest1.take(p1.len() as int) =~= p1);
    }
    assert(rest1.skip(p1.len() as int) =~= rest2);
    match e.data_array {
        None => {
            assert(rest2 =~= "null"@ + rest3);
            assert(starts_with(rest2, "null"@)) by {
                assert(rest2.take(4) =~= "null"@);
            }
            assert(rest2.skip("null"@.len() as int) =~= rest3);
        },
        Some(items) => {
            assert(rest2 =~= seq!['['] + (enc_items(items) + rest3));
            assert(rest2[0] == '[');
            assert(!starts_with(rest2, "null"@)) by {
                if starts_with(rest2, "null"@) {
                    assert(rest2.take(4)[0] == 'n');
                }
            }
            assert(rest2.drop_first() =~= enc_items(items) + rest3);
            lemma_parse_enc_items(items, rest3);
        },
    }

    // The `data` field, then the closing brace.
    let rest4 = enc_opt_str(e.data) + seq!['}'];
    assert(starts_with(rest3, p2)) by {
        assert(rest3.take(p2.len() as int) =~= p2);
    }
    assert(rest3.skip(p2.len() as int) =~= rest4);
    match e.data {
        None => {
            assert(rest4 =~= "null"@ + seq!['}']);
            assert(starts_with(rest4, "null"@)) by {
                assert(rest4.take(4) =~= "null"@);
            }
            assert(rest4.skip("null"@.len() as int) =~= seq!['}']);
        },
        Some(d) => {
            assert(rest4 =~= seq!['"'] + (escape(d) + seq!['"'] + seq!['}']));
            assert(rest4[0] == '"');
            assert(!starts_with(rest4, "null"@)) by {
                if starts_with(rest4, "null"@) {
                    assert(rest4.take(4)[0] == 'n');
                }
            }
            assert(rest4.drop_first() =~= escape(d) + seq!['"'] + seq!['}']);
            lemma_parse_escape(d, seq!['}']);
        },
    }

    lemma_kind_round_trip(e.message_type);
    assert(parse_envelope(s) == Some((k, e.data_array, e.data)));
    assert(EnvelopeV { message_type: e.message_type, data_array: e.data_array, data: e.data }
        == e);
}

/// Law: encoding a chat-message payload and decoding the text gives the
/// message back.
pub proof fn lemma_msg_round_trip(m: ChatMessageV)
    ensures
        spec_decode_msg(enc_msg(m)) == Some(m),
{
    let q0 = "{\"from\":\""@;
    let q1 = ",\"message\":\""@;
    let s = enc_msg(m);
    let rest1 = q1 + escape(m.message) + seq!['"'] + seq!['}'];
    assert(s =~= q0 + (escape(m.from) + seq!['"'] + rest1));
    assert(starts_with(s, q0)) by {
        assert(s.take(q0.len() as int) =~= q0);
    }
    assert(s.skip(q0.len() as int) =~= escape(m.from) + seq!['"'] + rest1);
    lemma_parse_escape(m.from, rest1);

    let rest2 = escape(m.message) + seq!['"'] + seq!['}'];
    assert(starts_with(rest1, q1)) by {
        assert(rest1.take(q1.len() as int) =~= q1);
    }
    assert(rest1.skip(q1.len() as int) =~= rest2);
    assert(rest2 =~= escape(m.message) + seq!['"'] + seq!['}']);
    lemma_parse_escape(m.message, seq!['}']);
    assert(ChatMessageV { from: m.from, message: m.message } == m);
}

// ---------------------------------------------------------------------------
// Building wire text
// ---------------------------------------------------------------------------

/// Relies on `Iterator::collect` for `String`: a `String` collected from
/// `char`s holds exactly those `char`s in order.
#[verifier::external_body]
fn chars_to_string(v: &Vec<char>) -> (r: String)
    ensures
        r@ == v@,
{
    v.iter().collect()
}

/// Appends the characters of `s` to `out`.
fn push_str_chars(out: &mut Vec<char>, s: &str)
    ensures
        final(out)@ == old(out)@ + s@,
{
    let n = s.unicode_len();
    let mut i: usize = 0;
    while i < n
        invariant
            i <= n,
            n == s@.len(),
            out@ == old(out)@ + s@.take(i as int),
        decreases n - i,
    {
        out.push(s.get_char(i));
        proof {
            assert(s@.take(i + 1 as int) =~= s@.take(i as int).push(s@[i as int]));
        }
        i = i + 1;
    }
    proof {
        assert(s@.take(n as int) =~= s@);
    }
}

proof fn lemma_escape_snoc(s: Seq<char>, c: char)
    ensures
        escape(s.push(c)) == escape(s) + esc_char(c),
    decreases s.len(),
{
    if s.len() == 0 {
        assert(s.push(c)[0] == c);
        assert(s.push(c).drop_first() =~= Seq::<char>::empty());
        assert(esc_char(c) + escape(Seq::<char>::empty()) =~= esc_char(c));
        assert(escape(s) + esc_char(c) =~= esc_char(c));
    } else {
        assert(s.push(c)[0] == s[0]);
        assert(s.push(c).drop_first() =~= s.drop_first().push(c));
        lemma_escape_snoc(s.drop_first(), c);
        assert(esc_char(s[0]) + (escape(s.drop_first()) + esc_char(c)) =~= (esc_char(s[0])
            + escape(s.drop_first())) + esc_char(c));
    }
}

/// Appends the escaped body of `s` to `out`.
fn push_escaped(out: &mut Vec<char>, s: &str)
    ensures
        final(out)@ == old(out)@ + escape(s@),
{
    let n = s.unicode_len();
    let mut i: usize = 0;
    assert(escape(s@.take(0)) =~= Seq::<char>::empty());
    assert(out@ =~= old(out)@ + escape(s@.take(0)));
    while i < n
        invariant
            i <= n,
            n == s@.len(),
            out@ == old(out)@ + escape(s@.take(i as int)),
        decreases n - i,
    {
        let c = s.get_char(i);
        if c == '"' {
            out.push('\\');
            out.push('"');
        } else if c == '\\' {
            out.push('\\');
            out.push('\\');
        } else if c == '\n' {
            out.push('\\');
            out.push('n');
        } else if c == '\r' {
            out.push('\\');
            out.push('r');
        } else if c == '\t' {
            out.push('\\');
            out.push('t');
        } else {
            out.push(c);
        }
        proof {
            lemma_escape_snoc(s@.take(i as int), c);
            assert(s@.take(i + 1 as int) =~= s@.take(i as int).push(c));
            assert(out@ =~= old(out)@ + (escape(s@.take(i as int)) + esc_char(c)));
        }
        i = i + 1;
    }
    proof {
        assert(s@.take(n as int) =~= s@);
    }
}

/// Appends the wire text of the items of `arr` from position `j` on, led by
/// commas, and the closing bracket.
fn push_enc_more(out: &mut Vec<char>, arr: &Vec<String>, j: usize)
    requires
        1 <= j <= arr@.len(),
    ensures
        final(out)@ == old(out)@ + enc_more(arr.deep_view().skip(j as int)),
    decreases arr@.len() - j,
{
    if j == arr.len() {
        out.push(']');
        proof {
            assert(arr.deep_view().skip(j as int) =~= Seq::<Seq<char>>::empty());
            assert(old(out)@ + seq![']'] =~= out@);
        }
    } else {
        let ghost items = arr.deep_view().skip(j as int);
        out.push(',');
        out.push('"');
        push_escaped(out, arr[j].as_str());
        out.push('"');
        push_enc_more(out, arr, j + 1);
        proof {
            assert(items[0] == arr.deep_view()[j as int]);
            assert(items.drop_first() =~= arr.deep_view().skip(j + 1 as int));
            assert(out@ =~= old(out)@ + (seq![','] + seq!['"'] + escape(items[0]) + seq!['"']
                + enc_more(items.drop_first())));
        }
    }
}

/// Appends the wire text of the whole array body of `arr` (everything after
/// the opening bracket).
fn push_enc_items(out: &mut Vec<char>, arr: &Vec<String>)
    ensures
        final(out)@ == old(out)@ + enc_items(arr.deep_view()),
{
    if arr.len() == 0 {
        out.push(']');
        proof {
            assert(arr.deep_view().len() == 0);
            assert(old(out)@ + seq![']'] =~= out@);
        }
    } else {
        out.push('"');
        push_escaped(out, arr[0].as_str());
        out.push('"');
        push_enc_more(out, arr, 1);
        proof {
            assert(arr.deep_view()[0] == arr@[0]@);
            assert(arr.deep_view().drop_first() =~= arr.deep_view().skip(1));
            assert(out@ =~= old(out)@ + (seq!['"'] + escape(arr.deep_view()[0]) + seq!['"']
                + enc_more(arr.deep_view().drop_first())));
        }
    }
}

/// Encodes an envelope into its canonical wire text.
pub fn encode_envelope(e: &Envelope) -> (r: String)
    ensures
        r@ == enc_envelope(e@),
{
    let mut out: Vec<char> = Vec::new();
    push_str_chars(&mut out, "{\"messageType\":\"");
    match e.message_type {
        MsgTypes::Users => push_escaped(&mut out, "users"),
        MsgTypes::Register => push_escaped(&mut out, "register"),
        MsgTypes::Message => push_escaped(&mut out, "message"),
    }
    out.push('"');
    push_str_chars(&mut out, ",\"dataArray\":");
    match &e.data_array {
        None => {
            push_str_chars(&mut out, "null");
            proof {
                assert(enc_opt_arr(e@.data_array) == "null"@);
            }
        },
        Some(arr) => {
            out.push('[');
            push_enc_items(&mut out, arr);
            proof {
                assert(enc_opt_arr(e@.data_array) =~= seq!['['] + enc_items(arr.deep_view()));
            }
        },
    }
    push_str_chars(&mut out, ",\"data\":");
    match &e.data {
        None => {
            push_str_chars(&mut out, "null");
            proof {
                assert(enc_opt_str(e@.data) == "null"@);
            }
        },
        Some(d) => {
            out.push('"');
            push_escaped(&mut out, d.as_str());
            out.push('"');
            proof {
                assert(enc_opt_str(e@.data) =~= seq!['"'] + escape(d@) + seq!['"']);
            }
        },
    }
    out.push('}');
    proof {
        assert(out@ =~= enc_envelope(e@));
    }
    chars_to_string(&out)
}

/// Encodes a chat message into the canonical wire text carried by the
/// `data` payload of a `Message` frame.
pub fn encode_chat_message(m: &ChatMessage) -> (r: String)
    ensures
        r@ == enc_msg(m@),
{
    let mut out: Vec<char> = Vec::new();
    push_str_chars(&mut out, "{\"from\":\"");
    push_escaped(&mut out, m.from.as_str());
    out.push('"');
    push_str_chars(&mut out, ",\"message\":\"");
    push_escaped(&mut out, m.message.as_str());
    out.push('"');
    out.push('}');
    proof {
        assert(out@ =~= enc_msg(m@));
    }
    chars_to_string(&out)
}

// ---------------------------------------------------------------------------
// Reading wire text
// ---------------------------------------------------------------------------

spec fn with_prefix(p: Seq<char>, o: Option<(Seq<char>, Seq<char>)>) -> Option<
    (Seq<char>, Seq<char>),
> {
    match o {
        Some(q) => Some((p + q.0, q.1)),
        None => None,
    }
}

spec fn with_items(p: Seq<Seq<char>>, o: Option<(Seq<Seq<char>>, Seq<char>)>) -> Option<
    (Seq<Seq<char>>, Seq<char>),
> {
    match o {
        Some(q) => Some((p + q.0, q.1)),
        None => None,
    }
}

/// Checks that `lit` stands in `s` at position `i`; on success returns the
/// position right after it.
fn match_lit(s: &str, i: usize, lit: &str) -> (r: Option<usize>)
    requires
        i <= s@.len(),
    ensures
        match r {
            Some(j) => starts_with(s@.skip(i as int), lit@) && j == i + lit@.len() && j <= s@.len(),
            None => !starts_with(s@.skip(i as int), lit@),
        },
{
    let n = s.unicode_len();
    let m = lit.unicode_len();
    if m > n - i {
        return None;
    }
    let mut k: usize = 0;
    while k < m
        invariant
            0 <= k <= m,
            m == lit@.len(),
            n == s@.len(),
            i + m <= n,
            forall|t: int| 0 <= t < k ==> s@[i + t] == lit@[t],
        decreases m - k,
    {
        if s.get_char(i + k) != lit.get_char(k) {
            proof {
                if starts_with(s@.skip(i as int), lit@) {
                    assert(s@.skip(i as int).take(m as int)[k as int] == lit@[k as int]);
                    assert(s@.skip(i as int)[k as int] == s@[i + k]);
                }
            }
            return None;
        }
        k = k + 1;
    }
    proof {
        assert(s@.skip(i as int).take(m as int) =~= lit@);
    }
    Some(i + m)
}

/// True exactly when the characters of `v` spell `lit`.
fn chars_eq_lit(v: &Vec<char>, lit: &str) -> (r: bool)
    ensures
        r == (v@ == lit@),
{
    let m = lit.unicode_len();
    if v.len() != m {
        return false;
    }
    let mut k: usize = 0;
    while k < m
        invariant
            0 <= k <= m,
            m == lit@.len(),
            v@.len() == m,
            forall|t: int| 0 <= t < k ==> v@[t] == lit@[t],
        decreases m - k,
    {
        if v[k] != lit.get_char(k) {
            proof {
                if v@ == lit@ {
                    assert(v@[k as int] == lit@[k as int]);
                }
            }
            return false;
        }
        k = k + 1;
    }
    proof {
        assert(v@ =~= lit@);
    }
    true
}

/// Reads a quoted string body standing at position `i` of `s` (right after
/// the opening quote); on success returns its unescaped characters and the
/// position after the closing quote.
fn scan_str_body(s: &str, i: usize) -> (r: Option<(Vec<char>, usize)>)
    requires
        i <= s@.len(),
    ensures
        match r {
            Some(p) => parse_str_body(s@.skip(i as int)) == Some((p.0@, s@.skip(p.1 as int)))
                && i < p.1 <= s@.len(),
            None => parse_str_body(s@.skip(i as int)) is None,
        },
{
    let n = s.unicode_len();
    let mut acc: Vec<char> = Vec::new();
    let mut pos: usize = i;
    loop
        invariant
            i <= pos <= n,
            n == s@.len(),
            parse_str_body(s@.skip(i as int)) == with_prefix(
                acc@,
                parse_str_body(s@.skip(pos as int)),
            ),
        decreases n - pos,
    {
        if pos == n {
            proof {
                assert(s@.skip(pos as int) =~= Seq::<char>::empty());
            }
            return None;
        }
        let c = s.get_char(pos);
        let ghost u = s@.skip(pos as int);
        proof {
            assert(u[0] == c);
        }
        if c == '"' {
            proof {
                assert(u.drop_first() =~= s@.skip(pos + 1 as int));
                assert(acc@ + Seq::<char>::empty() =~= acc@);
            }
            return Some((acc, pos + 1));
        } else if c == '\\' {
            if pos + 1 == n {
                proof {
                    assert(u.len() == 1);
                }
                return None;
            }
            let c2 = s.get_char(pos + 1);
            proof {
                assert(u[1] == c2);
            }
            let uc: Option<char> = if c2 == '"' {
                Some('"')
            } else if c2 == '\\' {
                Some('\\')
            } else if c2 == 'n' {
                Some('\n')
            } else if c2 == 'r' {
                Some('\r')
            } else if c2 == 't' {
                Some('\t')
            } else {
                None
            };
            proof {
                assert(uc == unesc_char(c2));
            }
            match uc {
                None => {
                    return None;
                },
                Some(ch) => {
                    let ghost old_acc = acc@;
                    acc.push(ch);
                    proof {
                        assert(u.skip(2) =~= s@.skip(pos + 2 as int));
                        match parse_str_body(s@.skip(pos + 2 as int)) {
                            Some(p) => {
                                assert(parse_str_body(u) == Some((seq![ch] + p.0, p.1)));
                                assert(old_acc + (seq![ch] + p.0) =~= acc@ + p.0);
                            },
                            None => {
                                assert(parse_str_body(u) is None);
                            },
                        }
                    }
                    pos = pos + 2;
                },
            }
        } else {
            let ghost old_acc = acc@;
            acc.push(c);
            proof {
                assert(u.drop_first() =~= s@.skip(pos + 1 as int));
                match parse_str_body(s@.skip(pos + 1 as int)) {
                    Some(p) => {
                        assert(parse_str_body(u) == Some((seq![c] + p.0, p.1)));
                        assert(old_acc + (seq![c] + p.0) =~= acc@ + p.0);
                    },
                    None => {
                        assert(parse_str_body(u) is None);
                    },
                }
            }
            pos = pos + 1;
        }
    }
}

/// Reads an array of strings standing at position `i` of `s` (right after
/// the opening bracket); on success returns the items and the position after
/// the closing bracket.
fn scan_items(s: &str, i: usize) -> (r: Option<(Vec<String>, usize)>)
    requires
        i <= s@.len(),
    ensures
        match r {
            Some(p) => parse_items(s@.skip(i as int)) == Some(
                (p.0.deep_view(), s@.skip(p.1 as int)),
            ) && i < p.1 <= s@.len(),
            None => parse_items(s@.skip(i as int)) is None,
        },
{
    let n = s.unicode_len();
    if i == n {
        proof {
            assert(s@.skip(i as int) =~= Seq::<char>::empty());
        }
        return None;
    }
    let c0 = s.get_char(i);
    proof {
        assert(s@.skip(i as int)[0] == c0);
    }
    if c0 == ']' {
        let out: Vec<String> = Vec::new();
        proof {
            assert(out.deep_view() =~= Seq::<Seq<char>>::empty());
            assert(s@.skip(i as int).drop_first() =~= s@.skip(i + 1 as int));
        }
        return Some((out, i + 1));
    }
    if c0 != '"' {
        return None;
    }
    proof {
        assert(s@.skip(i as int).drop_first() =~= s@.skip(i + 1 as int));
    }
    let first = match scan_str_body(s, i + 1) {
        Some(p) => p,
        None => {
            return None;
        },
    };
    let mut out: Vec<String> = Vec::new();
    out.push(chars_to_string(&first.0));
    let mut pos: usize = first.1;
    proof {
        assert(out.deep_view() =~= seq![first.0@]);
        match parse_more(s@.skip(pos as int)) {
            Some(q) => {
                assert(parse_items(s@.skip(i as int)) == Some((seq![first.0@] + q.0, q.1)));
            },
            None => {
                assert(parse_items(s@.skip(i as int)) is None);
            },
        }
    }
    loop
        invariant
            i < pos <= n,
            n == s@.len(),
            parse_items(s@.skip(i as int)) == with_items(
                out.deep_view(),
                parse_more(s@.skip(pos as int)),
            ),
        decreases n - pos,
    {
        if pos == n {
            proof {
                assert(s@.skip(pos as int) =~= Seq::<char>::empty());
            }
            return None;
        }
        let c = s.get_char(pos);
        let ghost u = s@.skip(pos as int);
        proof {
            assert(u[0] == c);
        }
        if c == ']' {
            proof {
                assert(u.drop_first() =~= s@.skip(pos + 1 as int));
                assert(out.deep_view() + Seq::<Seq<char>>::empty() =~= out.deep_view());
            }
            return Some((out, pos + 1));
        }
        if c != ',' {
            return None;
        }
        if pos + 1 == n {
            proof {
                assert(u.len() == 1);
            }
            return None;
        }
        let c2 = s.get_char(pos + 1);
        proof {
            assert(u[1] == c2);
        }
        if c2 != '"' {
            return None;
        }
        proof {
            assert(u.skip(2) =~= s@.skip(pos + 2 as int));
        }
        let item = match scan_str_body(s, pos + 2) {
            Some(p) => p,
            None => {
                return None;
            },
        };
        let ghost old_out = out.deep_view();
        out.push(chars_to_string(&item.0));
        proof {
            assert(out.deep_view() =~= old_out.push(item.0@));
            match parse_more(s@.skip(item.1 as int)) {
                Some(q) => {
                    assert(parse_more(u) == Some((seq![item.0@] + q.0, q.1)));
                    assert(old_out + (seq![item.0@] + q.0) =~= out.deep_view() + q.0);
                },
                None => {
                    assert(parse_more(u) is None);
                },
            }
        }
        pos = item.1;
    }
}

/// Decodes the canonical wire text of an envelope, telling a malformed
/// frame apart from a well-shaped frame whose kind is not recognized.
#[verifier::rlimit(100)]
pub fn decode_envelope(s: &str) -> (r: Result<Envelope, DecodeError>)
    ensures
        match r {
            Ok(e) => spec_decode(s@) == Ok::<EnvelopeV, DecodeError>(e@),
            Err(er) => spec_decode(s@) == Err::<EnvelopeV, DecodeError>(er),
        },
{
    let n = s.unicode_len();
    proof {
        assert(s@.skip(0) =~= s@);
    }
    let j0 = match match_lit(s, 0, "{\"messageType\":\"") {
        Some(j) => j,
        None => {
            return Err(DecodeError::Malformed);
        },
    };
    let kindv = match scan_str_body(s, j0) {
        Some(p) => p,
        None => {
            return Err(DecodeError::Malformed);
        },
    };
    let j1 = match match_lit(s, kindv.1, ",\"dataArray\":") {
        Some(j) => j,
        None => {
            return Err(DecodeError::Malformed);
        },
    };
    proof {
        assert(s@.skip(kindv.1 as int).skip(",\"dataArray\":"@.len() as int) =~= s@.skip(
            j1 as int,
        ));
    }
    let arrj: (Option<Vec<String>>, usize) = match match_lit(s, j1, "null") {
        Some(j) => {
            proof {
                assert(s@.skip(j1 as int).skip("null"@.len() as int) =~= s@.skip(j as int));
            }
            (None, j)
        },
        None => {
            if j1 < n && s.get_char(j1) == '[' {
                proof {
                    assert(s@.skip(j1 as int)[0] == '[');
                    assert(s@.skip(j1 as int).drop_first() =~= s@.skip(j1 + 1 as int));
                }
                match scan_items(s, j1 + 1) {
                    Some(p) => (Some(p.0), p.1),
                    None => {
                        return Err(DecodeError::Malformed);
                    },
                }
            } else {
                proof {
                    if j1 == n {
                        assert(s@.skip(j1 as int) =~= Seq::<char>::empty());
                    } else {
                        assert(s@.skip(j1 as int)[0] == s@[j1 as int]);
                    }
                }
                return Err(DecodeError::Malformed);
            }
        },
    };
    let j2 = match match_lit(s, arrj.1, ",\"data\":") {
        Some(j) => j,
        None => {
            return Err(DecodeError::Malformed);
        },
    };
    proof {
        assert(s@.skip(arrj.1 as int).skip(",\"data\":"@.len() as int) =~= s@.skip(j2 as int));
    }
    let datj: (Option<String>, usize) = match match_lit(s, j2, "null") {
        Some(j) => {
            proof {
                assert(s@.skip(j2 as int).skip("null"@.len() as int) =~= s@.skip(j as int));
            }
            (None, j)
        },
        None => {
            if j2 < n && s.get_char(j2) == '"' {
                proof {
                    assert(s@.skip(j2 as int)[0] == '"');
                    assert(s@.skip(j2 as int).drop_first() =~= s@.skip(j2 + 1 as int));
                }
                match scan_str_body(s, j2 + 1) {
                    Some(p) => (Some(chars_to_string(&p.0)), p.1),
                    None => {
                        return Err(DecodeError::Malformed);
                    },
                }
            } else {
                proof {
                    if j2 == n {
                        assert(s@.skip(j2 as int) =~= Seq::<char>::empty());
                    } else {
                        assert(s@.skip(j2 as int)[0] == s@[j2 as int]);
                    }
                }
                return Err(DecodeError::Malformed);
            }
        },
    };
    let j3 = datj.1;
    if !(j3 < n && j3 + 1 == n && s.get_char(j3) == '}') {
        proof {
            if j3 == n {
                assert(s@.skip(j3 as int) =~= Seq::<char>::empty());
                assert(!(s@.skip(j3 as int) =~= seq!['}']));
            } else if j3 + 1 != n {
                assert(s@.skip(j3 as int).len() >= 2);
                assert(!(s@.skip(j3 as int) =~= seq!['}']));
            } else {
                assert(s@.skip(j3 as int)[0] == s@[j3 as int]);
                assert(!(s@.skip(j3 as int) =~= seq!['}']));
            }
        }
        return Err(DecodeError::Malformed);
    }
    proof {
        assert(s@.skip(j3 as int) =~= seq!['}']);
    }
    let t: Option<MsgTypes> = if chars_eq_lit(&kindv.0, "users") {
        Some(MsgTypes::Users)
    } else if chars_eq_lit(&kindv.0, "register") {
        Some(MsgTypes::Register)
    } else if chars_eq_lit(&kindv.0, "message") {
        Some(MsgTypes::Message)
    } else {
        None
    };
    proof {
        assert(t == kind_of(kindv.0@));
    }
    match t {
        None => Err(DecodeError::UnknownKind),
        Some(mt) => Ok(Envelope { message_type: mt, data_array: arrj.0, data: datj.0 }),
    }
}

/// Decodes the canonical wire text of a chat-message payload.
pub fn decode_chat_message(s: &str) -> (r: Option<ChatMessage>)
    ensures
        match r {
            Some(m) => spec_decode_msg(s@) == Some(m@),
            None => spec_decode_msg(s@) is None,
        },
{
    let n = s.unicode_len();
    proof {
        assert(s@.skip(0) =~= s@);
    }
    let j0 = match match_lit(s, 0, "{\"from\":\"") {
        Some(j) => j,
        None => {
            return None;
        },
    };
    let fromv = match scan_str_body(s, j0) {
        Some(p) => p,
        None => {
            return None;
        },
    };
    let j1 = match match_lit(s, fromv.1, ",\"message\":\"") {
        Some(j) => j,
        None => {
            return None;
        },
    };
    proof {
        assert(s@.skip(fromv.1 as int).skip(",\"message\":\""@.len() as int) =~= s@.skip(
            j1 as int,
        ));
    }
    let msgv = match scan_str_body(s, j1) {
        Some(p) => p,
        None => {
            return None;
        },
    };
    let j2 = msgv.1;
    if !(j2 < n && j2 + 1 == n && s.get_char(j2) == '}') {
        proof {
            if j2 == n {
                assert(s@.skip(j2 as int) =~= Seq::<char>::empty());
                assert(!(s@.skip(j2 as int) =~= seq!['}']));
            } else if j2 + 1 != n {
                assert(s@.skip(j2 as int).len() >= 2);
                assert(!(s@.skip(j2 as int) =~= seq!['}']));
            } else {
                assert(s@.skip(j2 as int)[0] == s@[j2 as int]);
                assert(!(s@.skip(j2 as int) =~= seq!['}']));
            }
        }
        return None;
    }
    proof {
        assert(s@.skip(j2 as int) =~= seq!['}']);
    }
    Some(ChatMessage { from: chars_to_string(&fromv.0), message: chars_to_string(&msgv.0) })
}

} // verus!
