//! The protocol's messages and their wire frames.
//!
//! On the wire a message is a Cap'n Proto struct whose union discriminant says
//! which kind of message it is and whose pointer fields hold the message's byte
//! strings, in the order of the fields below. A [`Frame`] is that struct as
//! plain values: the discriminant and each pointer field, `None` for a null
//! pointer. Reading a null or absent pointer gives the empty byte string, as
//! Cap'n Proto does for a `Data` field, except for the optional nonce, where it
//! means that there is none.
use vstd::prelude::*;
use crate::bytes::copy_bytes;

verus! {

/// Discriminant of a `Register` message.
pub const REGISTER: u16 = 0;
/// Discriminant of a `Send` message.
pub const SEND: u16 = 1;
/// Discriminant of a `Relay` message.
pub const RELAY: u16 = 2;
/// Discriminant of a `Join` message.
pub const JOIN: u16 = 3;
/// Discriminant of a `Part` message.
pub const PART: u16 = 4;
/// Discriminant of a `Response` message.
pub const RESPONSE: u16 = 5;
/// Discriminant of a `Whois` message.
pub const WHOIS: u16 = 6;
/// Discriminant of a `Theyare` message.
pub const THEYARE: u16 = 7;

/// A protocol message.
#[derive(Debug, PartialEq, Eq)]
pub enum Message {
    /// A client claims a name and announces its public key.
    Register { name: Vec<u8>, pubkey: Vec<u8> },
    /// A client sends a body to a user or a channel; `nonce` is present when
    /// the body is encrypted.
    Send { dest: Vec<u8>, body: Vec<u8>, nonce: Option<Vec<u8>> },
    /// The server hands a body from `source` to `dest`.
    Relay { source: Vec<u8>, dest: Vec<u8>, body: Vec<u8>, nonce: Option<Vec<u8>> },
    /// A client joins a channel.
    Join { channel: Vec<u8> },
    /// A client leaves a channel.
    Part { channel: Vec<u8> },
    /// A notice from the server.
    Response { body: Vec<u8> },
    /// A client asks for the public key of a user.
    Whois { name: Vec<u8> },
    /// The public key of a user.
    Theyare { name: Vec<u8>, pubkey: Vec<u8> },
}

/// A message as mathematical values.
pub enum MessageView {
    Register { name: Seq<u8>, pubkey: Seq<u8> },
    Send { dest: Seq<u8>, body: Seq<u8>, nonce: Option<Seq<u8>> },
    Relay { source: Seq<u8>, dest: Seq<u8>, body: Seq<u8>, nonce: Option<Seq<u8>> },
    Join { channel: Seq<u8> },
    Part { channel: Seq<u8> },
    Response { body: Seq<u8> },
    Whois { name: Seq<u8> },
    Theyare { name: Seq<u8>, pubkey: Seq<u8> },
}

/// The view of an optional byte vector.
pub open spec fn opt_view(o: Option<Vec<u8>>) -> Option<Seq<u8>> {
    match o {
        Some(v) => Some(v@),
        None => None,
    }
}

/// The view of an optional byte slice.
pub open spec fn slice_opt_view(o: Option<&[u8]>) -> Option<Seq<u8>> {
    match o {
        Some(v) => Some(v@),
        None => None,
    }
}

impl View for Message {
    type V = MessageView;

    open spec fn view(&self) -> MessageView {
        match self {
            Message::Register { name, pubkey } => MessageView::Register {
                name: name@,
                pubkey: pubkey@,
            },
            Message::Send { dest, body, nonce } => MessageView::Send {
                dest: dest@,
                body: body@,
                nonce: opt_view(*nonce),
            },
            Message::Relay { source, dest, body, nonce } => MessageView::Relay {
                source: source@,
                dest: dest@,
                body: body@,
                nonce: opt_view(*nonce),
            },
            Message::Join { channel } => MessageView::Join { channel: channel@ },
            Message::Part { channel } => MessageView::Part { channel: channel@ },
            Message::Response { body } => MessageView::Response { body: body@ },
            Message::Whois { name } => MessageView::Whois { name: name@ },
            Message::Theyare { name, pubkey } => MessageView::Theyare {
                name: name@,
                pubkey: pubkey@,
            },
        }
    }
}

/// The root struct of a message on the wire: the union discriminant and the
/// pointer fields, `None` standing for a null pointer.
#[derive(Debug, PartialEq, Eq)]
pub struct Frame {
    pub which: u16,
    pub fields: Vec<Option<Vec<u8>>>,
}

/// A frame as mathematical values.
pub struct FrameView {
    pub which: u16,
    pub fields: Seq<Option<Seq<u8>>>,
}

impl View for Frame {
    type V = FrameView;

    open spec fn view(&self) -> FrameView {
        FrameView { which: self.which, fields: self.fields@.map_values(|o: Option<Vec<u8>>| opt_view(o)) }
    }
}

/// Why a frame is not a message.
#[derive(Debug, Clone, Copy, PartialEq, Eq)]
pub enum DecodeError {
    /// The discriminant names no kind of message of the schema.
    NotInSchema(u16),
}

/// Pointer field `i` of a frame, `None` when it is null or absent.
pub open spec fn spec_opt_field(f: FrameView, i: int) -> Option<Seq<u8>> {
    if 0 <= i < f.fields.len() {
        f.fields[i]
    } else {
        None
    }
}

/// Pointer field `i` of a frame read as data: empty when null or absent.
pub open spec fn spec_field(f: FrameView, i: int) -> Seq<u8> {
    match spec_opt_field(f, i) {
        Some(b) => b,
        None => Seq::empty(),
    }
}

/// The frame that carries a message.
pub open spec fn spec_serialize(m: MessageView) -> FrameView {
    match m {
        MessageView::Register { name, pubkey } => FrameView {
            which: REGISTER,
            fields: seq![Some(name), Some(pubkey)],
        },
        MessageView::Send { dest, body, nonce } => FrameView {
            which: SEND,
            fields: seq![Some(dest), Some(body), nonce],
        },
        MessageView::Relay { source, dest, body, nonce } => FrameView {
            which: RELAY,
            fields: seq![Some(source), Some(dest), Some(body), nonce],
        },
        MessageView::Join { channel } => FrameView { which: JOIN, fields: seq![Some(channel)] },
        MessageView::Part { channel } => FrameView { which: PART, fields: seq![Some(channel)] },
        MessageView::Response { body } => FrameView { which: RESPONSE, fields: seq![Some(body)] },
        MessageView::Whois { name } => FrameView { which: WHOIS, fields: seq![Some(name)] },
        MessageView::Theyare { name, pubkey } => FrameView {
            which: THEYARE,
            fields: seq![Some(name), Some(pubkey)],
        },
    }
}

/// The message that a frame carries, or why it carries none.
pub open spec fn spec_deserialize(f: FrameView) -> Result<MessageView, DecodeError> {
    if f.which == REGISTER {
        Ok(MessageView::Register { name: spec_field(f, 0), pubkey: spec_field(f, 1) })
    } else if f.which == SEND {
        Ok(
            MessageView::Send {
                dest: spec_field(f, 0),
                body: spec_field(f, 1),
                nonce: spec_opt_field(f, 2),
            },
        )
    } else if f.which == RELAY {
        Ok(
            MessageView::Relay {
                source: spec_field(f, 0),
                dest: spec_field(f, 1),
                body: spec_field(f, 2),
                nonce: spec_opt_field(f, 3),
            },
        )
    } else if f.which == JOIN {
        Ok(MessageView::Join { channel: spec_field(f, 0) })
    } else if f.which == PART {
        Ok(MessageView::Part { channel: spec_field(f, 0) })
    } else if f.which == RESPONSE {
        Ok(MessageView::Response { body: spec_field(f, 0) })
    } else if f.which == WHOIS {
        Ok(MessageView::Whois { name: spec_field(f, 0) })
    } else if f.which == THEYARE {
        Ok(MessageView::Theyare { name: spec_field(f, 0), pubkey: spec_field(f, 1) })
    } else {
        Err(DecodeError::NotInSchema(f.which))
    }
}

/// Reading back the frame of a message gives the message.
pub proof fn lemma_deserialize_serialize(m: MessageView)
    ensures
        spec_deserialize(spec_serialize(m)) == Ok::<MessageView, DecodeError>(m),
{
}

/// A frame carries a message exactly when its discriminant is one of the
/// schema's; two messages with the same frame are the same message.
pub proof fn lemma_serialize_injective(m1: MessageView, m2: MessageView)
    ensures
        spec_serialize(m1) == spec_serialize(m2) ==> m1 == m2,
        spec_serialize(m1).which <= THEYARE,
{
    lemma_deserialize_serialize(m1);
    lemma_deserialize_serialize(m2);
}

fn some_copy(b: &[u8]) -> (r: Option<Vec<u8>>)
    ensures
        opt_view(r) == Some(b@),
{
    Some(copy_bytes(b))
}

fn opt_copy(b: Option<&[u8]>) -> (r: Option<Vec<u8>>)
    ensures
        opt_view(r) == slice_opt_view(b),
{
    match b {
        Some(x) => Some(copy_bytes(x)),
        None => None,
    }
}

fn frame_of(which: u16, fields: Vec<Option<Vec<u8>>>) -> (r: Frame)
    ensures
        r@.which == which,
        r@.fields == fields@.map_values(|o: Option<Vec<u8>>| opt_view(o)),
{
    Frame { which, fields }
}

/// The frame of a `Register` message.
pub fn serialize_register(name: &[u8], pubkey: &[u8]) -> (r: Frame)
    ensures
        r@ == spec_serialize(MessageView::Register { name: name@, pubkey: pubkey@ }),
{
    let fields = vec![some_copy(name), some_copy(pubkey)];
    let r = frame_of(REGISTER, fields);
    assert(r@.fields =~= seq![Some(name@), Some(pubkey@)]);
    r
}

/// The frame of a `Send` message.
pub fn serialize_send(dest: &[u8], body: &[u8], nonce: Option<&[u8]>) -> (r: Frame)
    ensures
        r@ == spec_serialize(
            MessageView::Send {
                dest: dest@,
                body: body@,
                nonce: slice_opt_view(nonce),
            },
        ),
{
    let fields = vec![some_copy(dest), some_copy(body), opt_copy(nonce)];
    let r = frame_of(SEND, fields);
    assert(r@.fields =~= seq![
        Some(dest@),
        Some(body@),
        slice_opt_view(nonce),
    ]);
    r
}

/// The frame of a `Relay` message.
pub fn serialize_relay(source: &[u8], dest: &[u8], body: &[u8], nonce: Option<&[u8]>) -> (r:
    Frame)
    ensures
        r@ == spec_serialize(
            MessageView::Relay {
                source: source@,
                dest: dest@,
                body: body@,
                nonce: slice_opt_view(nonce),
            },
        ),
{
    let fields = vec![some_copy(source), some_copy(dest), some_copy(body), opt_copy(nonce)];
    let r = frame_of(RELAY, fields);
    assert(r@.fields =~= seq![
        Some(source@),
        Some(dest@),
        Some(body@),
        slice_opt_view(nonce),
    ]);
    r
}

/// The frame of a `Join` message.
pub fn serialize_join(channel: &[u8]) -> (r: Frame)
    ensures
        r@ == spec_serialize(MessageView::Join { channel: channel@ }),
{
    let fields = vec![some_copy(channel)];
    let r = frame_of(JOIN, fields);
    assert(r@.fields =~= seq![Some(channel@)]);
    r
}

/// The frame of a `Part` message.
pub fn serialize_part(channel: &[u8]) -> (r: Frame)
    ensures
        r@ == spec_serialize(MessageView::Part { channel: channel@ }),
{
    let fields = vec![some_copy(channel)];
    let r = frame_of(PART, fields);
    assert(r@.fields =~= seq![Some(channel@)]);
    r
}

/// The frame of a `Response` message.
pub fn serialize_response(body: &[u8]) -> (r: Frame)
    ensures
        r@ == spec_serialize(MessageView::Response { body: body@ }),
{
    let fields = vec![some_copy(body)];
    let r = frame_of(RESPONSE, fields);
    assert(r@.fields =~= seq![Some(body@)]);
    r
}

/// The frame of a `Whois` message.
pub fn serialize_whois(name: &[u8]) -> (r: Frame)
    ensures
        r@ == spec_serialize(MessageView::Whois { name: name@ }),
{
    let fields = vec![some_copy(name)];
    let r = frame_of(WHOIS, fields);
    assert(r@.fields =~= seq![Some(name@)]);
    r
}

/// The frame of a `Theyare` message.
pub fn serialize_theyare(name: &[u8], pubkey: &[u8]) -> (r: Frame)
    ensures
        r@ == spec_serialize(MessageView::Theyare { name: name@, pubkey: pubkey@ }),
{
    let fields = vec![some_copy(name), some_copy(pubkey)];
    let r = frame_of(THEYARE, fields);
    assert(r@.fields =~= seq![Some(name@), Some(pubkey@)]);
    r
}

fn as_opt_slice(o: &Option<Vec<u8>>) -> (r: Option<&[u8]>)
    ensures
        slice_opt_view(r) == opt_view(*o),
{
    match o {
        Some(v) => Some(v.as_slice()),
        None => None,
    }
}

/// The frame of a message.
pub fn serialize(msg: &Message) -> (r: Frame)
    ensures
        r@ == spec_serialize(msg@),
{
    match msg {
        Message::Register { name, pubkey } => serialize_register(name, pubkey),
        Message::Send { dest, body, nonce } => serialize_send(dest, body, as_opt_slice(nonce)),
        Message::Relay { source, dest, body, nonce } => serialize_relay(
            source,
            dest,
            body,
            as_opt_slice(nonce),
        ),
        Message::Join { channel } => serialize_join(channel),
        Message::Part { channel } => serialize_part(channel),
        Message::Response { body } => serialize_response(body),
        Message::Whois { name } => serialize_whois(name),
        Message::Theyare { name, pubkey } => serialize_theyare(name, pubkey),
    }
}

/// Pointer field `i` of a frame, `None` when null or absent.
fn opt_field(frame: &Frame, i: usize) -> (r: Option<Vec<u8>>)
    ensures
        opt_view(r) == spec_opt_field(frame@, i as int),
{
    if i < frame.fields.len() {
        match &frame.fields[i] {
            Some(b) => Some(copy_bytes(b.as_slice())),
            None => None,
        }
    } else {
        None
    }
}

/// Pointer field `i` of a frame read as data.
fn field(frame: &Frame, i: usize) -> (r: Vec<u8>)
    ensures
        r@ == spec_field(frame@, i as int),
{
    match opt_field(frame, i) {
        Some(b) => b,
        None => Vec::new(),
    }
}

/// Reads a frame as a `Register` message.
pub fn deserialize_register(frame: &Frame) -> (r: Message)
    ensures
        r@ == (MessageView::Register { name: spec_field(frame@, 0), pubkey: spec_field(frame@, 1) }),
{
    Message::Register { name: field(frame, 0), pubkey: field(frame, 1) }
}

/// Reads a frame as a `Send` message.
pub fn deserialize_send(frame: &Frame) -> (r: Message)
    ensures
        r@ == (MessageView::Send {
            dest: spec_field(frame@, 0),
            body: spec_field(frame@, 1),
            nonce: spec_opt_field(frame@, 2),
        }),
{
    Message::Send { dest: field(frame, 0), body: field(frame, 1), nonce: opt_field(frame, 2) }
}

/// Reads a frame as a `Relay` message.
pub fn deserialize_relay(frame: &Frame) -> (r: Message)
    ensures
        r@ == (MessageView::Relay {
            source: spec_field(frame@, 0),
            dest: spec_field(frame@, 1),
            body: spec_field(frame@, 2),
            nonce: spec_opt_field(frame@, 3),
        }),
{
    Message::Relay {
        source: field(frame, 0),
        dest: field(frame, 1),
        body: field(frame, 2),
        nonce: opt_field(frame, 3),
    }
}

/// Reads a frame as a `Join` message.
pub fn deserialize_join(frame: &Frame) -> (r: Message)
    ensures
        r@ == (MessageView::Join { channel: spec_field(frame@, 0) }),
{
    Message::Join { channel: field(frame, 0) }
}

/// Reads a frame as a `Part` message.
pub fn deserialize_part(frame: &Frame) -> (r: Message)
    ensures
        r@ == (MessageView::Part { channel: spec_field(frame@, 0) }),
{
    Message::Part { channel: field(frame, 0) }
}

/// Reads a frame as a `Response` message.
pub fn deserialize_response(frame: &Frame) -> (r: Message)
    ensures
        r@ == (MessageView::Response { body: spec_field(frame@, 0) }),
{
    Message::Response { body: field(frame, 0) }
}

/// Reads a frame as a `Whois` message.
pub fn deserialize_whois(frame: &Frame) -> (r: Message)
    ensures
        r@ == (MessageView::Whois { name: spec_field(frame@, 0) }),
{
    Message::Whois { name: field(frame, 0) }
}

/// Reads a frame as a `Theyare` message.
pub fn deserialize_theyare(frame: &Frame) -> (r: Message)
    ensures
        r@ == (MessageView::Theyare { name: spec_field(frame@, 0), pubkey: spec_field(frame@, 1) }),
{
    Message::Theyare { name: field(frame, 0), pubkey: field(frame, 1) }
}

/// The message that a frame carries, or why it carries none.
pub fn deserialize(frame: &Frame) -> (r: Result<Message, DecodeError>)
    ensures
        (match r {
            Ok(m) => Ok(m@),
            Err(e) => Err(e),
        }) == spec_deserialize(frame@),
{
    if frame.which == REGISTER {
        Ok(deserialize_register(frame))
    } else if frame.which == SEND {
        Ok(deserialize_send(frame))
    } else if frame.which == RELAY {
        Ok(deserialize_relay(frame))
    } else if frame.which == JOIN {
        Ok(deserialize_join(frame))
    } else if frame.which == PART {
        Ok(deserialize_part(frame))
    } else if frame.which == RESPONSE {
        Ok(deserialize_response(frame))
    } else if frame.which == WHOIS {
        Ok(deserialize_whois(frame))
    } else if frame.which == THEYARE {
        Ok(deserialize_theyare(frame))
    } else {
        Err(DecodeError::NotInSchema(frame.which))
    }
}

} // verus!
