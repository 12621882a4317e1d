use drp::framing::message_len;
use drp::util::{
    deserialize, deserialize_join, deserialize_register, deserialize_relay, deserialize_send, serialize,
    serialize_join, serialize_part, serialize_register, serialize_relay, serialize_response, serialize_send,
    serialize_theyare, serialize_whois, DecodeError, Frame, Message, JOIN, PART, REGISTER, RELAY, RESPONSE,
    SEND, THEYARE, WHOIS,
};

fn b(s: &str) -> Vec<u8> {
    s.as_bytes().to_vec()
}

fn all_messages() -> Vec<Message> {
    vec![
        Message::Register { name: b("alice"), pubkey: vec![1, 2, 3] },
        Message::Send { dest: b("bob"), body: b("hi"), nonce: None },
        Message::Send { dest: b("bob"), body: vec![0, 255], nonce: Some(vec![7; 24]) },
        Message::Relay { source: b("alice"), dest: b("#rust"), body: b("yo"), nonce: None },
        Message::Relay { source: b("alice"), dest: b("bob"), body: vec![9], nonce: Some(vec![1; 24]) },
        Message::Join { channel: b("#rust") },
        Message::Part { channel: b("#rust") },
        Message::Response { body: b("hello") },
        Message::Whois { name: b("bob") },
        Message::Theyare { name: b("bob"), pubkey: vec![5; 32] },
    ]
}

#[test]
fn every_message_reads_back_from_its_frame() {
    for m in all_messages() {
        let f = serialize(&m);
        assert_eq!(deserialize(&f), Ok(m));
    }
}

#[test]
fn frames_carry_the_discriminant_of_their_kind() {
    assert_eq!(serialize_register(b"a", b"k").which, REGISTER);
    assert_eq!(serialize_send(b"a", b"x", None).which, SEND);
    assert_eq!(serialize_relay(b"a", b"b", b"x", None).which, RELAY);
    assert_eq!(serialize_join(b"#c").which, JOIN);
    assert_eq!(serialize_part(b"#c").which, PART);
    assert_eq!(serialize_response(b"r").which, RESPONSE);
    assert_eq!(serialize_whois(b"bob").which, WHOIS);
    assert_eq!(serialize_theyare(b"bob", b"k").which, THEYARE);
}

#[test]
fn frame_fields_in_schema_order() {
    let f = serialize_relay(b"src", b"dst", b"body", Some(b"nonce"));
    assert_eq!(
        f,
        Frame {
            which: RELAY,
            fields: vec![Some(b("src")), Some(b("dst")), Some(b("body")), Some(b("nonce"))],
        }
    );
    let f = serialize_send(b"dst", b"body", None);
    assert_eq!(f, Frame { which: SEND, fields: vec![Some(b("dst")), Some(b("body")), None] });
    let f = serialize_register(b"alice", b"key");
    assert_eq!(f, Frame { which: REGISTER, fields: vec![Some(b("alice")), Some(b("key"))] });
}

#[test]
fn unknown_discriminant_is_refused() {
    let f = Frame { which: 8, fields: vec![] };
    assert_eq!(deserialize(&f), Err(DecodeError::NotInSchema(8)));
    let f = Frame { which: 65535, fields: vec![Some(b("x"))] };
    assert_eq!(deserialize(&f), Err(DecodeError::NotInSchema(65535)));
}

#[test]
fn missing_fields_read_as_empty() {
    let f = Frame { which: REGISTER, fields: vec![] };
    assert_eq!(deserialize_register(&f), Message::Register { name: vec![], pubkey: vec![] });
    let f = Frame { which: SEND, fields: vec![None, Some(b("x"))] };
    assert_eq!(deserialize_send(&f), Message::Send { dest: vec![], body: b("x"), nonce: None });
    let f = Frame { which: RELAY, fields: vec![Some(b("a")), Some(b("b")), Some(b("c"))] };
    assert_eq!(
        deserialize_relay(&f),
        Message::Relay { source: b("a"), dest: b("b"), body: b("c"), nonce: None }
    );
    let f = Frame { which: JOIN, fields: vec![None] };
    assert_eq!(deserialize_join(&f), Message::Join { channel: vec![] });
}

#[test]
fn message_boundaries_on_a_stream() {
    // one segment of two words: header of 8 bytes, then 16 bytes
    let mut msg = vec![0, 0, 0, 0, 2, 0, 0, 0];
    msg.extend_from_slice(&[7u8; 16]);
    assert_eq!(message_len(&msg), Some(24));
    assert_eq!(message_len(&msg[..23]), None);
    assert_eq!(message_len(&msg[..3]), None);
    let mut two = msg.clone();
    two.extend_from_slice(&msg);
    assert_eq!(message_len(&two), Some(24));
    // two segments of one word each: 4 + 8 = 12 bytes of table, padded to 16
    let mut m2 = vec![1, 0, 0, 0, 1, 0, 0, 0, 1, 0, 0, 0, 0, 0, 0, 0];
    m2.extend_from_slice(&[9u8; 16]);
    assert_eq!(message_len(&m2), Some(32));
    // a table claiming more segments than have come
    assert_eq!(message_len(&[255, 255, 255, 255, 0, 0, 0, 0]), None);
    // sizes that add up past what has come
    assert_eq!(message_len(&[0, 0, 0, 0, 255, 255, 255, 255]), None);
}
