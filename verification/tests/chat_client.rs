use drp::client::{Client, ClientAction, ClientFault};
use drp::crypto::{MACBYTES, NONCEBYTES};
use drp::event::{Events, LoopStep};
use drp::server::Server;
use drp::util::{serialize, DecodeError, Frame, Message};
use sodiumoxide::crypto::box_;

fn b(s: &str) -> Vec<u8> {
    s.as_bytes().to_vec()
}

fn keypair() -> (Vec<u8>, Vec<u8>) {
    let (pk, sk) = box_::gen_keypair();
    (pk.0.to_vec(), sk.0.to_vec())
}

fn hex(bytes: &[u8]) -> String {
    bytes.iter().map(|x| format!("{:02x}", x)).collect()
}

fn theyare(name: &str, pk: &[u8]) -> Frame {
    serialize(&Message::Theyare { name: b(name), pubkey: pk.to_vec() })
}

#[test]
fn learning_a_key_shows_it_in_hex() {
    let (_, sk) = keypair();
    let (pk_b, _) = keypair();
    let mut c = Client::new(&sk);
    assert!(!c.knows(b"bob"));
    let acts = c.netinput(&theyare("bob", &pk_b));
    let mut line = b("-!- Key for bob:\n");
    line.extend_from_slice(hex(&pk_b).as_bytes());
    assert_eq!(acts, vec![ClientAction::Print(line)]);
    assert!(c.knows(b"bob"));
}

#[test]
fn key_of_wrong_length_stops_the_client() {
    let (_, sk) = keypair();
    let mut c = Client::new(&sk);
    let acts = c.netinput(&theyare("bob", &[1, 2, 3]));
    assert_eq!(acts, vec![ClientAction::Abort(ClientFault::BadKey)]);
    assert!(!c.knows(b"bob"));
}

#[test]
fn plain_send_without_a_key() {
    let (_, sk) = keypair();
    let c = Client::new(&sk);
    assert_eq!(
        c.send_msg(b"bob", b"hi"),
        vec![ClientAction::Send(Message::Send { dest: b("bob"), body: b("hi"), nonce: None })]
    );
}

#[test]
fn encrypted_message_arrives_as_written() {
    let (pk_a, sk_a) = keypair();
    let (pk_b, sk_b) = keypair();
    let mut alice = Client::new(&sk_a);
    let mut bob = Client::new(&sk_b);
    alice.netinput(&theyare("bob", &pk_b));
    bob.netinput(&theyare("alice", &pk_a));

    let acts = alice.send_msg(b"bob", b"secret words");
    assert_eq!(acts.len(), 2);
    assert_eq!(acts[0], ClientAction::Print(b("Sending encrypted message...")));
    let (body, nonce) = match &acts[1] {
        ClientAction::Send(Message::Send { dest, body, nonce: Some(n) }) => {
            assert_eq!(dest, &b("bob"));
            (body.clone(), n.clone())
        },
        other => panic!("unexpected action {:?}", other),
    };
    assert_eq!(nonce.len(), NONCEBYTES);
    assert_eq!(body.len(), b"secret words".len() + MACBYTES);
    assert_ne!(&body[..12], b"secret words");

    let relay = Message::Relay { source: b("alice"), dest: b("bob"), body, nonce: Some(nonce) };
    let shown = bob.netinput(&serialize(&relay));
    assert_eq!(
        shown,
        vec![ClientAction::Print(b("Decrypting...")), ClientAction::Print(b("<alice> bob: secret words"))]
    );
}

#[test]
fn tampered_ciphertext_is_refused() {
    let (pk_a, sk_a) = keypair();
    let (pk_b, sk_b) = keypair();
    let mut alice = Client::new(&sk_a);
    let mut bob = Client::new(&sk_b);
    alice.netinput(&theyare("bob", &pk_b));
    bob.netinput(&theyare("alice", &pk_a));
    let acts = alice.send_msg(b"bob", b"x");
    let (mut body, nonce) = match &acts[1] {
        ClientAction::Send(Message::Send { body, nonce: Some(n), .. }) => (body.clone(), n.clone()),
        other => panic!("unexpected action {:?}", other),
    };
    body[0] ^= 1;
    let relay = Message::Relay { source: b("alice"), dest: b("bob"), body, nonce: Some(nonce) };
    assert_eq!(
        bob.netinput(&serialize(&relay)),
        vec![ClientAction::Print(b("Decrypting...")), ClientAction::Abort(ClientFault::DecryptFailed)]
    );
}

#[test]
fn encrypted_relay_from_unknown_sender_or_with_bad_nonce() {
    let (pk_a, _) = keypair();
    let (_, sk_b) = keypair();
    let mut bob = Client::new(&sk_b);
    let relay = Message::Relay { source: b("alice"), dest: b("bob"), body: vec![0; 20], nonce: Some(vec![0; 24]) };
    assert_eq!(
        bob.netinput(&serialize(&relay)),
        vec![ClientAction::Print(b("Decrypting...")), ClientAction::Abort(ClientFault::UnknownKey)]
    );
    bob.netinput(&theyare("alice", &pk_a));
    let relay = Message::Relay { source: b("alice"), dest: b("bob"), body: vec![0; 20], nonce: Some(vec![0; 5]) };
    assert_eq!(
        bob.netinput(&serialize(&relay)),
        vec![ClientAction::Print(b("Decrypting...")), ClientAction::Abort(ClientFault::BadNonce)]
    );
}

#[test]
fn plain_relay_and_notice_are_shown() {
    let (_, sk) = keypair();
    let mut c = Client::new(&sk);
    let relay = Message::Relay { source: b("alice"), dest: b("#c"), body: b("hey"), nonce: None };
    assert_eq!(c.netinput(&serialize(&relay)), vec![ClientAction::Print(b("<alice> #c: hey"))]);
    let notice = Message::Response { body: b("they don't exist") };
    assert_eq!(c.netinput(&serialize(&notice)), vec![ClientAction::Print(b("-!- they don't exist"))]);
    let other = Message::Join { channel: b("#c") };
    assert_eq!(c.netinput(&serialize(&other)), vec![]);
    let bad = Frame { which: 42, fields: vec![] };
    assert_eq!(c.netinput(&bad), vec![ClientAction::Abort(ClientFault::Decode(DecodeError::NotInSchema(42)))]);
}

#[test]
fn typed_commands() {
    let (_, sk) = keypair();
    let c = Client::new(&sk);
    assert_eq!(
        c.process_line(b"/join #rust"),
        vec![ClientAction::Print(b("Joining #rust")), ClientAction::Send(Message::Join { channel: b("#rust") })]
    );
    assert_eq!(
        c.process_line(b"/p #rust"),
        vec![ClientAction::Print(b("Leaving #rust")), ClientAction::Send(Message::Part { channel: b("#rust") })]
    );
    assert_eq!(
        c.process_line(b"/w bob"),
        vec![ClientAction::Log(b("Whois Sent.")), ClientAction::Send(Message::Whois { name: b("bob") })]
    );
    assert_eq!(
        c.process_line(b"/msg bob hello there"),
        vec![
            ClientAction::Log(b("Message Sent.")),
            ClientAction::Send(Message::Send { dest: b("bob"), body: b("hello there"), nonce: None }),
        ]
    );
    assert_eq!(
        c.process_line(b"/send bob"),
        vec![ClientAction::Log(b("Message Sent.")), ClientAction::Abort(ClientFault::MissingArgument)]
    );
    assert_eq!(
        c.process_line(b"bob hello there"),
        vec![
            ClientAction::Print(b("Sending message to bob")),
            ClientAction::Send(Message::Send { dest: b("bob"), body: b("hello there"), nonce: None }),
        ]
    );
    assert_eq!(c.process_line(b"/join"), vec![ClientAction::Abort(ClientFault::MissingArgument)]);
    assert_eq!(
        c.process_line(b"bob hello"),
        vec![
            ClientAction::Print(b("Sending message to bob")),
            ClientAction::Send(Message::Send { dest: b("bob"), body: b("hello"), nonce: None }),
        ]
    );
}

#[test]
fn typed_text_runs_line_by_line() {
    let (_, sk) = keypair();
    let c = Client::new(&sk);
    assert_eq!(
        c.stdinput(b"/j #a\nunfinished"),
        vec![ClientAction::Print(b("Joining #a")), ClientAction::Send(Message::Join { channel: b("#a") })]
    );
    // the line is not reset at a line feed: a second line in the same read
    // runs on from the first
    assert_eq!(
        c.stdinput(b"/j #a\n/w bob\n"),
        vec![
            ClientAction::Print(b("Joining #a")),
            ClientAction::Send(Message::Join { channel: b("#a") }),
            ClientAction::Print(b("Joining #a/w")),
            ClientAction::Send(Message::Join { channel: b("#a/w") }),
        ]
    );
    // each read starts a new line
    assert_eq!(
        c.stdinput(b"/w bob\n"),
        vec![ClientAction::Log(b("Whois Sent.")), ClientAction::Send(Message::Whois { name: b("bob") })]
    );
    // a line that stops the client ends the run
    assert_eq!(c.stdinput(b"oops\n/j #a\n"), vec![ClientAction::Abort(ClientFault::MissingArgument)]);
}

#[test]
fn typed_bytes_that_are_not_utf8_are_cut() {
    let (_, sk) = keypair();
    let c = Client::new(&sk);
    assert_eq!(
        c.stdinput(b"/j #a\n\xff/j #b\n"),
        vec![
            ClientAction::Print(b("Joining #a")),
            ClientAction::Send(Message::Join { channel: b("#a") }),
            ClientAction::Print(b("-?- Wtf was that?")),
        ]
    );
}

#[test]
fn chat_client_event_steps() {
    let (_, sk) = keypair();
    let c = Client::new(&sk);
    let ev = |error, hup, writable, readable| Events { error, hup, writable, readable };
    assert_eq!(c.ready(0, ev(false, false, false, true)), vec![LoopStep::ReadStdin]);
    assert_eq!(c.ready(0, ev(false, true, false, false)), vec![LoopStep::Log(b("Event: stdin hup")), LoopStep::Shutdown]);
    assert_eq!(c.ready(0, ev(true, false, false, false)), vec![LoopStep::Log(b("Event: stdin error")), LoopStep::Shutdown]);
    assert_eq!(
        c.ready(1, ev(false, true, false, false)),
        vec![LoopStep::Print(b("Server closed connection, exiting...")), LoopStep::Shutdown]
    );
    assert_eq!(
        c.ready(1, ev(true, false, false, false)),
        vec![LoopStep::Log(b("Event: Unknown server error")), LoopStep::Shutdown]
    );
    assert_eq!(
        c.ready(1, ev(false, false, true, true)),
        vec![LoopStep::ReadNet(0), LoopStep::Log(b("Event: can write")), LoopStep::Flush]
    );
}

#[test]
fn whois_through_the_server_enables_encryption() {
    let (pk_a, sk_a) = keypair();
    let (pk_b, sk_b) = keypair();
    let mut server = Server::new();
    let ta = server.accept().unwrap();
    let tb = server.accept().unwrap();
    server.forward(ta, &serialize(&Message::Register { name: b("alice"), pubkey: pk_a.clone() })).unwrap();
    server.forward(tb, &serialize(&Message::Register { name: b("bob"), pubkey: pk_b.clone() })).unwrap();
    let mut alice = Client::new(&sk_a);
    let mut bob = Client::new(&sk_b);
    // alice types a whois; the server answers both sides
    let typed = alice.process_line(b"/w bob");
    let whois = match &typed[1] {
        ClientAction::Send(m) => serialize(m),
        other => panic!("unexpected action {:?}", other),
    };
    let deliveries = server.forward(ta, &whois).unwrap();
    assert_eq!(deliveries.len(), 2);
    for d in deliveries {
        let frame = serialize(&d.msg);
        if d.token == ta {
            alice.netinput(&frame);
        } else {
            bob.netinput(&frame);
        }
    }
    assert!(alice.knows(b"bob"));
    assert!(bob.knows(b"alice"));
    // alice's message to bob now travels encrypted and bob reads it
    let acts = alice.process_line(b"/m bob meet at noon");
    let sent = match &acts[2] {
        ClientAction::Send(m @ Message::Send { nonce: Some(_), .. }) => serialize(m),
        other => panic!("unexpected action {:?}", other),
    };
    let relayed = server.forward(ta, &sent).unwrap();
    assert_eq!(relayed.len(), 1);
    assert_eq!(relayed[0].token, tb);
    let shown = bob.netinput(&serialize(&relayed[0].msg));
    assert_eq!(shown[1], ClientAction::Print(b("<alice> bob: meet at noon")));
}
