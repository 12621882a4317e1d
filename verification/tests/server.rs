use drp::event::Events;
use drp::server::{Delivery, Server, ServerFault, Step};
use drp::util::{serialize, DecodeError, Frame, Message};

fn b(s: &str) -> Vec<u8> {
    s.as_bytes().to_vec()
}

fn response(token: usize, text: &str) -> Vec<Delivery> {
    vec![Delivery { token, msg: Message::Response { body: b(text) } }]
}

fn send(server: &mut Server, token: usize, m: Message) -> Result<Vec<Delivery>, ServerFault> {
    server.forward(token, &serialize(&m))
}

fn register(server: &mut Server, token: usize, name: &str, key: &str) -> Result<Vec<Delivery>, ServerFault> {
    send(server, token, Message::Register { name: b(name), pubkey: b(key) })
}

/// A server with alice on connection 2 and bob on connection 3, and an
/// unregistered connection 4.
fn two_users() -> Server {
    let mut s = Server::new();
    assert_eq!(s.accept(), Some(2));
    assert_eq!(s.accept(), Some(3));
    assert_eq!(s.accept(), Some(4));
    assert_eq!(register(&mut s, 2, "alice", "ka"), Ok(vec![]));
    assert_eq!(register(&mut s, 3, "bob", "kb"), Ok(vec![]));
    s
}

fn ev(error: bool, hup: bool, writable: bool, readable: bool) -> Events {
    Events { error, hup, writable, readable }
}

#[test]
fn new_server_listens_on_token_one() {
    let s = Server::new();
    assert_eq!(s.token(), 1);
    assert!(!s.is_connection(2));
}

#[test]
fn taken_name_is_refused() {
    let mut s = two_users();
    assert_eq!(register(&mut s, 4, "alice", "other"), Ok(response(4, "dude ur not them")));
    // the key of alice is unchanged
    let d = send(&mut s, 3, Message::Whois { name: b("alice") }).unwrap();
    assert_eq!(d[0], Delivery { token: 3, msg: Message::Theyare { name: b("alice"), pubkey: b("ka") } });
}

#[test]
fn names_that_are_no_usernames_are_refused() {
    let mut s = two_users();
    assert_eq!(register(&mut s, 4, "al", "k1"), Ok(response(4, "that name is not allowed")));
    let long = "x".repeat(33);
    assert_eq!(register(&mut s, 4, &long, "k1"), Ok(response(4, "that name is not allowed")));
    assert_eq!(register(&mut s, 4, "tab\tname", "k1"), Ok(response(4, "that name is not allowed")));
    assert_eq!(register(&mut s, 4, "\u{e9}t\u{e9}", "k1"), Ok(response(4, "that name is not allowed")));
    // still unregistered
    assert_eq!(send(&mut s, 4, Message::Join { channel: b("#c") }), Ok(response(4, "who ARE u!?!")));
    let longest = "y".repeat(32);
    assert_eq!(register(&mut s, 4, &longest, "k1"), Ok(vec![]));
}

#[test]
fn a_key_held_by_another_user_is_refused() {
    let mut s = two_users();
    assert_eq!(register(&mut s, 4, "carol", "ka"), Ok(response(4, "that key is taken")));
    assert_eq!(send(&mut s, 4, Message::Whois { name: b("carol") }), Ok(response(4, "they don't exist")));
    assert_eq!(register(&mut s, 4, "carol", "kc"), Ok(vec![]));
}

#[test]
fn channel_names_begin_with_a_hash() {
    let mut s = two_users();
    assert_eq!(send(&mut s, 2, Message::Join { channel: b("c") }), Ok(response(2, "channels start with #")));
    assert_eq!(send(&mut s, 2, Message::Join { channel: b("") }), Ok(response(2, "channels start with #")));
    assert_eq!(
        send(&mut s, 2, Message::Send { dest: b("c"), body: b("x"), nonce: None }),
        Err(ServerFault::UnknownDestination)
    );
}

#[test]
fn send_to_user_is_relayed_to_their_connection() {
    let mut s = two_users();
    let d = send(&mut s, 2, Message::Send { dest: b("bob"), body: b("hi"), nonce: None });
    assert_eq!(
        d,
        Ok(vec![Delivery {
            token: 3,
            msg: Message::Relay { source: b("alice"), dest: b("bob"), body: b("hi"), nonce: None },
        }])
    );
}

#[test]
fn encrypted_send_keeps_its_nonce() {
    let mut s = two_users();
    let d = send(&mut s, 3, Message::Send { dest: b("alice"), body: vec![1, 2], nonce: Some(vec![9; 24]) });
    assert_eq!(
        d,
        Ok(vec![Delivery {
            token: 2,
            msg: Message::Relay { source: b("bob"), dest: b("alice"), body: vec![1, 2], nonce: Some(vec![9; 24]) },
        }])
    );
}

#[test]
fn send_to_channel_reaches_members_in_join_order() {
    let mut s = two_users();
    assert_eq!(send(&mut s, 3, Message::Join { channel: b("#c") }), Ok(vec![]));
    assert_eq!(send(&mut s, 2, Message::Join { channel: b("#c") }), Ok(vec![]));
    let d = send(&mut s, 2, Message::Send { dest: b("#c"), body: b("yo"), nonce: None });
    assert_eq!(
        d,
        Ok(vec![
            Delivery { token: 3, msg: Message::Relay { source: b("alice"), dest: b("#c"), body: b("yo"), nonce: None } },
            Delivery { token: 2, msg: Message::Relay { source: b("alice"), dest: b("#c"), body: b("yo"), nonce: None } },
        ])
    );
}

#[test]
fn join_twice_and_part_twice_are_refused() {
    let mut s = two_users();
    assert_eq!(send(&mut s, 2, Message::Join { channel: b("#c") }), Ok(vec![]));
    assert_eq!(send(&mut s, 2, Message::Join { channel: b("#c") }), Ok(response(2, "you're already there!!")));
    assert_eq!(send(&mut s, 2, Message::Part { channel: b("#c") }), Ok(vec![]));
    assert_eq!(send(&mut s, 2, Message::Part { channel: b("#c") }), Ok(response(2, "you're not even there!!")));
    assert_eq!(send(&mut s, 2, Message::Part { channel: b("#nowhere") }), Ok(response(2, "you're not even there!!")));
}

#[test]
fn join_then_part_empties_the_channel() {
    let mut s = two_users();
    send(&mut s, 2, Message::Join { channel: b("#c") }).unwrap();
    send(&mut s, 2, Message::Part { channel: b("#c") }).unwrap();
    // the channel still exists, with no members
    assert_eq!(send(&mut s, 3, Message::Send { dest: b("#c"), body: b("x"), nonce: None }), Ok(vec![]));
}

#[test]
fn unregistered_connection_gets_notices() {
    let mut s = two_users();
    assert_eq!(send(&mut s, 4, Message::Join { channel: b("#c") }), Ok(response(4, "who ARE u!?!")));
    assert_eq!(send(&mut s, 4, Message::Part { channel: b("#c") }), Ok(response(4, "who ARE u!?!")));
    assert_eq!(
        send(&mut s, 4, Message::Send { dest: b("bob"), body: b("x"), nonce: None }),
        Ok(response(4, "this isnt 4chan"))
    );
    assert_eq!(send(&mut s, 4, Message::Whois { name: b("bob") }), Err(ServerFault::NotRegistered));
    assert_eq!(send(&mut s, 4, Message::Whois { name: b("carol") }), Ok(response(4, "they don't exist")));
}

#[test]
fn whois_exchanges_both_keys() {
    let mut s = two_users();
    assert_eq!(
        send(&mut s, 2, Message::Whois { name: b("bob") }),
        Ok(vec![
            Delivery { token: 2, msg: Message::Theyare { name: b("bob"), pubkey: b("kb") } },
            Delivery { token: 3, msg: Message::Theyare { name: b("alice"), pubkey: b("ka") } },
        ])
    );
    assert_eq!(send(&mut s, 2, Message::Whois { name: b("carol") }), Ok(response(2, "they don't exist")));
}

#[test]
fn client_only_messages_get_notices() {
    let mut s = two_users();
    assert_eq!(send(&mut s, 2, Message::Response { body: b("x") }), Ok(response(2, "no ur a client")));
    assert_eq!(
        send(&mut s, 2, Message::Theyare { name: b("bob"), pubkey: b("k") }),
        Ok(response(2, "i already NEW that"))
    );
}

#[test]
fn relay_from_a_client_is_passed_on() {
    let mut s = two_users();
    let m = Message::Relay { source: b("zed"), dest: b("bob"), body: b("x"), nonce: None };
    assert_eq!(
        send(&mut s, 2, m),
        Ok(vec![Delivery {
            token: 3,
            msg: Message::Relay { source: b("zed"), dest: b("bob"), body: b("x"), nonce: None },
        }])
    );
    let m = Message::Relay { source: b("zed"), dest: b("nobody"), body: b("x"), nonce: None };
    assert_eq!(send(&mut s, 2, m), Err(ServerFault::UnknownDestination));
}

#[test]
fn unknown_destination_is_a_fault() {
    let mut s = two_users();
    assert_eq!(
        send(&mut s, 2, Message::Send { dest: b("nobody"), body: b("x"), nonce: None }),
        Err(ServerFault::UnknownDestination)
    );
}

#[test]
fn undecodable_frame_is_a_fault() {
    let mut s = two_users();
    let f = Frame { which: 12, fields: vec![] };
    assert_eq!(s.forward(2, &f), Err(ServerFault::Decode(DecodeError::NotInSchema(12))));
}

#[test]
fn ready_on_listener() {
    let mut s = Server::new();
    assert_eq!(s.ready(1, ev(false, false, false, true)), Ok(vec![Step::Accept]));
    assert_eq!(s.ready(1, ev(false, false, true, false)), Err(ServerFault::ListenerWritable));
    assert_eq!(s.ready(1, ev(true, false, false, false)), Ok(vec![Step::Shutdown]));
    assert_eq!(s.ready(1, ev(false, true, false, true)), Ok(vec![Step::Shutdown]));
}

#[test]
fn ready_on_connection() {
    let mut s = two_users();
    assert_eq!(s.ready(2, ev(false, false, true, true)), Ok(vec![Step::Flush(2), Step::Forward(2)]));
    assert_eq!(s.ready(2, ev(false, false, false, true)), Ok(vec![Step::Forward(2)]));
    assert_eq!(s.ready(2, ev(false, false, false, false)), Ok(vec![]));
    assert_eq!(s.ready(9, ev(false, false, false, true)), Err(ServerFault::NotAConnection));
    assert_eq!(s.ready(9, ev(false, true, false, false)), Err(ServerFault::NotAConnection));
}

#[test]
fn hangup_closes_connection_and_user_quits() {
    let mut s = two_users();
    send(&mut s, 2, Message::Join { channel: b("#c") }).unwrap();
    send(&mut s, 3, Message::Join { channel: b("#c") }).unwrap();
    assert_eq!(s.ready(3, ev(false, true, false, false)), Ok(vec![Step::Close(3)]));
    assert!(!s.is_connection(3));
    assert_eq!(send(&mut s, 2, Message::Whois { name: b("bob") }), Ok(response(2, "they don't exist")));
    let d = send(&mut s, 2, Message::Send { dest: b("#c"), body: b("x"), nonce: None }).unwrap();
    assert_eq!(d.len(), 1);
    assert_eq!(d[0].token, 2);
    // the name is free again, and the token is handed out again
    assert_eq!(s.accept(), Some(3));
    assert_eq!(register(&mut s, 3, "bob", "new"), Ok(vec![]));
}

#[test]
fn tokens_given_back_are_handed_out_again_last_first() {
    let mut s = Server::new();
    assert_eq!(s.accept(), Some(2));
    assert_eq!(s.accept(), Some(3));
    assert_eq!(s.accept(), Some(4));
    assert_eq!(s.ready(3, ev(false, true, false, false)), Ok(vec![Step::Close(3)]));
    assert_eq!(s.accept(), Some(3));
    assert!(s.is_connection(3));
    assert_eq!(s.ready(2, ev(true, false, false, false)), Ok(vec![Step::Close(2)]));
    assert_eq!(s.ready(4, ev(false, true, false, false)), Ok(vec![Step::Close(4)]));
    assert_eq!(s.accept(), Some(4));
    assert_eq!(s.accept(), Some(2));
    assert_eq!(s.accept(), Some(5));
}

#[test]
fn accept_stops_at_the_connection_limit() {
    let mut s = Server::new();
    for t in 2..130 {
        assert_eq!(s.accept(), Some(t));
    }
    assert_eq!(s.accept(), None);
    assert!(!s.is_connection(130));
}
