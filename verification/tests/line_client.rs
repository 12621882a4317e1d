use drp::client::{ClientAction, ClientFault};
use drp::event::{Events, LoopStep};
use drp::util::{serialize, DecodeError, Frame, Message};
use drp::we::{process_line, Client};

fn b(s: &str) -> Vec<u8> {
    s.as_bytes().to_vec()
}

#[test]
fn line_commands() {
    assert_eq!(
        process_line(b"/j #c"),
        vec![ClientAction::Print(b("Channel Joined.")), ClientAction::Send(Message::Join { channel: b("#c") })]
    );
    assert_eq!(
        process_line(b"/part #c"),
        vec![ClientAction::Print(b("Channel Parted.")), ClientAction::Send(Message::Part { channel: b("#c") })]
    );
    assert_eq!(
        process_line(b"/m bob hi there"),
        vec![
            ClientAction::Log(b("Message Sent.")),
            ClientAction::Send(Message::Send { dest: b("bob"), body: b("hi there"), nonce: None }),
        ]
    );
    assert_eq!(
        process_line(b"/msg bob"),
        vec![ClientAction::Log(b("Message Sent.")), ClientAction::Abort(ClientFault::MissingArgument)]
    );
    assert_eq!(
        process_line(b"bob hi there"),
        vec![
            ClientAction::Print(b("Sending message to bob")),
            ClientAction::Send(Message::Send { dest: b("bob"), body: b("hithere"), nonce: None }),
        ]
    );
    assert_eq!(process_line(b"alone"), vec![ClientAction::Abort(ClientFault::MissingArgument)]);
    assert_eq!(process_line(b"\xff\xfe x y"), vec![ClientAction::Abort(ClientFault::NotUtf8)]);
}

#[test]
fn typing_with_delete_and_partial_lines() {
    let mut c = Client::new();
    let buf = b"/j #cx\x7f\n/j #d";
    let acts = c.handle_stdin(buf, buf.len());
    assert_eq!(
        acts,
        vec![ClientAction::Print(b("Channel Joined.")), ClientAction::Send(Message::Join { channel: b("#c") })]
    );
    // the unfinished line is kept for the next read
    let acts = c.handle_stdin(b"x\nignored", 2);
    assert_eq!(
        acts,
        vec![ClientAction::Print(b("Channel Joined.")), ClientAction::Send(Message::Join { channel: b("#dx") })]
    );
}

#[test]
fn delete_on_empty_line_does_nothing() {
    let mut c = Client::new();
    let acts = c.handle_stdin(b"\x7f\x7f/j #e\n", 8);
    assert_eq!(
        acts,
        vec![ClientAction::Print(b("Channel Joined.")), ClientAction::Send(Message::Join { channel: b("#e") })]
    );
}

#[test]
fn a_stopping_line_ends_the_read() {
    let mut c = Client::new();
    let buf = b"nope\n/j #a\n";
    assert_eq!(c.handle_stdin(buf, buf.len()), vec![ClientAction::Abort(ClientFault::MissingArgument)]);
}

#[test]
fn frames_from_the_server_are_shown() {
    let c = Client::new();
    let relay = Message::Relay { source: b("alice"), dest: b("bob"), body: b("hello"), nonce: None };
    assert_eq!(c.handle_netin(&serialize(&relay)), vec![ClientAction::Print(b("<alice> hello"))]);
    let notice = Message::Response { body: b("who ARE u!?!") };
    assert_eq!(c.handle_netin(&serialize(&notice)), vec![ClientAction::Print(b("-!- who ARE u!?!"))]);
    let other = Message::Whois { name: b("x") };
    assert_eq!(c.handle_netin(&serialize(&other)), vec![ClientAction::Print(b("no relay?"))]);
    let bad_text = Message::Response { body: vec![0xff] };
    assert_eq!(c.handle_netin(&serialize(&bad_text)), vec![ClientAction::Abort(ClientFault::NotUtf8)]);
    let bad = Frame { which: 99, fields: vec![] };
    assert_eq!(c.handle_netin(&bad), vec![ClientAction::Abort(ClientFault::Decode(DecodeError::NotInSchema(99)))]);
}

#[test]
fn line_client_event_steps() {
    let c = Client::new();
    let ev = |error, hup, writable, readable| Events { error, hup, writable, readable };
    assert_eq!(
        c.ready(1, ev(false, true, false, false)),
        vec![LoopStep::Log(b("Event: Server closed connection, exiting")), LoopStep::Shutdown]
    );
    assert_eq!(c.ready(0, ev(false, false, false, false)), vec![]);
    assert_eq!(c.ready(1, ev(false, false, false, true)), vec![LoopStep::ReadNet(0)]);
}

#[test]
fn text_split_across_reads_is_handled_as_one_read() {
    let text = b"/j #a\n/m bob hi\x7fo there\n/p #";
    let mut whole = Client::new();
    let at_once = whole.handle_stdin(text, text.len());
    for cut in 0..=text.len() {
        let mut c = Client::new();
        let mut acts = c.handle_stdin(&text[..cut], cut);
        acts.extend(c.handle_stdin(&text[cut..], text.len() - cut));
        assert_eq!(acts, at_once);
        let mut c2 = Client::new();
        c2.handle_stdin(text, text.len());
        assert_eq!(c.handle_stdin(b"a\n", 2), c2.handle_stdin(b"a\n", 2));
    }
}
