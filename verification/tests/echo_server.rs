use drp::echo::{dec_exec, EchoServer, EchoStep};
use drp::event::Events;

fn b(s: &str) -> Vec<u8> {
    s.as_bytes().to_vec()
}

fn ev(error: bool, hup: bool, writable: bool, readable: bool) -> Events {
    Events { error, hup, writable, readable }
}

#[test]
fn decimal_digits() {
    assert_eq!(dec_exec(0), b("0"));
    assert_eq!(dec_exec(9), b("9"));
    assert_eq!(dec_exec(10), b("10"));
    assert_eq!(dec_exec(129), b("129"));
    assert_eq!(dec_exec(1234567), b("1234567"));
}

#[test]
fn listener_events() {
    let mut s = EchoServer::new();
    assert_eq!(s.ready(1, ev(false, false, false, true)), vec![EchoStep::Print(b("we got a read!")), EchoStep::Accept]);
    assert_eq!(s.ready(1, ev(true, false, false, false)), vec![EchoStep::Print(b("server got error")), EchoStep::Shutdown]);
    assert_eq!(s.ready(1, ev(false, true, false, false)), vec![EchoStep::Print(b("server got hup")), EchoStep::Shutdown]);
}

#[test]
fn accept_reuses_tokens_and_stops_when_full() {
    let mut s = EchoServer::new();
    assert_eq!(s.accept(), Some(2));
    assert_eq!(s.accept(), Some(3));
    assert!(s.is_conn(2));
    assert_eq!(s.ready(2, ev(false, true, false, false)), vec![EchoStep::Print(b("connection on Token(2) got hup"))]);
    assert!(!s.is_conn(2));
    assert_eq!(s.accept(), Some(2));
    assert_eq!(s.ready(3, ev(false, true, false, false)), vec![EchoStep::Print(b("connection on Token(3) got hup"))]);
    assert_eq!(s.ready(2, ev(false, true, false, false)), vec![EchoStep::Print(b("connection on Token(2) got hup"))]);
    assert_eq!(s.accept(), Some(2));
    assert_eq!(s.accept(), Some(3));
    for t in 4..130 {
        assert_eq!(s.accept(), Some(t));
    }
    assert_eq!(s.accept(), None);
}

#[test]
fn received_bytes_go_to_every_connection_latest_first() {
    let mut s = EchoServer::new();
    s.accept();
    s.accept();
    s.accept();
    assert_eq!(
        s.ready(3, ev(true, false, false, false)),
        vec![EchoStep::Print(b("connection on Token(3) got error"))]
    );
    assert_eq!(s.received(b"one"), vec![EchoStep::WatchAll(2), EchoStep::WatchAll(4)]);
    assert_eq!(s.received(b"two"), vec![EchoStep::WatchAll(2), EchoStep::WatchAll(4)]);
    assert_eq!(
        s.ready(2, ev(false, false, true, false)),
        vec![EchoStep::Print(b("testo")), EchoStep::Write(2, b("two"))]
    );
    assert_eq!(
        s.ready(2, ev(false, false, true, true)),
        vec![
            EchoStep::Print(b("testo")),
            EchoStep::Write(2, b("one")),
            EchoStep::WatchReadable(2),
            EchoStep::Print(b("we got a read!")),
            EchoStep::Read(2),
        ]
    );
    assert_eq!(s.ready(2, ev(false, false, true, false)), vec![EchoStep::Print(b("testo")), EchoStep::WatchReadable(2)]);
    assert_eq!(
        s.ready(4, ev(false, false, true, false)),
        vec![EchoStep::Print(b("testo")), EchoStep::Write(4, b("two"))]
    );
}

#[test]
fn failed_read_closes_the_connection() {
    let mut s = EchoServer::new();
    s.accept();
    assert_eq!(s.read_failed(2), vec![EchoStep::Print(b("error while reading"))]);
    assert!(!s.is_conn(2));
    assert_eq!(s.received(b"x"), vec![]);
}
