use drp::event::{Events, LoopStep};
use drp::irc::{decimal_exec, draw_scroll, latin1_to_utf8, latin1_utf8_len, Client, IrcAction};
use drp::irc_single::Client as SingleClient;

fn b(s: &str) -> Vec<u8> {
    s.as_bytes().to_vec()
}

fn row(y: i32, text: &str) -> Vec<IrcAction> {
    let mut v = vec![IrcAction::Move(y, 0)];
    for c in text.bytes() {
        v.push(IrcAction::AddCh(c));
    }
    v
}

/// The rule and the cursor placement that end every drawing.
fn rule(lines: i32, cols: i32) -> Vec<IrcAction> {
    let mut v = vec![IrcAction::Move(lines - 2, 0)];
    for _ in 0..cols {
        v.push(IrcAction::Print(b("-")));
    }
    v.push(IrcAction::Move(lines - 1, 0));
    v
}

fn input_row(text: &str, lines: i32, cols: i32) -> Vec<IrcAction> {
    let n = text.len() as i32;
    let mut v = vec![IrcAction::Move(lines - 1, n)];
    for _ in 0..(cols - n).max(0) {
        v.push(IrcAction::Print(b(" ")));
    }
    v.push(IrcAction::MovePrint(lines - 1, 0, b(text)));
    v.push(IrcAction::Refresh);
    v
}

fn key(code: u8) -> IrcAction {
    IrcAction::Log(format!("key: {}", code).into_bytes())
}

fn cat(parts: Vec<Vec<IrcAction>>) -> Vec<IrcAction> {
    parts.into_iter().flatten().collect()
}

#[test]
fn characters_are_encoded_as_utf8() {
    assert_eq!(latin1_to_utf8(&[0x41, 0xe9, 0x7f, 0x80]), vec![0x41, 0xc3, 0xa9, 0x7f, 0xc2, 0x80]);
    assert_eq!(latin1_utf8_len(&[0x41, 0xe9, 0xff]), 5);
    assert_eq!(latin1_utf8_len(&[]), 0);
}

#[test]
fn decimal_digits_of_bytes() {
    assert_eq!(decimal_exec(0), b("0"));
    assert_eq!(decimal_exec(7), b("7"));
    assert_eq!(decimal_exec(42), b("42"));
    assert_eq!(decimal_exec(100), b("100"));
    assert_eq!(decimal_exec(255), b("255"));
}

#[test]
fn scroll_is_drawn_bottom_up_and_wrapped() {
    let scroll = vec![b("ab"), b("abcd")];
    let acts = draw_scroll(&scroll, 5, 3);
    // "ab" takes one row above the rule (row 2); "abcd" takes two rows above it
    assert_eq!(acts, cat(vec![row(2, "ab"), row(0, "abc"), row(1, "d"), rule(5, 3)]));
}

#[test]
fn scroll_stops_at_a_line_that_does_not_fit() {
    let scroll = vec![b("a"), b("bb"), b("c")];
    assert_eq!(draw_scroll(&scroll, 4, 3), cat(vec![row(1, "a"), row(0, "bb"), rule(4, 3)]));
    assert_eq!(draw_scroll(&scroll, 4, 2), cat(vec![row(1, "a"), rule(4, 2)]));
    let empty: Vec<Vec<u8>> = vec![];
    assert_eq!(draw_scroll(&empty, 2, 1), rule(2, 1));
}

#[test]
fn received_lines_are_logged_and_scrolled() {
    let mut c = Client::new(2);
    assert_eq!(c.connections(), 2);
    let buf = b"hello\r\nwor";
    let acts = c.handle_netin(buf, buf.len(), 0, 4, 10);
    assert_eq!(
        acts,
        cat(vec![
            vec![IrcAction::Log(b("hello")), IrcAction::Clear],
            row(1, "hello"),
            rule(4, 10),
            vec![IrcAction::Refresh],
        ])
    );
    // the unfinished line completes on the next read
    let acts = c.handle_netin(b"ld\r", 3, 0, 4, 10);
    assert_eq!(
        acts,
        cat(vec![
            vec![IrcAction::Log(b("world")), IrcAction::Clear],
            row(1, "world"),
            row(0, "hello"),
            rule(4, 10),
            vec![IrcAction::Refresh],
        ])
    );
}

#[test]
fn lines_on_another_connection_are_not_shown() {
    let mut c = Client::new(2);
    let acts = c.handle_netin(b"x\r", 2, 1, 4, 10);
    assert_eq!(
        acts,
        cat(vec![vec![IrcAction::Log(b("x")), IrcAction::Clear], rule(4, 10), vec![IrcAction::Refresh]])
    );
}

#[test]
fn typed_line_is_sent_and_scrolled() {
    let mut c = Client::new(1);
    let acts = c.handle_stdin(b"hj\x7fi\r", 5, 4, 10);
    assert_eq!(
        acts,
        cat(vec![
            vec![key(104), key(106), key(127), key(105), key(13), IrcAction::Clear],
            row(1, "hi"),
            rule(4, 10),
            vec![IrcAction::Write(0, b("hi\r\n"))],
            input_row("", 4, 10),
        ])
    );
}

#[test]
fn typed_characters_are_shown_on_the_bottom_row() {
    let mut c = Client::new(1);
    let acts = c.handle_stdin(b"\xe9", 1, 3, 4);
    assert_eq!(
        acts,
        cat(vec![
            vec![key(233)],
            vec![IrcAction::Move(2, 2), IrcAction::Print(b(" ")), IrcAction::Print(b(" "))],
            vec![IrcAction::MovePrint(2, 0, vec![0xc3, 0xa9]), IrcAction::Refresh],
        ])
    );
}

#[test]
fn escape_keys_switch_views() {
    let mut c = Client::new(2);
    c.handle_netin(b"on zero\r", 8, 0, 4, 10);
    // escape then `a` shows the control view, which is empty
    let acts = c.handle_stdin(b"\x1ba", 2, 4, 10);
    assert_eq!(
        acts,
        cat(vec![vec![key(27), key(97), IrcAction::Clear], rule(4, 10), vec![IrcAction::Refresh], input_row("", 4, 10)])
    );
    // a line typed on the control view is kept there and not sent
    let acts = c.handle_stdin(b"x\r", 2, 4, 10);
    assert_eq!(
        acts,
        cat(vec![vec![key(120), key(13), IrcAction::Clear], row(1, "x"), rule(4, 10), input_row("", 4, 10)])
    );
    // escape then `a` goes back to the connection
    let acts = c.handle_stdin(b"\x1ba", 2, 4, 10);
    assert_eq!(
        acts,
        cat(vec![
            vec![key(27), key(97), IrcAction::Clear],
            row(1, "on zero"),
            rule(4, 10),
            vec![IrcAction::Refresh],
            input_row("", 4, 10),
        ])
    );
    // escape then a digit past the last connection picks the last one
    let acts = c.handle_stdin(b"\x1b7", 2, 4, 10);
    assert_eq!(
        acts,
        cat(vec![
            vec![key(27), key(55), IrcAction::Log(b("not that many")), IrcAction::Clear],
            rule(4, 10),
            vec![IrcAction::Refresh],
            input_row("", 4, 10),
        ])
    );
}

#[test]
fn irc_event_steps() {
    let c = Client::new(2);
    let ev = |error, hup, writable, readable| Events { error, hup, writable, readable };
    assert_eq!(c.ready(0, ev(false, false, false, true)), vec![LoopStep::ReadStdin]);
    assert_eq!(c.ready(0, ev(false, true, false, false)), vec![LoopStep::Log(b("stdin hup")), LoopStep::Shutdown]);
    assert_eq!(c.ready(3, ev(false, false, false, true)), vec![LoopStep::ReadNet(1)]);
    assert_eq!(c.ready(4, ev(false, false, false, true)), vec![LoopStep::Fault]);
    assert_eq!(c.ready(2, ev(true, false, false, false)), vec![LoopStep::Log(b("net error")), LoopStep::Shutdown]);
    assert_eq!(c.ready(2, ev(false, true, false, false)), vec![LoopStep::Log(b("net hup")), LoopStep::Shutdown]);
    assert_eq!(c.ready(2, ev(false, false, true, false)), vec![]);
}

#[test]
fn single_connection_client() {
    let mut c = SingleClient::new();
    let acts = c.handle_netin(b"a\r\n", 3, 4, 5);
    assert_eq!(
        acts,
        cat(vec![vec![IrcAction::Log(b("a")), IrcAction::Clear], row(1, "a"), rule(4, 5), vec![IrcAction::Refresh]])
    );
    let acts = c.handle_stdin(b"x\r", 2, 4, 5);
    assert_eq!(
        acts,
        cat(vec![
            vec![key(120), key(13), IrcAction::Clear],
            row(1, "x"),
            row(0, "a"),
            rule(4, 5),
            vec![IrcAction::Write(0, b("x\r\n"))],
            input_row("", 4, 5),
        ])
    );
    let ev = Events { error: false, hup: false, writable: false, readable: true };
    assert_eq!(c.ready(2, ev), vec![LoopStep::ReadNet(0)]);
}
