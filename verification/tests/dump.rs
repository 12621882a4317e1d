use drp::dump::{text_message, TextMessage};
use drp::util::Frame;

fn b(s: &str) -> Vec<u8> {
    s.as_bytes().to_vec()
}

#[test]
fn three_text_fields_are_read() {
    let f = Frame { which: 0, fields: vec![Some(b("[Awark")), Some(b("Lan")), Some(b("yo"))] };
    assert_eq!(text_message(&f), Some(TextMessage { source: b("[Awark"), dest: b("Lan"), body: b("yo") }));
}

#[test]
fn null_fields_read_as_empty_text() {
    let f = Frame { which: 0, fields: vec![None, Some(b("Lan"))] };
    assert_eq!(text_message(&f), Some(TextMessage { source: vec![], dest: b("Lan"), body: vec![] }));
}

#[test]
fn fields_that_are_not_utf8_are_refused() {
    let f = Frame { which: 0, fields: vec![Some(b("a")), Some(b("b")), Some(vec![0xc3])] };
    assert_eq!(text_message(&f), None);
}
