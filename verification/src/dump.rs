//! The protocol dump: a frame read as a plain message of three text fields.
use vstd::prelude::*;
use vstd::utf8::valid_utf8;
use crate::text::is_utf8;
use crate::util::{spec_field, Frame};
use crate::bytes::copy_bytes;

verus! {

/// A plain message of three text fields.
#[derive(Debug, PartialEq, Eq)]
pub struct TextMessage {
    pub source: Vec<u8>,
    pub dest: Vec<u8>,
    pub body: Vec<u8>,
}

/// The source, destination and body that a frame holds in its first three
/// pointer fields, a null field read as empty; `None` when one is not UTF-8.
pub open spec fn spec_text_message(f: crate::util::FrameView) -> Option<(Seq<u8>, Seq<u8>, Seq<u8>)> {
    let (s, d, b) = (spec_field(f, 0), spec_field(f, 1), spec_field(f, 2));
    if valid_utf8(s) && valid_utf8(d) && valid_utf8(b) {
        Some((s, d, b))
    } else {
        None
    }
}

fn field_bytes(frame: &Frame, i: usize) -> (r: Vec<u8>)
    ensures
        r@ == spec_field(frame@, i as int),
{
    if i < frame.fields.len() {
        match &frame.fields[i] {
            Some(b) => copy_bytes(b.as_slice()),
            None => Vec::new(),
        }
    } else {
        Vec::new()
    }
}

/// Reads a frame as a plain message of three text fields.
pub fn text_message(frame: &Frame) -> (r: Option<TextMessage>)
    ensures
        match r {
            Some(m) => spec_text_message(frame@) == Some((m.source@, m.dest@, m.body@)),
            None => spec_text_message(frame@) is None,
        },
{
    let source = field_bytes(frame, 0);
    let dest = field_bytes(frame, 1);
    let body = field_bytes(frame, 2);
    if is_utf8(source.as_slice()) && is_utf8(dest.as_slice()) && is_utf8(body.as_slice()) {
        Some(TextMessage { source, dest, body })
    } else {
        None
    }
}

} // verus!
