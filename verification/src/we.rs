//! The plain line client: typed bytes are edited into lines, each line is a
//! command for the server, and relays and notices are shown as text.
use vstd::prelude::*;
use vstd::string::StringSliceAdditionalSpecFns;
use vstd::utf8::valid_utf8;
use crate::bytes::{append_bytes, bytes_eq, copy_bytes};
use crate::client::{actions_view, aborts, log, print, ClientAction, ClientActionView, ClientFault};
use crate::text::{command_parts, command_parts_exec, is_utf8, lemma_ascii_bytes, lemma_command_parts, no_space};
use crate::util::{deserialize, spec_deserialize, Frame, FrameView, Message, MessageView};

use crate::event::{chat_ready, spec_chat_ready, steps_view, Events, LoopStep};
verus! {

/// The actions for one typed line (without its line feed).
pub open spec fn spec_line(line: Seq<u8>) -> Seq<ClientActionView> {
    let (cmd, target, rest) = command_parts(line);
    match target {
        None => seq![ClientActionView::Abort(ClientFault::MissingArgument)],
        Some(t) => if cmd == "/join".spec_bytes() || cmd == "/j".spec_bytes() {
            seq![print("Channel Joined."), ClientActionView::Send(MessageView::Join { channel: t })]
        } else if cmd == "/part".spec_bytes() || cmd == "/p".spec_bytes() {
            seq![print("Channel Parted."), ClientActionView::Send(MessageView::Part { channel: t })]
        } else if cmd == "/msg".spec_bytes() || cmd == "/m".spec_bytes() {
            match rest {
                None => seq![log("Message Sent."), ClientActionView::Abort(ClientFault::MissingArgument)],
                Some(b) => seq![
                    log("Message Sent."),
                    ClientActionView::Send(MessageView::Send { dest: t, body: b, nonce: None }),
                ],
            }
        } else if !valid_utf8(cmd) {
            seq![ClientActionView::Abort(ClientFault::NotUtf8)]
        } else {
            let first = ClientActionView::Print("Sending message to ".spec_bytes() + cmd);
            match rest {
                None => seq![first, ClientActionView::Abort(ClientFault::MissingArgument)],
                Some(b) => seq![
                    first,
                    ClientActionView::Send(MessageView::Send { dest: cmd, body: t + b, nonce: None }),
                ],
            }
        },
    }
}

/// Typed bytes `text` on top of the unfinished line `pending`: the line
/// left unfinished, and the actions. A line feed completes a line; a delete
/// (0x7f) takes back the last byte; a line that stops the client ends it all.
pub open spec fn spec_stdin(pending: Seq<u8>, text: Seq<u8>) -> (Seq<u8>, Seq<ClientActionView>)
    decreases text.len(),
{
    if text.len() == 0 {
        (pending, Seq::empty())
    } else if text[0] == 10 {
        let acts = spec_line(pending);
        if aborts(acts) {
            (pending, acts)
        } else {
            let (p, rest) = spec_stdin(Seq::empty(), text.drop_first());
            (p, acts + rest)
        }
    } else if text[0] == 0x7f {
        spec_stdin(if pending.len() > 0 { pending.drop_last() } else { pending }, text.drop_first())
    } else {
        spec_stdin(pending.push(text[0]), text.drop_first())
    }
}

/// What the client shows for a frame from the server.
pub open spec fn spec_netin(f: FrameView) -> Seq<ClientActionView> {
    match spec_deserialize(f) {
        Err(e) => seq![ClientActionView::Abort(ClientFault::Decode(e))],
        Ok(MessageView::Relay { source, dest, body, nonce }) => if !valid_utf8(body) || !valid_utf8(source) {
            seq![ClientActionView::Abort(ClientFault::NotUtf8)]
        } else {
            seq![ClientActionView::Print("<".spec_bytes() + source + "> ".spec_bytes() + body)]
        },
        Ok(MessageView::Response { body }) => if !valid_utf8(body) {
            seq![ClientActionView::Abort(ClientFault::NotUtf8)]
        } else {
            seq![ClientActionView::Print("-!- ".spec_bytes() + body)]
        },
        Ok(_) => seq![print("no relay?")],
    }
}

/// The plain line client: the line being typed.
pub struct Client {
    inbuf: Vec<u8>,
}

impl View for Client {
    type V = Seq<u8>;

    closed spec fn view(&self) -> Seq<u8> {
        self.inbuf@
    }
}

fn text_bytes(text: &str) -> (r: Vec<u8>)
    ensures
        r@ == text.spec_bytes(),
{
    copy_bytes(text.as_bytes())
}

fn text_then(text: &str, b: &[u8]) -> (r: Vec<u8>)
    ensures
        r@ == text.spec_bytes() + b@,
{
    let mut r = text_bytes(text);
    append_bytes(&mut r, b);
    r
}

fn one(a: ClientAction) -> (r: Vec<ClientAction>)
    ensures
        actions_view(r@) == seq![a@],
{
    let r = vec![a];
    assert(actions_view(r@) =~= seq![a@]);
    r
}

fn two(a: ClientAction, b: ClientAction) -> (r: Vec<ClientAction>)
    ensures
        actions_view(r@) == seq![a@, b@],
{
    let r = vec![a, b];
    assert(actions_view(r@) =~= seq![a@, b@]);
    r
}

fn ends_in_abort(v: &Vec<ClientAction>) -> (r: bool)
    ensures
        r == aborts(actions_view(v@)),
{
    if v.len() == 0 {
        return false;
    }
    match &v[v.len() - 1] {
        ClientAction::Abort(_) => true,
        _ => false,
    }
}

/// The actions for one typed line (without its line feed).
pub fn process_line(line: &[u8]) -> (r: Vec<ClientAction>)
    ensures
        actions_view(r@) == spec_line(line@),
{
    let (cmd, target, rest) = command_parts_exec(line);
    let t = match target {
        None => {
            return one(ClientAction::Abort(ClientFault::MissingArgument));
        },
        Some(t) => t,
    };
    let c = cmd.as_slice();
    if bytes_eq(c, "/join".as_bytes()) || bytes_eq(c, "/j".as_bytes()) {
        two(
            ClientAction::Print(text_bytes("Channel Joined.")),
            ClientAction::Send(Message::Join { channel: t }),
        )
    } else if bytes_eq(c, "/part".as_bytes()) || bytes_eq(c, "/p".as_bytes()) {
        two(
            ClientAction::Print(text_bytes("Channel Parted.")),
            ClientAction::Send(Message::Part { channel: t }),
        )
    } else if bytes_eq(c, "/msg".as_bytes()) || bytes_eq(c, "/m".as_bytes()) {
        match rest {
            None => two(
                ClientAction::Log(text_bytes("Message Sent.")),
                ClientAction::Abort(ClientFault::MissingArgument),
            ),
            Some(b) => two(
                ClientAction::Log(text_bytes("Message Sent.")),
                ClientAction::Send(Message::Send { dest: t, body: b, nonce: None }),
            ),
        }
    } else if !is_utf8(c) {
        one(ClientAction::Abort(ClientFault::NotUtf8))
    } else {
        let first = ClientAction::Print(text_then("Sending message to ", c));
        match rest {
            None => two(first, ClientAction::Abort(ClientFault::MissingArgument)),
            Some(b) => {
                let mut body = t;
                append_bytes(&mut body, b.as_slice());
                two(first, ClientAction::Send(Message::Send { dest: cmd, body, nonce: None }))
            },
        }
    }
}

impl Client {
    /// A client with nothing typed yet.
    pub fn new() -> (r: Client)
        ensures
            r@ == Seq::<u8>::empty(),
    {
        Client { inbuf: Vec::new() }
    }

    /// Handles the first `len` bytes of `buf`, typed by the user.
    pub fn handle_stdin(&mut self, buf: &[u8], len: usize) -> (r: Vec<ClientAction>)
        requires
            len <= buf@.len(),
        ensures
            (final(self)@, actions_view(r@)) == spec_stdin(old(self)@, buf@.subrange(0, len as int)),
    {
        let ghost text = buf@.subrange(0, len as int);
        let ghost start = self@;
        let mut out: Vec<ClientAction> = Vec::new();
        let mut i: usize = 0;
        assert(text.skip(0) =~= text);
        assert(actions_view(out@) + spec_stdin(self@, text).1 =~= spec_stdin(self@, text).1);
        while i < len
            invariant
                len <= buf@.len(),
                start == old(self)@,
                text == buf@.subrange(0, len as int),
                i <= len,
                spec_stdin(start, text) == (
                    spec_stdin(self@, text.skip(i as int)).0,
                    actions_view(out@) + spec_stdin(self@, text.skip(i as int)).1,
                ),
            decreases len - i,
        {
            let ghost tail = text.skip(i as int);
            let ghost before = actions_view(out@);
            assert(tail[0] == buf@[i as int]);
            assert(tail.drop_first() =~= text.skip(i + 1));
            let b = buf[i];
            if b == 10 {
                let acts = process_line(self.inbuf.as_slice());
                let ghost av = actions_view(acts@);
                let stop = ends_in_abort(&acts);
                let mut acts = acts;
                out.append(&mut acts);
                assert(actions_view(out@) =~= before + av);
                if stop {
                    assert(spec_stdin(start, text) == (self@, actions_view(out@)));
                    return out;
                }
                self.inbuf.clear();
                assert(self.inbuf@ =~= Seq::<u8>::empty());
                assert(before + (av + spec_stdin(self@, text.skip(i + 1)).1) =~= actions_view(out@) + spec_stdin(self@, text.skip(i + 1)).1);
            } else if b == 0x7f {
                let ghost p = self@;
                self.inbuf.pop();
                assert(self@ =~= (if p.len() > 0 { p.drop_last() } else { p }));
            } else {
                self.inbuf.push(b);
            }
            i = i + 1;
        }
        assert(text.skip(len as int).len() == 0);
        assert(actions_view(out@) + Seq::<ClientActionView>::empty() =~= actions_view(out@));
        out
    }

    /// Shows a frame from the server.
    pub fn handle_netin(&self, frame: &Frame) -> (r: Vec<ClientAction>)
        ensures
            actions_view(r@) == spec_netin(frame@),
    {
        match deserialize(frame) {
            Err(e) => one(ClientAction::Abort(ClientFault::Decode(e))),
            Ok(Message::Relay { source, dest, body, nonce }) => {
                if !is_utf8(body.as_slice()) || !is_utf8(source.as_slice()) {
                    return one(ClientAction::Abort(ClientFault::NotUtf8));
                }
                let mut line = text_then("<", source.as_slice());
                append_bytes(&mut line, text_bytes("> ").as_slice());
                append_bytes(&mut line, body.as_slice());
                one(ClientAction::Print(line))
            },
            Ok(Message::Response { body }) => {
                if !is_utf8(body.as_slice()) {
                    return one(ClientAction::Abort(ClientFault::NotUtf8));
                }
                one(ClientAction::Print(text_then("-!- ", body.as_slice())))
            },
            Ok(_) => one(ClientAction::Print(text_bytes("no relay?"))),
        }
    }
}

impl Client {
    /// What the event loop does with an event on standard input or on the
    /// server's connection.
    pub fn ready(&self, token: usize, events: Events) -> (r: Vec<LoopStep>)
        ensures
            steps_view(r@) == spec_chat_ready(token, events, "Event: Server closed connection, exiting", false),
    {
        chat_ready(token, events, "Event: Server closed connection, exiting", false)
    }
}

/// Typing a byte and then deleting it is the same as typing neither.
pub proof fn lemma_delete_undoes_typing(pending: Seq<u8>, b: u8, text: Seq<u8>)
    requires
        b != 10,
        b != 0x7f,
    ensures
        spec_stdin(pending, seq![b, 0x7fu8] + text) == spec_stdin(pending, text),
{
    let t = seq![b, 0x7fu8] + text;
    assert(t[0] == b);
    assert(t.drop_first() =~= seq![0x7fu8] + text);
    assert((seq![0x7fu8] + text)[0] == 0x7f);
    assert((seq![0x7fu8] + text).drop_first() =~= text);
    assert(pending.push(b).drop_last() =~= pending);
    let mid = seq![0x7fu8] + text;
    assert(spec_stdin(pending, t) == spec_stdin(pending.push(b), mid));
    assert(spec_stdin(pending.push(b), mid) == spec_stdin(pending, text));
}

/// Typed text split at any point is handled as if it were read at once:
/// the second part goes on from the line left unfinished by the first, unless
/// a line of the first part stopped the client.
pub proof fn lemma_stdin_split(pending: Seq<u8>, t1: Seq<u8>, t2: Seq<u8>)
    ensures
        ({
            let (p1, a1) = spec_stdin(pending, t1);
            let (p2, a2) = spec_stdin(p1, t2);
            &&& aborts(a1) ==> spec_stdin(pending, t1 + t2) == (p1, a1)
            &&& !aborts(a1) ==> spec_stdin(pending, t1 + t2) == (p2, a1 + a2)
        }),
    decreases t1.len(),
{
    let t = t1 + t2;
    if t1.len() == 0 {
        assert(t =~= t2);
        let (p2, a2) = spec_stdin(pending, t2);
        assert(Seq::<ClientActionView>::empty() + a2 =~= a2);
    } else {
        assert(t[0] == t1[0]);
        assert(t.drop_first() =~= t1.drop_first() + t2);
        if t1[0] == 10 {
            let acts = spec_line(pending);
            if !aborts(acts) {
                lemma_stdin_split(Seq::empty(), t1.drop_first(), t2);
                let (q1, rest) = spec_stdin(Seq::empty(), t1.drop_first());
                let (q2, rest2) = spec_stdin(q1, t2);
                if aborts(rest) {
                    assert(aborts(acts + rest)) by {
                        assert((acts + rest).last() == rest.last());
                    }
                } else {
                    assert(!aborts(acts + rest)) by {
                        if rest.len() > 0 {
                            assert((acts + rest).last() == rest.last());
                        } else {
                            assert(acts + rest =~= acts);
                        }
                    }
                    assert(acts + (rest + rest2) =~= (acts + rest) + rest2);
                }
            }
        } else if t1[0] == 0x7f {
            lemma_stdin_split(
                if pending.len() > 0 { pending.drop_last() } else { pending },
                t1.drop_first(),
                t2,
            );
        } else {
            lemma_stdin_split(pending.push(t1[0]), t1.drop_first(), t2);
        }
    }
}

/// Each command acts the same in its short and its long form: `/j` and
/// `/join` join the channel named, `/p` and `/part` leave it, and `/m` and
/// `/msg` send the rest of the line to the user named.
pub proof fn lemma_command_forms(t: Seq<u8>, b: Seq<u8>)
    requires
        no_space(t),
    ensures
        spec_line("/j".spec_bytes() + seq![32u8] + t) == seq![
            print("Channel Joined."),
            ClientActionView::Send(MessageView::Join { channel: t }),
        ],
        spec_line("/join".spec_bytes() + seq![32u8] + t) == spec_line("/j".spec_bytes() + seq![32u8] + t),
        spec_line("/p".spec_bytes() + seq![32u8] + t) == seq![
            print("Channel Parted."),
            ClientActionView::Send(MessageView::Part { channel: t }),
        ],
        spec_line("/part".spec_bytes() + seq![32u8] + t) == spec_line("/p".spec_bytes() + seq![32u8] + t),
        spec_line("/m".spec_bytes() + seq![32u8] + t + seq![32u8] + b) == seq![
            log("Message Sent."),
            ClientActionView::Send(MessageView::Send { dest: t, body: b, nonce: None }),
        ],
        spec_line("/msg".spec_bytes() + seq![32u8] + t + seq![32u8] + b) == spec_line(
            "/m".spec_bytes() + seq![32u8] + t + seq![32u8] + b,
        ),
{
    reveal_strlit("/j");
    lemma_ascii_bytes("/j");
    reveal_strlit("/join");
    lemma_ascii_bytes("/join");
    reveal_strlit("/p");
    lemma_ascii_bytes("/p");
    reveal_strlit("/part");
    lemma_ascii_bytes("/part");
    reveal_strlit("/m");
    lemma_ascii_bytes("/m");
    reveal_strlit("/msg");
    lemma_ascii_bytes("/msg");
    let j = "/j".spec_bytes();
    let join = "/join".spec_bytes();
    let p = "/p".spec_bytes();
    let part = "/part".spec_bytes();
    let m = "/m".spec_bytes();
    let msg = "/msg".spec_bytes();
    assert(no_space(j) && no_space(join) && no_space(p) && no_space(part) && no_space(m) && no_space(msg));
    assert(j.len() == 2 && p.len() == 2 && m.len() == 2);
    assert(join.len() == 5 && part.len() == 5 && msg.len() == 4);
    assert(j[1] == 106 && p[1] == 112 && m[1] == 109 && join[1] == 106 && part[1] == 112);
    assert(j != p && j != m && p != m && join != part);
    lemma_command_parts(j, t, None);
    lemma_command_parts(join, t, None);
    lemma_command_parts(p, t, None);
    lemma_command_parts(part, t, None);
    lemma_command_parts(m, t, Some(b));
    lemma_command_parts(msg, t, Some(b));
    assert(m + seq![32u8] + t + seq![32u8] + b =~= m + seq![32u8] + (t + seq![32u8] + b));
    assert(msg + seq![32u8] + t + seq![32u8] + b =~= msg + seq![32u8] + (t + seq![32u8] + b));
}

} // verus!
