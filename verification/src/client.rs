//! The chat client: what it prints and sends for each message from the
//! server and each line typed by the user. Bodies to users whose key it
//! knows are encrypted; encrypted bodies it receives are decrypted.
use vstd::prelude::*;
use vstd::string::StringSliceAdditionalSpecFns;
use vstd::utf8::encode_utf8;
use crate::bytes::{append_bytes, bytes_eq, copy_bytes};
use crate::crypto::{box_open, box_precompute, box_public_key, box_seal, gen_nonce, open, precompute, seal, NONCEBYTES, MACBYTES, PRECOMPUTEDKEYBYTES, PUBLICKEYBYTES, SECRETKEYBYTES};
use crate::hex::{spec_to_hex, to_hex};
use crate::names::NameMap;
use crate::text::{lemma_ascii_bytes, lemma_command_parts, no_space, command_parts, command_parts_exec, utf8_valid_up_to, utf8_prefix_len, is_utf8_prefix_len, lemma_utf8_prefix_len};
use crate::util::{deserialize, slice_opt_view, spec_deserialize, DecodeError, Frame, FrameView, Message, MessageView};
use vstd::utf8::valid_utf8;

use crate::event::{chat_ready, spec_chat_ready, steps_view, Events, LoopStep};
verus! {

/// Why a client stops.
#[derive(Debug, Clone, Copy, PartialEq, Eq)]
pub enum ClientFault {
    /// The frame from the server is no message.
    Decode(DecodeError),
    /// A typed command lacks its target or its body.
    MissingArgument,
    /// An encrypted body came from a user whose key is unknown.
    UnknownKey,
    /// An encrypted body came with a nonce of the wrong length.
    BadNonce,
    /// A public key of the wrong length came from the server.
    BadKey,
    /// An encrypted body failed verification.
    DecryptFailed,
    /// Text that is to be shown is not UTF-8.
    NotUtf8,
}

/// What a client does, in order.
#[derive(Debug, PartialEq, Eq)]
pub enum ClientAction {
    /// Write a line to standard output.
    Print(Vec<u8>),
    /// Write a line to standard error.
    Log(Vec<u8>),
    /// Send a message to the server.
    Send(Message),
    /// Stop the client.
    Abort(ClientFault),
}

/// An action as mathematical values.
pub enum ClientActionView {
    Print(Seq<u8>),
    Log(Seq<u8>),
    Send(MessageView),
    Abort(ClientFault),
}

impl View for ClientAction {
    type V = ClientActionView;

    open spec fn view(&self) -> ClientActionView {
        match self {
            ClientAction::Print(l) => ClientActionView::Print(l@),
            ClientAction::Log(l) => ClientActionView::Log(l@),
            ClientAction::Send(m) => ClientActionView::Send(m@),
            ClientAction::Abort(f) => ClientActionView::Abort(*f),
        }
    }
}

/// The views of a sequence of actions.
pub open spec fn actions_view(a: Seq<ClientAction>) -> Seq<ClientActionView> {
    a.map_values(|x: ClientAction| x@)
}

/// A line of output made of fixed text.
pub open spec fn print(text: &str) -> ClientActionView {
    ClientActionView::Print(text.spec_bytes())
}

/// A line of error output made of fixed text.
pub open spec fn log(text: &str) -> ClientActionView {
    ClientActionView::Log(text.spec_bytes())
}

/// How a relayed body is shown.
pub open spec fn relay_line(source: Seq<u8>, dest: Seq<u8>, body: Seq<u8>) -> Seq<u8> {
    "<".spec_bytes() + source + "> ".spec_bytes() + dest + ": ".spec_bytes() + body
}

/// How a user's key is shown.
pub open spec fn key_line(name: Seq<u8>, pubkey: Seq<u8>) -> Seq<u8> {
    "-!- Key for ".spec_bytes() + name + ":\n".spec_bytes() + encode_utf8(spec_to_hex(pubkey))
}

/// The client's state as mathematical values: its secret key and the
/// precomputed key shared with each user whose public key it has.
pub struct ClientView {
    pub seckey: Seq<u8>,
    pub keys: Map<Seq<u8>, Seq<u8>>,
}

/// The chat client.
pub struct Client {
    seckey: Vec<u8>,
    keys: NameMap<Vec<u8>>,
}

impl View for Client {
    type V = ClientView;

    closed spec fn view(&self) -> ClientView {
        ClientView { seckey: self.seckey@, keys: self.keys@ }
    }
}

/// A relayed body can be shown: it is plain, or it comes from a user whose
/// key is known, with a nonce of the right length, and opens with that key.
pub open spec fn relay_opens(c: ClientView, source: Seq<u8>, body: Seq<u8>, nonce: Option<Seq<u8>>) -> bool {
    match nonce {
        None => true,
        Some(n) => c.keys.dom().contains(source) && n.len() == NONCEBYTES && box_open(body, n, c.keys[source]) is Some,
    }
}

/// What the client shows for a relayed body that can be shown.
pub open spec fn spec_handle_relay(
    c: ClientView,
    source: Seq<u8>,
    dest: Seq<u8>,
    body: Seq<u8>,
    nonce: Option<Seq<u8>>,
) -> Seq<ClientActionView> {
    match nonce {
        None => seq![ClientActionView::Print(relay_line(source, dest, body))],
        Some(n) => seq![
            print("Decrypting..."),
            ClientActionView::Print(relay_line(source, dest, box_open(body, n, c.keys[source])->0)),
        ],
    }
}

/// What the client does with any relayed body, stopping where it cannot show it.
pub open spec fn spec_relay_actions(
    c: ClientView,
    source: Seq<u8>,
    dest: Seq<u8>,
    body: Seq<u8>,
    nonce: Option<Seq<u8>>,
) -> Seq<ClientActionView> {
    match nonce {
        None => spec_handle_relay(c, source, dest, body, nonce),
        Some(n) => if !c.keys.dom().contains(source) {
            seq![print("Decrypting..."), ClientActionView::Abort(ClientFault::UnknownKey)]
        } else if n.len() != NONCEBYTES {
            seq![print("Decrypting..."), ClientActionView::Abort(ClientFault::BadNonce)]
        } else if box_open(body, n, c.keys[source]) is None {
            seq![print("Decrypting..."), ClientActionView::Abort(ClientFault::DecryptFailed)]
        } else {
            spec_handle_relay(c, source, dest, body, nonce)
        },
    }
}

/// The client learns a user's public key: it keeps the key it shares with them.
pub open spec fn spec_handle_theyare(c: ClientView, name: Seq<u8>, pubkey: Seq<u8>) -> (
    ClientView,
    Seq<ClientActionView>,
) {
    (
        ClientView { keys: c.keys.insert(name, box_precompute(pubkey, c.seckey)), ..c },
        seq![ClientActionView::Print(key_line(name, pubkey))],
    )
}

/// The key kept for `name`, learnt with public key `pubkey`, is the key that
/// `name` derives in turn: whoever holds the secret key to which `pubkey`
/// belongs derives it from this client's public key.
pub open spec fn shared_key_agrees(c: ClientView, name: Seq<u8>, pubkey: Seq<u8>) -> bool {
    forall|sk2: Seq<u8>|
        sk2.len() == SECRETKEYBYTES && pubkey == #[trigger] box_public_key(sk2) ==> c.keys[name] == box_precompute(
            box_public_key(c.seckey),
            sk2,
        )
}

/// What the client does with a frame from the server.
pub open spec fn spec_netinput(c: ClientView, f: FrameView) -> (ClientView, Seq<ClientActionView>) {
    match spec_deserialize(f) {
        Err(e) => (c, seq![ClientActionView::Abort(ClientFault::Decode(e))]),
        Ok(m) => match m {
            MessageView::Relay { source, dest, body, nonce } => (c, spec_relay_actions(c, source, dest, body, nonce)),
            MessageView::Response { body } => (c, seq![ClientActionView::Print("-!- ".spec_bytes() + body)]),
            MessageView::Theyare { name, pubkey } => if pubkey.len() == PUBLICKEYBYTES {
                spec_handle_theyare(c, name, pubkey)
            } else {
                (c, seq![ClientActionView::Abort(ClientFault::BadKey)])
            },
            _ => (c, Seq::empty()),
        },
    }
}

/// The actions of sending `body` to `target`: encrypted, with a fresh nonce
/// of the right length, when the key shared with `target` is known, the
/// ciphertext `MACBYTES` longer than the body; plain otherwise.
pub open spec fn send_actions(c: ClientView, target: Seq<u8>, body: Seq<u8>, acts: Seq<ClientActionView>) -> bool {
    if c.keys.dom().contains(target) {
        &&& acts.len() == 2
        &&& acts[0] == print("Sending encrypted message...")
        &&& acts[1] matches ClientActionView::Send(MessageView::Send { dest, body: sealed, nonce: Some(n) })
        &&& dest == target
        &&& n.len() == NONCEBYTES
        &&& sealed == box_seal(body, n, c.keys[target])
        &&& sealed.len() == body.len() + MACBYTES
        &&& box_open(sealed, n, c.keys[target]) == Some(body)
    } else {
        acts == seq![ClientActionView::Send(MessageView::Send { dest: target, body: body, nonce: None })]
    }
}

/// Whether `line` is the command `a` or the command `b`.
pub open spec fn is_command(cmd: Seq<u8>, a: &str, b: &str) -> bool {
    cmd == a.spec_bytes() || cmd == b.spec_bytes()
}

/// The actions for one typed line (without its line feed).
pub open spec fn line_actions(c: ClientView, line: Seq<u8>, acts: Seq<ClientActionView>) -> bool {
    let (cmd, target, rest) = command_parts(line);
    match target {
        None => acts == seq![ClientActionView::Abort(ClientFault::MissingArgument)],
        Some(t) => if is_command(cmd, "/join", "/j") {
            acts == seq![ClientActionView::Print("Joining ".spec_bytes() + t), ClientActionView::Send(MessageView::Join { channel: t })]
        } else if is_command(cmd, "/part", "/p") {
            acts == seq![ClientActionView::Print("Leaving ".spec_bytes() + t), ClientActionView::Send(MessageView::Part { channel: t })]
        } else if is_command(cmd, "/whois", "/w") {
            acts == seq![log("Whois Sent."), ClientActionView::Send(MessageView::Whois { name: t })]
        } else if is_command(cmd, "/msg", "/m") || cmd == "/send".spec_bytes() {
            &&& acts.len() > 0
            &&& acts[0] == log("Message Sent.")
            &&& match rest {
                None => acts == seq![log("Message Sent."), ClientActionView::Abort(ClientFault::MissingArgument)],
                Some(b) => send_actions(c, t, b, acts.skip(1)),
            }
        } else {
            &&& acts.len() > 0
            &&& acts[0] == ClientActionView::Print("Sending message to ".spec_bytes() + cmd)
            &&& send_actions(c, cmd, line_rest(t, rest), acts.skip(1))
        },
    }
}

/// What follows the first space of a command line: the target, and then,
/// after a space, the rest when there is one.
pub open spec fn line_rest(t: Seq<u8>, rest: Option<Seq<u8>>) -> Seq<u8> {
    match rest {
        None => t,
        Some(b) => t + " ".spec_bytes() + b,
    }
}

/// Whether a sequence of actions ends the client.
pub open spec fn aborts(acts: Seq<ClientActionView>) -> bool {
    acts.len() > 0 && acts.last() is Abort
}

/// The actions for typed text `text`, with `pending` typed before it in the
/// same read: at each line feed, the line made of every byte typed so far in
/// the read, line feeds left out (the line is not reset at a line feed, only
/// at the end of the read), up to a line that stops the client; a final note
/// when the typed bytes were cut short of their end because they were not
/// UTF-8.
pub open spec fn stdin_actions(
    c: ClientView,
    pending: Seq<u8>,
    text: Seq<u8>,
    cut: bool,
    acts: Seq<ClientActionView>,
) -> bool
    decreases text.len(),
{
    if text.len() == 0 {
        acts == (if cut { seq![print("-?- Wtf was that?")] } else { Seq::empty() })
    } else if text[0] == 10 {
        exists|k: int|
            #![trigger acts.take(k)]
            0 <= k <= acts.len() && line_actions(c, pending, acts.take(k)) && if aborts(acts.take(k)) {
                k == acts.len()
            } else {
                stdin_actions(c, pending, text.drop_first(), cut, acts.skip(k))
            }
    } else {
        stdin_actions(c, pending.push(text[0]), text.drop_first(), cut, acts)
    }
}

/// Each command acts the same in its short and its long form, for any
/// target without a space: `/join` and `/j` join the channel named, `/part`
/// and `/p` leave it, `/whois` and `/w` ask for the user's key, and `/msg`,
/// `/m` and `/send` send the rest of the line to the user named.
pub proof fn lemma_command_forms(c: ClientView, t: Seq<u8>, b: Seq<u8>, acts: Seq<ClientActionView>)
    requires
        no_space(t),
    ensures
        line_actions(c, "/join".spec_bytes() + seq![32u8] + t, acts) <==> acts == seq![ClientActionView::Print("Joining ".spec_bytes() + t), ClientActionView::Send(MessageView::Join { channel: t })],
        line_actions(c, "/j".spec_bytes() + seq![32u8] + t, acts) <==> acts == seq![ClientActionView::Print("Joining ".spec_bytes() + t), ClientActionView::Send(MessageView::Join { channel: t })],
        line_actions(c, "/part".spec_bytes() + seq![32u8] + t, acts) <==> acts == seq![ClientActionView::Print("Leaving ".spec_bytes() + t), ClientActionView::Send(MessageView::Part { channel: t })],
        line_actions(c, "/p".spec_bytes() + seq![32u8] + t, acts) <==> acts == seq![ClientActionView::Print("Leaving ".spec_bytes() + t), ClientActionView::Send(MessageView::Part { channel: t })],
        line_actions(c, "/whois".spec_bytes() + seq![32u8] + t, acts) <==> acts == seq![log("Whois Sent."), ClientActionView::Send(MessageView::Whois { name: t })],
        line_actions(c, "/w".spec_bytes() + seq![32u8] + t, acts) <==> acts == seq![log("Whois Sent."), ClientActionView::Send(MessageView::Whois { name: t })],
        line_actions(c, "/msg".spec_bytes() + seq![32u8] + t + seq![32u8] + b, acts) <==> (acts.len() > 0 && acts[0] == log("Message Sent.") && send_actions(c, t, b, acts.skip(1))),
        line_actions(c, "/m".spec_bytes() + seq![32u8] + t + seq![32u8] + b, acts) <==> (acts.len() > 0 && acts[0] == log("Message Sent.") && send_actions(c, t, b, acts.skip(1))),
        line_actions(c, "/send".spec_bytes() + seq![32u8] + t + seq![32u8] + b, acts) <==> (acts.len() > 0 && acts[0] == log("Message Sent.") && send_actions(c, t, b, acts.skip(1))),
{
    reveal_strlit("/join");
    lemma_ascii_bytes("/join");
    reveal_strlit("/j");
    lemma_ascii_bytes("/j");
    reveal_strlit("/part");
    lemma_ascii_bytes("/part");
    reveal_strlit("/p");
    lemma_ascii_bytes("/p");
    reveal_strlit("/whois");
    lemma_ascii_bytes("/whois");
    reveal_strlit("/w");
    lemma_ascii_bytes("/w");
    reveal_strlit("/msg");
    lemma_ascii_bytes("/msg");
    reveal_strlit("/m");
    lemma_ascii_bytes("/m");
    reveal_strlit("/send");
    lemma_ascii_bytes("/send");
    assert("/join".spec_bytes().len() == 5 && "/join".spec_bytes()[1] == 106 && no_space("/join".spec_bytes()));
    assert("/j".spec_bytes().len() == 2 && "/j".spec_bytes()[1] == 106 && no_space("/j".spec_bytes()));
    assert("/part".spec_bytes().len() == 5 && "/part".spec_bytes()[1] == 112 && no_space("/part".spec_bytes()));
    assert("/p".spec_bytes().len() == 2 && "/p".spec_bytes()[1] == 112 && no_space("/p".spec_bytes()));
    assert("/whois".spec_bytes().len() == 6 && "/whois".spec_bytes()[1] == 119 && no_space("/whois".spec_bytes()));
    assert("/w".spec_bytes().len() == 2 && "/w".spec_bytes()[1] == 119 && no_space("/w".spec_bytes()));
    assert("/msg".spec_bytes().len() == 4 && "/msg".spec_bytes()[1] == 109 && no_space("/msg".spec_bytes()));
    assert("/m".spec_bytes().len() == 2 && "/m".spec_bytes()[1] == 109 && no_space("/m".spec_bytes()));
    assert("/send".spec_bytes().len() == 5 && "/send".spec_bytes()[1] == 115 && no_space("/send".spec_bytes()));
    lemma_command_parts("/join".spec_bytes(), t, None);
    lemma_command_parts("/j".spec_bytes(), t, None);
    lemma_command_parts("/part".spec_bytes(), t, None);
    lemma_command_parts("/p".spec_bytes(), t, None);
    lemma_command_parts("/whois".spec_bytes(), t, None);
    lemma_command_parts("/w".spec_bytes(), t, None);
    lemma_command_parts("/msg".spec_bytes(), t, Some(b));
    assert("/msg".spec_bytes() + seq![32u8] + t + seq![32u8] + b =~= "/msg".spec_bytes() + seq![32u8] + (t + seq![32u8] + b));
    lemma_command_parts("/m".spec_bytes(), t, Some(b));
    assert("/m".spec_bytes() + seq![32u8] + t + seq![32u8] + b =~= "/m".spec_bytes() + seq![32u8] + (t + seq![32u8] + b));
    lemma_command_parts("/send".spec_bytes(), t, Some(b));
    assert("/send".spec_bytes() + seq![32u8] + t + seq![32u8] + b =~= "/send".spec_bytes() + seq![32u8] + (t + seq![32u8] + b));
}

fn text_bytes(text: &str) -> (r: Vec<u8>)
    ensures
        r@ == text.spec_bytes(),
{
    copy_bytes(text.as_bytes())
}

fn print_text(text: &str) -> (r: ClientAction)
    ensures
        r@ == print(text),
{
    ClientAction::Print(text_bytes(text))
}

fn log_text(text: &str) -> (r: ClientAction)
    ensures
        r@ == log(text),
{
    ClientAction::Log(text_bytes(text))
}

/// `text` followed by `b`.
fn text_then(text: &str, b: &[u8]) -> (r: Vec<u8>)
    ensures
        r@ == text.spec_bytes() + b@,
{
    let mut r = text_bytes(text);
    append_bytes(&mut r, b);
    r
}

fn relay_line_exec(source: &[u8], dest: &[u8], body: &[u8]) -> (r: Vec<u8>)
    ensures
        r@ == relay_line(source@, dest@, body@),
{
    let mut r = text_then("<", source);
    append_bytes(&mut r, text_bytes("> ").as_slice());
    append_bytes(&mut r, dest);
    append_bytes(&mut r, text_bytes(": ").as_slice());
    append_bytes(&mut r, body);
    r
}

fn one(a: ClientAction) -> (r: Vec<ClientAction>)
    ensures
        actions_view(r@) == seq![a@],
{
    let r = vec![a];
    assert(actions_view(r@) =~= seq![a@]);
    r
}

fn two(a: ClientAction, b: ClientAction) -> (r: Vec<ClientAction>)
    ensures
        actions_view(r@) == seq![a@, b@],
{
    let r = vec![a, b];
    assert(actions_view(r@) =~= seq![a@, b@]);
    r
}

fn push_action(v: &mut Vec<ClientAction>, a: ClientAction)
    ensures
        actions_view(final(v)@) == actions_view(old(v)@).push(a@),
{
    v.push(a);
    assert(actions_view(v@) =~= actions_view(old(v)@).push(a@));
}

fn append_actions(v: &mut Vec<ClientAction>, w: Vec<ClientAction>)
    ensures
        actions_view(final(v)@) == actions_view(old(v)@) + actions_view(w@),
{
    let mut w = w;
    let ghost ws = w@;
    v.append(&mut w);
    assert(actions_view(v@) =~= actions_view(old(v)@) + actions_view(ws));
}

impl Client {
    /// The client's tables are consistent, and every key has the right length.
    pub closed spec fn wf(&self) -> bool {
        &&& self.keys.wf()
        &&& self.seckey@.len() == SECRETKEYBYTES
        &&& forall|n: Seq<u8>| #[trigger] self.keys@.dom().contains(n) ==> self.keys@[n].len() == PRECOMPUTEDKEYBYTES
    }

    /// A client with secret key `seckey`, knowing no one's key.
    pub fn new(seckey: &[u8]) -> (r: Client)
        requires
            seckey@.len() == SECRETKEYBYTES,
        ensures
            r.wf(),
            r@.seckey == seckey@,
            r@.keys == Map::<Seq<u8>, Seq<u8>>::empty(),
    {
        Client { seckey: copy_bytes(seckey), keys: NameMap::new() }
    }

    /// Whether the key shared with `name` is known.
    pub fn knows(&self, name: &[u8]) -> (r: bool)
        requires
            self.wf(),
        ensures
            r == self@.keys.dom().contains(name@),
    {
        self.keys.contains_key(name)
    }

    /// Shows a relayed body, decrypting it when it came with a nonce.
    pub fn handle_relay(&self, source: &[u8], dest: &[u8], body: &[u8], nonce: Option<&[u8]>) -> (r: Vec<ClientAction>)
        requires
            self.wf(),
            relay_opens(self@, source@, body@, slice_opt_view(nonce)),
        ensures
            actions_view(r@) == spec_handle_relay(self@, source@, dest@, body@, slice_opt_view(nonce)),
    {
        match nonce {
            None => one(ClientAction::Print(relay_line_exec(source, dest, body))),
            Some(n) => {
                let key = match self.keys.get(source) {
                    Some(k) => k,
                    None => {
                        return Vec::new();
                    },
                };
                match open(body, n, key.as_slice()) {
                    Some(plain) => two(
                        print_text("Decrypting..."),
                        ClientAction::Print(relay_line_exec(source, dest, plain.as_slice())),
                    ),
                    None => Vec::new(),
                }
            },
        }
    }

    /// Shows a notice from the server.
    pub fn handle_response(&self, body: &[u8]) -> (r: Vec<ClientAction>)
        ensures
            actions_view(r@) == seq![ClientActionView::Print("-!- ".spec_bytes() + body@)],
    {
        one(ClientAction::Print(text_then("-!- ", body)))
    }

    /// Learns the public key of `name` and keeps the key shared with them.
    pub fn handle_theyare(&mut self, name: &[u8], pubkey: &[u8]) -> (r: Vec<ClientAction>)
        requires
            old(self).wf(),
            pubkey@.len() == PUBLICKEYBYTES,
        ensures
            final(self).wf(),
            (final(self)@, actions_view(r@)) == spec_handle_theyare(old(self)@, name@, pubkey@),
            shared_key_agrees(final(self)@, name@, pubkey@),
    {
        let prekey = precompute(pubkey, self.seckey.as_slice());
        self.keys.insert(name, prekey);
        let hex = to_hex(pubkey);
        let mut line = text_then("-!- Key for ", name);
        append_bytes(&mut line, text_bytes(":\n").as_slice());
        append_bytes(&mut line, hex.as_str().as_bytes());
        let r = one(ClientAction::Print(line));
        assert(self@ =~= spec_handle_theyare(old(self)@, name@, pubkey@).0);
        r
    }

    /// The actions of sending `body` to `target`, encrypting it when the key
    /// shared with `target` is known.
    pub fn send_msg(&self, target: &[u8], body: &[u8]) -> (r: Vec<ClientAction>)
        requires
            self.wf(),
        ensures
            send_actions(self@, target@, body@, actions_view(r@)),
    {
        match self.keys.get(target) {
            Some(key) => {
                let nonce = gen_nonce();
                let sealed = seal(body, nonce.as_slice(), key.as_slice());
                let msg = Message::Send { dest: copy_bytes(target), body: sealed, nonce: Some(nonce) };
                two(print_text("Sending encrypted message..."), ClientAction::Send(msg))
            },
            None => {
                let msg = Message::Send { dest: copy_bytes(target), body: copy_bytes(body), nonce: None };
                one(ClientAction::Send(msg))
            },
        }
    }

    /// Handles a frame from the server.
    pub fn netinput(&mut self, frame: &Frame) -> (r: Vec<ClientAction>)
        requires
            old(self).wf(),
        ensures
            final(self).wf(),
            (final(self)@, actions_view(r@)) == spec_netinput(old(self)@, frame@),
            spec_deserialize(frame@) matches Ok(MessageView::Theyare { name, pubkey }) ==> (pubkey.len()
                == PUBLICKEYBYTES ==> shared_key_agrees(final(self)@, name, pubkey)),
    {
        let msg = match deserialize(frame) {
            Err(e) => {
                return one(ClientAction::Abort(ClientFault::Decode(e)));
            },
            Ok(m) => m,
        };
        match msg {
            Message::Relay { source, dest, body, nonce } => match nonce {
                None => self.handle_relay(source.as_slice(), dest.as_slice(), body.as_slice(), None),
                Some(n) => {
                    let fault = match self.keys.get(source.as_slice()) {
                        None => Some(ClientFault::UnknownKey),
                        Some(key) => if n.len() != NONCEBYTES {
                            Some(ClientFault::BadNonce)
                        } else {
                            match open(body.as_slice(), n.as_slice(), key.as_slice()) {
                                None => Some(ClientFault::DecryptFailed),
                                Some(_) => None,
                            }
                        },
                    };
                    match fault {
                        Some(f) => two(print_text("Decrypting..."), ClientAction::Abort(f)),
                        None => self.handle_relay(source.as_slice(), dest.as_slice(), body.as_slice(), Some(n.as_slice())),
                    }
                },
            },
            Message::Response { body } => self.handle_response(body.as_slice()),
            Message::Theyare { name, pubkey } => {
                if pubkey.len() == PUBLICKEYBYTES {
                    self.handle_theyare(name.as_slice(), pubkey.as_slice())
                } else {
                    one(ClientAction::Abort(ClientFault::BadKey))
                }
            },
            _ => {
                let r: Vec<ClientAction> = Vec::new();
                assert(actions_view(r@) =~= Seq::<ClientActionView>::empty());
                r
            },
        }
    }
}

impl Client {
    /// The actions for one typed line (without its line feed).
    pub fn process_line(&self, line: &[u8]) -> (r: Vec<ClientAction>)
        requires
            self.wf(),
        ensures
            line_actions(self@, line@, actions_view(r@)),
    {
        let (cmd, target, rest) = command_parts_exec(line);
        let t = match target {
            None => {
                return one(ClientAction::Abort(ClientFault::MissingArgument));
            },
            Some(t) => t,
        };
        let c = cmd.as_slice();
        let ghost parts = command_parts(line@);
        assert(parts.1 == Some(t@));
        if bytes_eq(c, "/join".as_bytes()) || bytes_eq(c, "/j".as_bytes()) {
            two(
                ClientAction::Print(text_then("Joining ", t.as_slice())),
                ClientAction::Send(Message::Join { channel: copy_bytes(t.as_slice()) }),
            )
        } else if bytes_eq(c, "/part".as_bytes()) || bytes_eq(c, "/p".as_bytes()) {
            two(
                ClientAction::Print(text_then("Leaving ", t.as_slice())),
                ClientAction::Send(Message::Part { channel: copy_bytes(t.as_slice()) }),
            )
        } else if bytes_eq(c, "/whois".as_bytes()) || bytes_eq(c, "/w".as_bytes()) {
            two(log_text("Whois Sent."), ClientAction::Send(Message::Whois { name: copy_bytes(t.as_slice()) }))
        } else if bytes_eq(c, "/msg".as_bytes()) || bytes_eq(c, "/m".as_bytes()) || bytes_eq(c, "/send".as_bytes()) {
            let mut r = one(log_text("Message Sent."));
            match rest {
                None => {
                    push_action(&mut r, ClientAction::Abort(ClientFault::MissingArgument));
                    assert(actions_view(r@) =~= seq![log("Message Sent."), ClientActionView::Abort(ClientFault::MissingArgument)]);
                },
                Some(b) => {
                    let sends = self.send_msg(t.as_slice(), b.as_slice());
                    let ghost sv = actions_view(sends@);
                    append_actions(&mut r, sends);
                    assert(actions_view(r@).skip(1) =~= sv);
                },
            }
            r
        } else {
            let first = ClientAction::Print(text_then("Sending message to ", c));
            let mut body = copy_bytes(t.as_slice());
            match rest {
                None => {},
                Some(b) => {
                    append_bytes(&mut body, " ".as_bytes());
                    append_bytes(&mut body, b.as_slice());
                },
            }
            let mut r = one(first);
            let sends = self.send_msg(c, body.as_slice());
            let ghost sv = actions_view(sends@);
            append_actions(&mut r, sends);
            assert(actions_view(r@).skip(1) =~= sv);
            r
        }
    }

    /// Handles bytes typed by the user: at each line feed, the line of every
    /// byte typed so far in this read, up to one that stops the client; the
    /// line is cleared only at the end of the read.
    /// Only the longest prefix that is valid UTF-8 is read, and a note follows
    /// when the bytes were cut short there.
    pub fn stdinput(&self, buf: &[u8]) -> (r: Vec<ClientAction>)
        requires
            self.wf(),
        ensures
            stdin_actions(
                self@,
                Seq::empty(),
                buf@.subrange(0, utf8_prefix_len(buf@)),
                utf8_prefix_len(buf@) < buf@.len(),
                actions_view(r@),
            ),
    {
        let n = utf8_valid_up_to(buf);
        proof {
            lemma_utf8_prefix_len(buf@, n as int);
        }
        let cut = n < buf.len();
        let ghost text = buf@.subrange(0, n as int);
        let ghost c = self@;
        let mut pending: Vec<u8> = Vec::new();
        let mut out: Vec<ClientAction> = Vec::new();
        let mut i: usize = 0;
        assert(text.skip(0) =~= text);
        assert(actions_view(out@) =~= Seq::<ClientActionView>::empty());
        while i < n
            invariant
                self.wf(),
                c == self@,
                n <= buf@.len(),
                n == utf8_prefix_len(buf@),
                cut == (n < buf@.len()),
                text == buf@.subrange(0, n as int),
                i <= n,
                forall|rest: Seq<ClientActionView>|
                    stdin_actions(c, pending@, text.skip(i as int), cut, rest) ==> #[trigger] stdin_actions(
                        c,
                        Seq::empty(),
                        text,
                        cut,
                        actions_view(out@) + rest,
                    ),
            decreases n - i,
        {
            let ghost old_out = actions_view(out@);
            let ghost old_pending = pending@;
            let ghost tail = text.skip(i as int);
            assert(tail[0] == buf@[i as int]);
            assert(tail.drop_first() =~= text.skip(i + 1));
            if buf[i] == 10 {
                let acts = self.process_line(pending.as_slice());
                let ghost av = actions_view(acts@);
                if acts.len() > 0 && is_abort(&acts[acts.len() - 1]) {
                    proof {
                        assert(av.take(av.len() as int) =~= av);
                        assert(aborts(av));
                        assert(stdin_actions(c, old_pending, tail, cut, av));
                        assert(av + Seq::<ClientActionView>::empty() =~= av);
                        assert(stdin_actions(c, old_pending, tail, cut, av + Seq::<ClientActionView>::empty()));
                    }
                    append_actions(&mut out, acts);
                    proof {
                        assert(stdin_actions(c, Seq::empty(), text, cut, old_out + (av + Seq::<ClientActionView>::empty())));
                        assert(old_out + (av + Seq::<ClientActionView>::empty()) =~= actions_view(out@));
                    }
                    return out;
                }
                proof {
                    assert(!aborts(av));
                }
                append_actions(&mut out, acts);
                proof {
                    assert(pending@ == old_pending);
                    assert forall|rest: Seq<ClientActionView>|
                        stdin_actions(c, pending@, text.skip(i + 1), cut, rest) implies #[trigger] stdin_actions(
                            c,
                            Seq::empty(),
                            text,
                            cut,
                            actions_view(out@) + rest,
                        ) by {
                        let all = av + rest;
                        assert(all.take(av.len() as int) =~= av);
                        assert(all.skip(av.len() as int) =~= rest);
                        assert(stdin_actions(c, old_pending, tail, cut, all));
                        assert(old_out + all =~= actions_view(out@) + rest);
                    }
                }
            } else {
                pending.push(buf[i]);
                proof {
                    assert forall|rest: Seq<ClientActionView>|
                        stdin_actions(c, pending@, text.skip(i + 1), cut, rest) implies #[trigger] stdin_actions(
                            c,
                            Seq::empty(),
                            text,
                            cut,
                            actions_view(out@) + rest,
                        ) by {
                        assert(stdin_actions(c, old_pending, tail, cut, rest));
                    }
                }
            }
            i = i + 1;
        }
        let ghost before = actions_view(out@);
        if cut {
            push_action(&mut out, print_text("-?- Wtf was that?"));
            proof {
                let rest = seq![print("-?- Wtf was that?")];
                assert(text.skip(i as int).len() == 0);
                assert(stdin_actions(c, pending@, text.skip(i as int), cut, rest));
                assert(before + rest =~= actions_view(out@));
            }
        } else {
            proof {
                let rest = Seq::<ClientActionView>::empty();
                assert(stdin_actions(c, pending@, text.skip(i as int), cut, rest));
                assert(before + rest =~= actions_view(out@));
            }
        }
        out
    }
}

fn is_abort(a: &ClientAction) -> (r: bool)
    ensures
        r == (a@ is Abort),
{
    match a {
        ClientAction::Abort(_) => true,
        _ => false,
    }
}

impl Client {
    /// What the event loop does with an event on standard input or on the
    /// server's connection.
    pub fn ready(&self, token: usize, events: Events) -> (r: Vec<LoopStep>)
        ensures
            steps_view(r@) == spec_chat_ready(token, events, "Server closed connection, exiting...", true),
    {
        chat_ready(token, events, "Server closed connection, exiting...", true)
    }
}

} // verus!
