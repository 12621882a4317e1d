//! The chat server's state and its decisions.
//!
//! The server keeps the registered users (each with a public key, the
//! channels it is in and the connection it registered on), the channels
//! (each with its members, in the order in which they joined) and the open
//! connections (each with the name registered on it, if any). The functions
//! here take one event from the network and say what to change and which
//! messages to send where; the event loop around them does the I/O.
use vstd::prelude::*;
use vstd::string::StringSliceAdditionalSpecFns;
use crate::bytes::{bytes_eq, copy_bytes};
use crate::conns::ConnTable;
use crate::names::{NameMap, NameSet, without, lemma_without, lemma_push_fresh};
use crate::event::Events;
use crate::slab::{CAPACITY, FIRST_TOKEN, empty_slab, in_use, lemma_give_back, lemma_take, slab_wf, spec_give_back, spec_take, SlabView, TokenSlab};
use crate::util::{Message, MessageView, Frame, DecodeError, deserialize, spec_deserialize, opt_view, slice_opt_view};

verus! {

/// A registered user.
pub struct User {
    pub pubkey: Vec<u8>,
    pub channels: NameSet,
    pub token: usize,
}

/// A registered user as mathematical values.
#[verifier::ext_equal]
pub struct UserView {
    pub pubkey: Seq<u8>,
    pub channels: Seq<Seq<u8>>,
    pub token: usize,
}

impl View for User {
    type V = UserView;

    open spec fn view(&self) -> UserView {
        UserView { pubkey: self.pubkey@, channels: self.channels@, token: self.token }
    }
}

/// The server's state as mathematical values.
#[verifier::ext_equal]
pub struct ServerView {
    /// The token of the listening socket.
    pub token: usize,
    /// Each channel with its members.
    pub channels: Map<Seq<u8>, Seq<Seq<u8>>>,
    /// Each registered user.
    pub users: Map<Seq<u8>, UserView>,
    /// Each open connection with the name registered on it.
    pub conns: Map<usize, Option<Seq<u8>>>,
    /// The tokens handed out to connections.
    pub slab: SlabView,
}

/// A message to write to a connection.
#[derive(Debug, PartialEq, Eq)]
pub struct Delivery {
    pub token: usize,
    pub msg: Message,
}

/// A delivery as mathematical values.
pub struct DeliveryView {
    pub token: usize,
    pub msg: MessageView,
}

impl View for Delivery {
    type V = DeliveryView;

    open spec fn view(&self) -> DeliveryView {
        DeliveryView { token: self.token, msg: self.msg@ }
    }
}

/// The views of a sequence of deliveries.
pub open spec fn deliveries_view(d: Seq<Delivery>) -> Seq<DeliveryView> {
    d.map_values(|x: Delivery| x@)
}

/// What the state of the server keeps true at all times.
pub open spec fn inv(s: ServerView) -> bool {
    &&& forall|c: Seq<u8>| #[trigger] s.channels.dom().contains(c) ==> s.channels[c].no_duplicates()
    &&& forall|n: Seq<u8>| #[trigger] s.users.dom().contains(n) ==> s.users[n].channels.no_duplicates()
    // Channel membership is recorded on both sides.
    &&& forall|c: Seq<u8>, n: Seq<u8>|
        s.channels.dom().contains(c) && #[trigger] s.channels[c].contains(n) ==> s.users.dom().contains(n)
            && s.users[n].channels.contains(c)
    &&& forall|n: Seq<u8>, c: Seq<u8>|
        s.users.dom().contains(n) && #[trigger] s.users[n].channels.contains(c) ==> s.channels.dom().contains(c)
            && s.channels[c].contains(n)
    // The name on a connection is a registered user, on no other connection.
    &&& forall|t: usize| #[trigger] s.conns.dom().contains(t) && s.conns[t] is Some ==> s.users.dom().contains(s.conns[t]->0)
    &&& forall|t1: usize, t2: usize|
        #[trigger] s.conns.dom().contains(t1) && #[trigger] s.conns.dom().contains(t2) && s.conns[t1] is Some
            && s.conns[t1] == s.conns[t2] ==> t1 == t2
    &&& !s.conns.dom().contains(s.token)
    // No two users hold the same public key.
    &&& forall|n1: Seq<u8>, n2: Seq<u8>|
        #[trigger] s.users.dom().contains(n1) && #[trigger] s.users.dom().contains(n2) && n1 != n2
            ==> s.users[n1].pubkey != s.users[n2].pubkey
}

/// A username: 3 to 32 printable ASCII characters.
pub open spec fn valid_username(name: Seq<u8>) -> bool {
    &&& 3 <= name.len() <= 32
    &&& forall|i: int| 0 <= i < name.len() ==> 0x20 <= #[trigger] name[i] <= 0x7e
}

/// A channel name begins with `#`.
pub open spec fn is_channel_name(channel: Seq<u8>) -> bool {
    channel.len() > 0 && channel[0] == 0x23
}

/// Some user holds `pubkey`.
pub open spec fn key_taken(s: ServerView, pubkey: Seq<u8>) -> bool {
    exists|n: Seq<u8>| #[trigger] s.users.dom().contains(n) && s.users[n].pubkey == pubkey
}

/// The members of a channel; none when it does not exist.
pub open spec fn members(s: ServerView, channel: Seq<u8>) -> Seq<Seq<u8>> {
    if s.channels.dom().contains(channel) {
        s.channels[channel]
    } else {
        Seq::empty()
    }
}

/// Whether a `Register` of `name` with `pubkey` is granted: the name is
/// free and is a username, and no user holds the key.
pub open spec fn registers(s: ServerView, name: Seq<u8>, pubkey: Seq<u8>) -> bool {
    !s.users.dom().contains(name) && valid_username(name) && !key_taken(s, pubkey)
}

/// Registering `name` with `pubkey` on connection `token`: refused, with
/// nothing changed, unless the `Register` is granted.
pub open spec fn spec_add_name(s: ServerView, token: usize, name: Seq<u8>, pubkey: Seq<u8>) -> (
    ServerView,
    bool,
) {
    if !registers(s, name, pubkey) {
        (s, false)
    } else {
        (
            ServerView {
                users: s.users.insert(
                    name,
                    UserView { pubkey: pubkey, channels: Seq::empty(), token: token },
                ),
                conns: s.conns.insert(token, Some(name)),
                ..s
            },
            true,
        )
    }
}

/// `name` joins `channel`, which is made when it does not exist: refused when
/// `name` is already a member.
pub open spec fn spec_name_joins(s: ServerView, name: Seq<u8>, channel: Seq<u8>) -> (
    ServerView,
    bool,
) {
    let m = members(s, channel);
    if !is_channel_name(channel) || m.contains(name) {
        (s, false)
    } else {
        let s1 = ServerView { channels: s.channels.insert(channel, m.push(name)), ..s };
        if s.users.dom().contains(name) {
            let u = s.users[name];
            let chans = if u.channels.contains(channel) {
                u.channels
            } else {
                u.channels.push(channel)
            };
            (ServerView { users: s.users.insert(name, UserView { channels: chans, ..u }), ..s1 }, true)
        } else {
            (s1, true)
        }
    }
}

/// `name` leaves `channel`: refused when the channel does not exist or `name`
/// is not a member (and when the user does not list the channel).
pub open spec fn spec_name_leaves(s: ServerView, name: Seq<u8>, channel: Seq<u8>) -> (
    ServerView,
    bool,
) {
    if !s.channels.dom().contains(channel) || !s.channels[channel].contains(name) {
        (s, false)
    } else {
        let s1 = ServerView {
            channels: s.channels.insert(channel, without(s.channels[channel], name)),
            ..s
        };
        if s.users.dom().contains(name) {
            let u = s.users[name];
            (
                ServerView {
                    users: s.users.insert(
                        name,
                        UserView { channels: without(u.channels, channel), ..u },
                    ),
                    ..s1
                },
                u.channels.contains(channel),
            )
        } else {
            (s1, true)
        }
    }
}

/// The connections with `name` cleared from any that carries it.
pub open spec fn name_cleared(conns: Map<usize, Option<Seq<u8>>>, name: Seq<u8>) -> Map<usize, Option<Seq<u8>>> {
    Map::new(
        |t: usize| conns.dom().contains(t),
        |t: usize| if conns[t] == Some(name) { None } else { conns[t] },
    )
}

/// `name` leaves every channel, is no longer registered, and is cleared from
/// the connection that carries it.
pub open spec fn spec_name_quits(s: ServerView, name: Seq<u8>) -> ServerView {
    ServerView {
        users: s.users.remove(name),
        channels: Map::new(
            |c: Seq<u8>| s.channels.dom().contains(c),
            |c: Seq<u8>| without(s.channels[c], name),
        ),
        conns: name_cleared(s.conns, name),
        ..s
    }
}

/// Connection `token` goes away; the name on it quits.
pub open spec fn spec_connection_closed(s: ServerView, token: usize) -> ServerView {
    let s1 = ServerView { conns: s.conns.remove(token), slab: spec_give_back(s.slab, token), ..s };
    match s.conns[token] {
        Some(n) => spec_name_quits(s1, n),
        None => s1,
    }
}

/// A new connection: it gets the token that the slab hands out, with no
/// name; `None` when every token is in use.
pub open spec fn spec_accept(s: ServerView) -> (ServerView, Option<usize>) {
    let (slab, r) = spec_take(s.slab);
    match r {
        Some(t) => (ServerView { conns: s.conns.insert(t, None), slab: slab, ..s }, r),
        None => (s, None),
    }
}

/// The open connections are exactly the tokens handed out.
pub open spec fn conns_agree(s: ServerView) -> bool {
    forall|t: usize|
        #![trigger s.conns.dom().contains(t)]
        #![trigger in_use(s.slab, t)]
        s.conns.dom().contains(t) <==> in_use(s.slab, t)
}

// ---------------------------------------------------------------------------
// Keeping the invariant.

/// Registering keeps the invariant.
pub proof fn lemma_add_name_inv(s: ServerView, token: usize, name: Seq<u8>, pubkey: Seq<u8>)
    requires
        inv(s),
        registers(s, name, pubkey) ==> s.conns.dom().contains(token),
    ensures
        inv(spec_add_name(s, token, name, pubkey).0),
{
    let r = spec_add_name(s, token, name, pubkey).0;
    if !s.users.dom().contains(name) {
        assert forall|c: Seq<u8>, n: Seq<u8>|
            r.channels.dom().contains(c) && #[trigger] r.channels[c].contains(n) implies r.users.dom().contains(n)
            && r.users[n].channels.contains(c) by {
            assert(s.users.dom().contains(n));
        }
        assert forall|n: Seq<u8>, c: Seq<u8>|
            r.users.dom().contains(n) && #[trigger] r.users[n].channels.contains(c) implies r.channels.dom().contains(c)
            && r.channels[c].contains(n) by {
            if n == name {
                assert(r.users[n].channels =~= Seq::<Seq<u8>>::empty());
            }
        }
        assert forall|n: Seq<u8>| #[trigger] r.users.dom().contains(n) implies r.users[n].channels.no_duplicates() by {
            if n == name {
                assert(r.users[n].channels =~= Seq::<Seq<u8>>::empty());
            }
        }
        assert forall|t1: usize, t2: usize|
            #[trigger] r.conns.dom().contains(t1) && #[trigger] r.conns.dom().contains(t2) && r.conns[t1] is Some
                && r.conns[t1] == r.conns[t2] implies t1 == t2 by {
            if t1 != token && t2 != token {
            } else if t1 == token && t2 != token {
                assert(s.users.dom().contains(s.conns[t2]->0));
            } else if t2 == token && t1 != token {
                assert(s.users.dom().contains(s.conns[t1]->0));
            }
        }
    }
}

/// Joining keeps the invariant.
pub proof fn lemma_name_joins_inv(s: ServerView, name: Seq<u8>, channel: Seq<u8>)
    requires
        inv(s),
        s.users.dom().contains(name),
    ensures
        inv(spec_name_joins(s, name, channel).0),
{
    let m = members(s, channel);
    if !m.contains(name) {
        let r = spec_name_joins(s, name, channel).0;
        let u = s.users[name];
        assert(!u.channels.contains(channel));
        lemma_push_fresh(m, name);
        lemma_push_fresh(u.channels, channel);
        assert forall|c: Seq<u8>, n: Seq<u8>|
            r.channels.dom().contains(c) && #[trigger] r.channels[c].contains(n) implies r.users.dom().contains(n)
            && r.users[n].channels.contains(c) by {
            if c == channel {
                if n != name {
                    assert(m.contains(n));
                }
            }
        }
        assert forall|n: Seq<u8>, c: Seq<u8>|
            r.users.dom().contains(n) && #[trigger] r.users[n].channels.contains(c) implies r.channels.dom().contains(c)
            && r.channels[c].contains(n) by {
            if n == name && c != channel {
                assert(u.channels.contains(c));
            }
            if c == channel && n != name {
                assert(s.users[n].channels.contains(c));
            }
        }
    }
}

/// Leaving keeps the invariant.
pub proof fn lemma_name_leaves_inv(s: ServerView, name: Seq<u8>, channel: Seq<u8>)
    requires
        inv(s),
    ensures
        inv(spec_name_leaves(s, name, channel).0),
{
    if s.channels.dom().contains(channel) && s.channels[channel].contains(name) {
        let r = spec_name_leaves(s, name, channel).0;
        let u = s.users[name];
        lemma_without(s.channels[channel], name);
        lemma_without(u.channels, channel);
        assert forall|c: Seq<u8>, n: Seq<u8>|
            r.channels.dom().contains(c) && #[trigger] r.channels[c].contains(n) implies r.users.dom().contains(n)
            && r.users[n].channels.contains(c) by {
            if c == channel {
                assert(s.channels[c].contains(n));
            }
            if n == name {
                assert(s.channels[c].contains(n));
            }
        }
        assert forall|n: Seq<u8>, c: Seq<u8>|
            r.users.dom().contains(n) && #[trigger] r.users[n].channels.contains(c) implies r.channels.dom().contains(c)
            && r.channels[c].contains(n) by {
            if n == name {
                assert(u.channels.contains(c));
            }
            if c == channel {
                assert(s.users[n].channels.contains(c));
            }
        }
        assert forall|c: Seq<u8>| #[trigger] r.channels.dom().contains(c) implies r.channels[c].no_duplicates() by {
        }
        assert forall|n: Seq<u8>| #[trigger] r.users.dom().contains(n) implies r.users[n].channels.no_duplicates() by {
        }
    }
}

/// Quitting keeps the invariant.
pub proof fn lemma_name_quits_inv(s: ServerView, name: Seq<u8>)
    requires
        inv(s),
    ensures
        inv(spec_name_quits(s, name)),
{
    let r = spec_name_quits(s, name);
    assert forall|c: Seq<u8>| #[trigger] r.channels.dom().contains(c) implies r.channels[c].no_duplicates() by {
        lemma_without(s.channels[c], name);
    }
    assert forall|c: Seq<u8>, n: Seq<u8>|
        r.channels.dom().contains(c) && #[trigger] r.channels[c].contains(n) implies r.users.dom().contains(n)
        && r.users[n].channels.contains(c) by {
        lemma_without(s.channels[c], name);
        assert(r.channels[c] == without(s.channels[c], name));
        assert(n != name);
        assert(s.channels[c].contains(n));
        assert(s.users.dom().contains(n) && s.users[n].channels.contains(c));
        assert(r.users[n] == s.users[n]);
    }
    assert forall|n: Seq<u8>, c: Seq<u8>|
        r.users.dom().contains(n) && #[trigger] r.users[n].channels.contains(c) implies r.channels.dom().contains(c)
        && r.channels[c].contains(n) by {
        lemma_without(s.channels[c], name);
        assert(r.users[n] == s.users[n]);
        assert(s.channels[c].contains(n));
    }
    assert forall|t: usize| #[trigger] r.conns.dom().contains(t) && r.conns[t] is Some implies r.users.dom().contains(r.conns[t]->0) by {
        assert(s.conns[t] != Some(name));
    }
    assert forall|t1: usize, t2: usize|
        #[trigger] r.conns.dom().contains(t1) && #[trigger] r.conns.dom().contains(t2) && r.conns[t1] is Some
            && r.conns[t1] == r.conns[t2] implies t1 == t2 by {
        assert(s.conns[t1] == r.conns[t1] && s.conns[t2] == r.conns[t2]);
    }
}

/// Closing a connection keeps the invariant.
pub proof fn lemma_connection_closed_inv(s: ServerView, token: usize)
    requires
        inv(s),
        s.conns.dom().contains(token),
    ensures
        inv(spec_connection_closed(s, token)),
{
    let s1 = ServerView { conns: s.conns.remove(token), slab: spec_give_back(s.slab, token), ..s };
    assert(inv(s1));
    match s.conns[token] {
        Some(n) => {
            assert forall|t: usize| #[trigger] s1.conns.dom().contains(t) implies s1.conns[t] != Some(n) by {
            }
            lemma_name_quits_inv(s1, n);
        },
        None => {},
    }
}


// ---------------------------------------------------------------------------
// Handling messages.

/// A notice from the server.
pub open spec fn response(text: &str) -> MessageView {
    MessageView::Response { body: text.spec_bytes() }
}

/// A single notice to connection `token`.
pub open spec fn reply(token: usize, text: &str) -> Seq<DeliveryView> {
    seq![DeliveryView { token: token, msg: response(text) }]
}

/// A `Relay` of `body` from `source` to `dest`.
pub open spec fn relay(source: Seq<u8>, dest: Seq<u8>, body: Seq<u8>, nonce: Option<Seq<u8>>) -> MessageView {
    MessageView::Relay { source: source, dest: dest, body: body, nonce: nonce }
}

/// A `Register` request: refused with a notice when the name is taken.
pub open spec fn spec_handle_register(s: ServerView, token: usize, name: Seq<u8>, pubkey: Seq<u8>) -> (
    ServerView,
    Seq<DeliveryView>,
) {
    let (s1, ok) = spec_add_name(s, token, name, pubkey);
    (
        s1,
        if ok {
            Seq::empty()
        } else if s.users.dom().contains(name) {
            reply(token, "dude ur not them")
        } else if !valid_username(name) {
            reply(token, "that name is not allowed")
        } else {
            reply(token, "that key is taken")
        },
    )
}

/// Whether a `Send` from connection `token` to `dest` can be handled: the
/// connection has no name yet, or `dest` is a channel or a user.
pub open spec fn send_resolves(s: ServerView, token: usize, dest: Seq<u8>) -> bool {
    s.conns[token] is None || s.channels.dom().contains(dest) || s.users.dom().contains(dest)
}

/// A `Send` request: a connection without a name gets a notice; a channel's
/// members each get a relay addressed to the channel, in the order in which
/// they joined; a user gets a relay. Relays go to the connection that each
/// recipient registered on.
pub open spec fn spec_handle_send(
    s: ServerView,
    token: usize,
    dest: Seq<u8>,
    body: Seq<u8>,
    nonce: Option<Seq<u8>>,
) -> Seq<DeliveryView> {
    match s.conns[token] {
        None => reply(token, "this isnt 4chan"),
        Some(name) => if s.channels.dom().contains(dest) {
            s.channels[dest].map_values(
                |m: Seq<u8>| DeliveryView { token: s.users[m].token, msg: relay(name, dest, body, nonce) },
            )
        } else {
            seq![DeliveryView { token: s.users[dest].token, msg: relay(name, dest, body, nonce) }]
        },
    }
}

/// A `Relay` handed to the server: passed on to the user `dest`.
pub open spec fn spec_handle_relay(
    s: ServerView,
    source: Seq<u8>,
    dest: Seq<u8>,
    body: Seq<u8>,
    nonce: Option<Seq<u8>>,
) -> Seq<DeliveryView> {
    seq![DeliveryView { token: s.users[dest].token, msg: relay(source, dest, body, nonce) }]
}

/// A `Join` request from connection `token`.
pub open spec fn spec_handle_join(s: ServerView, token: usize, channel: Seq<u8>) -> (
    ServerView,
    Seq<DeliveryView>,
) {
    match s.conns[token] {
        Some(name) => {
            let (s1, ok) = spec_name_joins(s, name, channel);
            (
                s1,
                if ok {
                    Seq::empty()
                } else if !is_channel_name(channel) {
                    reply(token, "channels start with #")
                } else {
                    reply(token, "you're already there!!")
                },
            )
        },
        None => (s, reply(token, "who ARE u!?!")),
    }
}

/// A `Part` request from connection `token`.
pub open spec fn spec_handle_part(s: ServerView, token: usize, channel: Seq<u8>) -> (
    ServerView,
    Seq<DeliveryView>,
) {
    match s.conns[token] {
        Some(name) => {
            let (s1, ok) = spec_name_leaves(s, name, channel);
            (s1, if ok { Seq::empty() } else { reply(token, "you're not even there!!") })
        },
        None => (s, reply(token, "who ARE u!?!")),
    }
}

/// Whether a `Whois` from connection `token` for `name` can be handled: the
/// name is unknown, or the asking connection has registered a name.
pub open spec fn whois_resolves(s: ServerView, token: usize, name: Seq<u8>) -> bool {
    s.users.dom().contains(name) ==> s.conns[token] is Some
}

/// A `Whois` request: the asker gets the user's key, and the user gets the
/// asker's key; an unknown name gets a notice.
pub open spec fn spec_handle_whois(s: ServerView, token: usize, name: Seq<u8>) -> Seq<DeliveryView> {
    if s.users.dom().contains(name) {
        let asker = s.conns[token]->0;
        seq![
            DeliveryView {
                token: token,
                msg: MessageView::Theyare { name: name, pubkey: s.users[name].pubkey },
            },
            DeliveryView {
                token: s.users[name].token,
                msg: MessageView::Theyare { name: asker, pubkey: s.users[asker].pubkey },
            },
        ]
    } else {
        reply(token, "they don't exist")
    }
}

/// Why the server cannot handle an event.
#[derive(Debug, Clone, Copy, PartialEq, Eq)]
pub enum ServerFault {
    /// The frame read from a connection is no message.
    Decode(DecodeError),
    /// A `Send` or `Relay` names neither a channel nor a user.
    UnknownDestination,
    /// A connection without a name asked for a registered user's key.
    NotRegistered,
    /// An event came for a token that is no open connection.
    NotAConnection,
    /// The listening socket was reported writable.
    ListenerWritable,
}

/// What the server does with a message from connection `token`.
pub open spec fn spec_dispatch(s: ServerView, token: usize, m: MessageView) -> Result<
    (ServerView, Seq<DeliveryView>),
    ServerFault,
> {
    match m {
        MessageView::Register { name, pubkey } => Ok(spec_handle_register(s, token, name, pubkey)),
        MessageView::Send { dest, body, nonce } => if send_resolves(s, token, dest) {
            Ok((s, spec_handle_send(s, token, dest, body, nonce)))
        } else {
            Err(ServerFault::UnknownDestination)
        },
        MessageView::Relay { source, dest, body, nonce } => if s.users.dom().contains(dest) {
            Ok((s, spec_handle_relay(s, source, dest, body, nonce)))
        } else {
            Err(ServerFault::UnknownDestination)
        },
        MessageView::Join { channel } => Ok(spec_handle_join(s, token, channel)),
        MessageView::Part { channel } => Ok(spec_handle_part(s, token, channel)),
        MessageView::Response { body } => Ok((s, reply(token, "no ur a client"))),
        MessageView::Whois { name } => if whois_resolves(s, token, name) {
            Ok((s, spec_handle_whois(s, token, name)))
        } else {
            Err(ServerFault::NotRegistered)
        },
        MessageView::Theyare { name, pubkey } => Ok((s, reply(token, "i already NEW that"))),
    }
}

/// What the server does with a frame read from connection `token`.
pub open spec fn spec_forward(s: ServerView, token: usize, f: crate::util::FrameView) -> Result<
    (ServerView, Seq<DeliveryView>),
    ServerFault,
> {
    match spec_deserialize(f) {
        Err(e) => Err(ServerFault::Decode(e)),
        Ok(m) => spec_dispatch(s, token, m),
    }
}

/// What the event loop is to do next.
#[derive(Debug, Clone, Copy, PartialEq, Eq, Structural)]
pub enum Step {
    /// Stop the event loop.
    Shutdown,
    /// Forget the connection's socket.
    Close(usize),
    /// Write out what is queued on the connection.
    Flush(usize),
    /// Accept a new connection on the listening socket.
    Accept,
    /// Read a message from the connection and hand it to `forward`.
    Forward(usize),
}

/// What the server does when socket `token` is ready.
pub open spec fn spec_ready(s: ServerView, token: usize, ev: Events) -> Result<
    (ServerView, Seq<Step>),
    ServerFault,
> {
    if ev.error || ev.hup {
        if token == s.token {
            Ok((s, seq![Step::Shutdown]))
        } else if !s.conns.dom().contains(token) {
            Err(ServerFault::NotAConnection)
        } else {
            Ok((spec_connection_closed(s, token), seq![Step::Close(token)]))
        }
    } else if token != s.token && !s.conns.dom().contains(token) && (ev.writable || ev.readable) {
        Err(ServerFault::NotAConnection)
    } else if ev.writable && token == s.token {
        Err(ServerFault::ListenerWritable)
    } else {
        let w = if ev.writable { seq![Step::Flush(token)] } else { Seq::empty() };
        let r = if ev.readable {
            if token == s.token { seq![Step::Accept] } else { seq![Step::Forward(token)] }
        } else {
            Seq::empty()
        };
        Ok((s, w + r))
    }
}

/// In a duplicate-free sequence, taking out the first element leaves the rest.
proof fn lemma_without_first(s: Seq<Seq<u8>>, i: int)
    requires
        s.no_duplicates(),
        0 <= i < s.len(),
    ensures
        without(s.subrange(i, s.len() as int), s[i]) =~= s.subrange(i + 1, s.len() as int),
        s.subrange(i, s.len() as int).no_duplicates(),
{
    let t = s.subrange(i, s.len() as int);
    assert(t[0] == s[i]);
    assert(t.contains(s[i]));
    let j = t.index_of(s[i]);
    assert(0 <= j < t.len() && t[j] == s[i]);
    assert(s[i + j] == s[i]);
    assert(j == 0);
}

// ---------------------------------------------------------------------------
// Laws.

/// Taking out an element that was just appended gives back the sequence.
proof fn lemma_without_push(s: Seq<Seq<u8>>, x: Seq<u8>)
    requires
        !s.contains(x),
    ensures
        without(s.push(x), x) =~= s,
{
    let t = s.push(x);
    assert(t[s.len() as int] == x);
    assert(t.contains(x));
    let j = t.index_of(x);
    assert(0 <= j < t.len() && t[j] == x);
    if j < s.len() {
        assert(s[j] == x);
    }
    assert(j == s.len());
}

/// A free username with a key that no user holds can be registered;
/// afterwards it is the user with that key on that connection, and a `Whois`
/// for it from any registered connection answers that key.
pub proof fn lemma_register_then_whois(
    s: ServerView,
    token: usize,
    name: Seq<u8>,
    pubkey: Seq<u8>,
    asker: usize,
)
    requires
        inv(s),
        s.conns.dom().contains(token),
        !s.users.dom().contains(name),
        valid_username(name),
        !key_taken(s, pubkey),
    ensures
        ({
            let (s1, ok) = spec_add_name(s, token, name, pubkey);
            &&& ok
            &&& s1.users[name].pubkey == pubkey
            &&& s1.conns[token] == Some(name)
            &&& (s1.conns.dom().contains(asker) && s1.conns[asker] is Some ==> whois_resolves(s1, asker, name)
                && spec_handle_whois(s1, asker, name)[0] == (DeliveryView {
                token: asker,
                msg: MessageView::Theyare { name: name, pubkey: pubkey },
            }))
        }),
{
}

/// A `Register` is refused, changing nothing, exactly when the name is taken,
/// is no username, or its key is held by a user; each refusal is answered
/// with its notice to the asker.
pub proof fn lemma_register_refused(s: ServerView, token: usize, name: Seq<u8>, pubkey: Seq<u8>)
    ensures
        !spec_add_name(s, token, name, pubkey).1 <==> (s.users.dom().contains(name) || !valid_username(name)
            || key_taken(s, pubkey)),
        s.users.dom().contains(name) ==> spec_handle_register(s, token, name, pubkey) == (s, reply(token, "dude ur not them")),
        !s.users.dom().contains(name) && !valid_username(name) ==> spec_handle_register(s, token, name, pubkey) == (
            s,
            reply(token, "that name is not allowed"),
        ),
        !s.users.dom().contains(name) && valid_username(name) && key_taken(s, pubkey) ==> spec_handle_register(
            s,
            token,
            name,
            pubkey,
        ) == (s, reply(token, "that key is taken")),
{
}

/// A `Whois` for a registered user from a registered connection hands each
/// of the two the other's public key.
pub proof fn lemma_whois_exchanges_keys(s: ServerView, token: usize, name: Seq<u8>)
    requires
        inv(s),
        s.users.dom().contains(name),
        s.conns.dom().contains(token),
        s.conns[token] is Some,
    ensures
        ({
            let asker = s.conns[token]->0;
            let d = spec_handle_whois(s, token, name);
            &&& d.len() == 2
            &&& d[0] == (DeliveryView { token: token, msg: MessageView::Theyare { name: name, pubkey: s.users[name].pubkey } })
            &&& d[1] == (DeliveryView {
                token: s.users[name].token,
                msg: MessageView::Theyare { name: asker, pubkey: s.users[asker].pubkey },
            })
        }),
{
}

/// Joining is refused exactly when the name is no channel name or the user
/// is already a member, and then nothing changes.
pub proof fn lemma_join_refused_iff_member(s: ServerView, name: Seq<u8>, channel: Seq<u8>)
    ensures
        spec_name_joins(s, name, channel).1 == (is_channel_name(channel) && !members(s, channel).contains(name)),
        !spec_name_joins(s, name, channel).1 ==> spec_name_joins(s, name, channel).0 == s,
        spec_name_joins(s, name, channel).1 ==> spec_name_joins(s, name, channel).0.channels[channel] == members(
            s,
            channel,
        ).push(name),
{
}

/// Leaving is refused exactly when the user is not a member, and then
/// nothing changes; otherwise the user is no longer a member.
pub proof fn lemma_part_refused_iff_not_member(s: ServerView, name: Seq<u8>, channel: Seq<u8>)
    requires
        inv(s),
    ensures
        spec_name_leaves(s, name, channel).1 == members(s, channel).contains(name),
        !spec_name_leaves(s, name, channel).1 ==> spec_name_leaves(s, name, channel).0 == s,
        !members(spec_name_leaves(s, name, channel).0, channel).contains(name),
{
    if s.channels.dom().contains(channel) {
        lemma_without(s.channels[channel], name);
    }
}

/// Joining a channel and then leaving it gives back the users and the
/// channel's members as they were (a channel made by the join stays, empty).
pub proof fn lemma_join_then_part(s: ServerView, name: Seq<u8>, channel: Seq<u8>)
    requires
        inv(s),
        s.users.dom().contains(name),
        is_channel_name(channel),
        !members(s, channel).contains(name),
    ensures
        ({
            let (s1, ok1) = spec_name_joins(s, name, channel);
            let (s2, ok2) = spec_name_leaves(s1, name, channel);
            &&& ok1
            &&& ok2
            &&& s2.users == s.users
            &&& s2.channels == s.channels.insert(channel, members(s, channel))
            &&& s2.conns == s.conns
        }),
{
    let m = members(s, channel);
    let u = s.users[name];
    assert(!u.channels.contains(channel));
    let (s1, ok1) = spec_name_joins(s, name, channel);
    lemma_push_fresh(m, name);
    lemma_without_push(m, name);
    lemma_without_push(u.channels, channel);
    let (s2, ok2) = spec_name_leaves(s1, name, channel);
    assert(s2.users[name] =~= u);
    assert(s2.users =~= s.users);
    assert(s2.channels =~= s.channels.insert(channel, m));
}

/// After a user quits it is no longer registered, in no channel and on no
/// connection; every other user, membership and connection stays as it was.
pub proof fn lemma_quit_leaves_nothing(s: ServerView, name: Seq<u8>)
    requires
        inv(s),
    ensures
        ({
            let s1 = spec_name_quits(s, name);
            &&& !s1.users.dom().contains(name)
            &&& s1.channels.dom() == s.channels.dom()
            &&& forall|c: Seq<u8>| #[trigger] s1.channels.dom().contains(c) ==> !s1.channels[c].contains(name)
            &&& forall|c: Seq<u8>, n: Seq<u8>|
                n != name && #[trigger] s1.channels.dom().contains(c) ==> (#[trigger] s1.channels[c].contains(n)
                    <==> s.channels[c].contains(n))
            &&& forall|n: Seq<u8>| n != name ==> #[trigger] s1.users.dom().contains(n) == s.users.dom().contains(n)
            &&& s1.conns.dom() == s.conns.dom()
            &&& forall|t: usize| #[trigger] s1.conns.dom().contains(t) ==> s1.conns[t] != Some(name) && (s.conns[t] != Some(
                name) ==> s1.conns[t] == s.conns[t])
        }),
{
    let s1 = spec_name_quits(s, name);
    assert(s1.conns.dom() =~= s.conns.dom());
    assert forall|c: Seq<u8>| #[trigger] s1.channels.dom().contains(c) implies !s1.channels[c].contains(name) by {
        lemma_without(s.channels[c], name);
    }
    assert forall|c: Seq<u8>, n: Seq<u8>|
        n != name && #[trigger] s1.channels.dom().contains(c) implies (#[trigger] s1.channels[c].contains(n)
            <==> s.channels[c].contains(n)) by {
        lemma_without(s.channels[c], name);
    }
    assert(s1.channels.dom() =~= s.channels.dom());
}

/// A `Send` to a channel from a registered connection gives one relay to
/// each member, in the order in which they joined, and to no one else: the
/// relay names the sender and the channel and carries the body, and goes to
/// the member's connection.
pub proof fn lemma_send_reaches_members(
    s: ServerView,
    token: usize,
    dest: Seq<u8>,
    body: Seq<u8>,
    nonce: Option<Seq<u8>>,
)
    requires
        inv(s),
        s.conns.dom().contains(token),
        s.conns[token] is Some,
        s.channels.dom().contains(dest),
    ensures
        ({
            let d = spec_handle_send(s, token, dest, body, nonce);
            let m = s.channels[dest];
            &&& d.len() == m.len()
            &&& forall|i: int|
                0 <= i < d.len() ==> #[trigger] d[i] == (DeliveryView {
                    token: s.users[m[i]].token,
                    msg: relay(s.conns[token]->0, dest, body, nonce),
                })
            &&& forall|n: Seq<u8>| #[trigger] m.contains(n) ==> s.users.dom().contains(n)
        }),
{
}

/// A connection that fails or hangs up is closed, and the user on it quits:
/// its name is no longer registered, is in no channel and on no connection,
/// and its key is free again; every other user stays. An error does exactly
/// what a hang-up does.
pub proof fn lemma_failed_connection_quits(s: ServerView, token: usize, ev: Events)
    requires
        inv(s),
        s.conns.dom().contains(token),
        ev.error || ev.hup,
    ensures
        spec_ready(s, token, ev) == spec_ready(s, token, Events { error: false, hup: true, writable: false, readable: false }),
        match spec_ready(s, token, ev) {
            Ok((s1, steps)) => {
                &&& steps == seq![Step::Close(token)]
                &&& !s1.conns.dom().contains(token)
                &&& forall|n: Seq<u8>| s.conns[token] != Some(n) ==> #[trigger] s1.users.dom().contains(n) == s.users.dom().contains(n)
                &&& s.conns[token] matches Some(n) ==> {
                    &&& !s1.users.dom().contains(n)
                    &&& !key_taken(s1, s.users[n].pubkey)
                    &&& forall|c: Seq<u8>| #[trigger] s1.channels.dom().contains(c) ==> !s1.channels[c].contains(n)
                    &&& forall|t: usize| #[trigger] s1.conns.dom().contains(t) ==> s1.conns[t] != Some(n)
                }
            },
            Err(_) => false,
        },
{
    assert(token != s.token);
    let s0 = ServerView { conns: s.conns.remove(token), slab: spec_give_back(s.slab, token), ..s };
    assert(inv(s0));
    match s.conns[token] {
        Some(n) => {
            lemma_quit_leaves_nothing(s0, n);
            let s1 = spec_name_quits(s0, n);
            assert(s.users.dom().contains(n));
            if key_taken(s1, s.users[n].pubkey) {
                let m = choose|m: Seq<u8>| #[trigger] s1.users.dom().contains(m) && s1.users[m].pubkey == s.users[n].pubkey;
                assert(m != n);
                assert(s.users.dom().contains(m));
                assert(s.users[m].pubkey == s.users[n].pubkey);
            }
        },
        None => {},
    }
}

/// Handling the frame of a message is handling the message.
pub proof fn lemma_forward_frame(s: ServerView, token: usize, m: MessageView)
    ensures
        spec_forward(s, token, crate::util::spec_serialize(m)) == spec_dispatch(s, token, m),
{
    crate::util::lemma_deserialize_serialize(m);
}

// ---------------------------------------------------------------------------
// The state.

/// The chat server.
pub struct Server {
    token: usize,
    channels: NameMap<NameSet>,
    users: NameMap<User>,
    conns: ConnTable,
    slab: TokenSlab,
}

impl View for Server {
    type V = ServerView;

    closed spec fn view(&self) -> ServerView {
        ServerView {
            token: self.token,
            channels: self.channels@,
            users: self.users@,
            conns: self.conns@,
            slab: self.slab@,
        }
    }
}

impl Server {
    /// The server's tables are consistent.
    pub closed spec fn wf(&self) -> bool {
        &&& self.channels.wf()
        &&& self.users.wf()
        &&& self.conns.wf()
        &&& self.token == 1
        &&& inv(self@)
        &&& slab_wf(self@.slab)
        &&& conns_agree(self@)
    }

    /// What a consistent server holds: the invariant of its tables, the
    /// listening token, and open connections exactly on the tokens in use.
    pub proof fn lemma_wf(&self)
        requires
            self.wf(),
        ensures
            inv(self@),
            self@.token == 1,
            slab_wf(self@.slab),
            conns_agree(self@),
    {
    }

    /// A server with no users, channels or connections, listening on token 1.
    pub fn new() -> (r: Server)
        ensures
            r.wf(),
            r@.token == 1,
            r@.channels == Map::<Seq<u8>, Seq<Seq<u8>>>::empty(),
            r@.users == Map::<Seq<u8>, UserView>::empty(),
            r@.conns == Map::<usize, Option<Seq<u8>>>::empty(),
            r@.slab == empty_slab(),
    {
        Server {
            token: 1,
            channels: NameMap::new(),
            users: NameMap::new(),
            conns: ConnTable::new(),
            slab: TokenSlab::new(),
        }
    }

    /// The token of the listening socket.
    pub fn token(&self) -> (r: usize)
        ensures
            r == self@.token,
    {
        self.token
    }

    /// Whether `token` is an open connection.
    pub fn is_connection(&self, token: usize) -> (r: bool)
        requires
            self.wf(),
        ensures
            r == self@.conns.dom().contains(token),
    {
        self.conns.contains(token)
    }

    /// A connection was accepted on the listening socket: it gets the token
    /// that the slab hands out, with no name; `None` when every token is in use.
    pub fn accept(&mut self) -> (r: Option<usize>)
        requires
            old(self).wf(),
        ensures
            final(self).wf(),
            (final(self)@, r) == spec_accept(old(self)@),
            r matches Some(t) ==> FIRST_TOKEN <= t < FIRST_TOKEN + CAPACITY && !old(self)@.conns.dom().contains(t),
            r is None ==> forall|u: usize|
                FIRST_TOKEN <= u < FIRST_TOKEN + CAPACITY ==> #[trigger] old(self)@.conns.dom().contains(u),
    {
        let ghost s = self@;
        proof {
            lemma_take(s.slab);
        }
        match self.slab.take() {
            Some(t) => {
                assert(!s.conns.dom().contains(t));
                self.conns.open(t);
                proof {
                    let s1 = self@;
                    assert(s1 =~= spec_accept(s).0);
                    assert forall|t1: usize, t2: usize|
                        #[trigger] s1.conns.dom().contains(t1) && #[trigger] s1.conns.dom().contains(t2) && s1.conns[t1] is Some
                            && s1.conns[t1] == s1.conns[t2] implies t1 == t2 by {
                        if t1 != t && t2 != t {
                            assert(s.conns.dom().contains(t1) && s.conns.dom().contains(t2));
                        }
                    }
                    assert forall|u: usize| #[trigger] s1.conns.dom().contains(u) <==> in_use(s1.slab, u) by {
                        if u != t {
                            assert(s.conns.dom().contains(u) <==> in_use(s.slab, u));
                        }
                    }
                }
                Some(t)
            },
            None => None,
        }
    }

    /// Whether some user holds `pubkey`.
    fn key_taken_exec(&self, pubkey: &[u8]) -> (r: bool)
        requires
            self.wf(),
        ensures
            r == key_taken(self@, pubkey@),
    {
        proof {
            self.users.lemma_entries();
        }
        let mut i: usize = 0;
        while i < self.users.len()
            invariant
                self.wf(),
                i <= self.users.names().len(),
                forall|j: int| 0 <= j < i ==> #[trigger] self.users.value_at(j)@.pubkey != pubkey@,
            decreases self.users.names().len() - i,
        {
            if bytes_eq(self.users.value(i).pubkey.as_slice(), pubkey) {
                proof {
                    self.users.lemma_entries();
                    let n = self.users.names()[i as int];
                    assert(self@.users.dom().contains(n) && self@.users[n] == self.users.value_at(i as int)@);
                }
                return true;
            }
            i = i + 1;
        }
        proof {
            self.users.lemma_entries();
            assert forall|n: Seq<u8>| #[trigger] self@.users.dom().contains(n) implies self@.users[n].pubkey != pubkey@ by {
                let j = choose|j: int| 0 <= j < self.users.names().len() && self.users.names()[j] == n;
                assert(self@.users.dom().contains(self.users.names()[j]));
                assert(self.users.value_at(j)@.pubkey != pubkey@);
            }
        }
        false
    }

    /// A new user is trying to register: adds `name` with `pubkey` unless the
    /// name is taken or is no username, or another user holds `pubkey`, and
    /// records it as the name on connection `token`.
    pub fn add_name(&mut self, token: usize, name: &[u8], pubkey: &[u8]) -> (r: Option<()>)
        requires
            old(self).wf(),
            registers(old(self)@, name@, pubkey@) ==> old(self)@.conns.dom().contains(token),
        ensures
            final(self).wf(),
            (final(self)@, r is Some) == spec_add_name(old(self)@, token, name@, pubkey@),
    {
        proof {
            lemma_add_name_inv(self@, token, name@, pubkey@);
        }
        if self.users.contains_key(name) || !valid_username_exec(name) || self.key_taken_exec(pubkey) {
            return None;
        }
        let user = User { pubkey: copy_bytes(pubkey), channels: NameSet::new(), token };
        self.users.insert(name, user);
        self.conns.set_name(token, name);
        assert(self@ =~= spec_add_name(old(self)@, token, name@, pubkey@).0);
        Some(())
    }

    /// A user is joining a channel, which is made when it does not exist;
    /// refused when the name is no channel name or the user is a member.
    pub fn name_joins(&mut self, name: &[u8], channel: &[u8]) -> (r: Option<()>)
        requires
            old(self).wf(),
            old(self)@.users.dom().contains(name@),
        ensures
            final(self).wf(),
            (final(self)@, r is Some) == spec_name_joins(old(self)@, name@, channel@),
    {
        let ghost s = self@;
        proof {
            lemma_name_joins_inv(s, name@, channel@);
        }
        if !is_channel_name_exec(channel) {
            return None;
        }
        let mut chan = match self.channels.take(channel) {
            Some(c) => c,
            None => NameSet::new(),
        };
        assert(chan@ == members(s, channel@));
        if chan.contains(name) {
            self.channels.insert(channel, chan);
            assert(self@ =~= s);
            return None;
        }
        chan.insert(name);
        self.channels.insert(channel, chan);
        match self.users.take(name) {
            Some(user) => {
                let mut user = user;
                user.channels.insert(channel);
                self.users.insert(name, user);
            },
            None => {},
        }
        assert(self@ =~= spec_name_joins(s, name@, channel@).0);
        Some(())
    }

    /// A user is leaving a channel.
    pub fn name_leaves(&mut self, name: &[u8], channel: &[u8]) -> (r: Option<()>)
        requires
            old(self).wf(),
        ensures
            final(self).wf(),
            (final(self)@, r is Some) == spec_name_leaves(old(self)@, name@, channel@),
    {
        let ghost s = self@;
        proof {
            lemma_name_leaves_inv(s, name@, channel@);
        }
        let mut chan = match self.channels.take(channel) {
            None => {
                assert(self@ =~= s);
                return None;
            },
            Some(c) => c,
        };
        if !chan.remove(name) {
            self.channels.insert(channel, chan);
            assert(self@ =~= s);
            return None;
        }
        self.channels.insert(channel, chan);
        match self.users.take(name) {
            Some(user) => {
                let mut user = user;
                let had = user.channels.remove(channel);
                self.users.insert(name, user);
                if !had {
                    assert(self@ =~= spec_name_leaves(s, name@, channel@).0);
                    return None;
                }
            },
            None => {},
        }
        assert(self@ =~= spec_name_leaves(s, name@, channel@).0);
        Some(())
    }

    /// A user quits the server: leaves all its channels, is no longer
    /// registered, and is cleared from the connection that carries it.
    pub fn name_quits(&mut self, name: &[u8])
        requires
            old(self).wf(),
            old(self)@.users.dom().contains(name@),
        ensures
            final(self).wf(),
            final(self)@ == spec_name_quits(old(self)@, name@),
    {
        let ghost s = self@;
        let ghost u = s.users[name@];
        proof {
            lemma_name_quits_inv(s, name@);
        }
        let chans = match self.users.get(name) {
            Some(user) => user.channels.copy(),
            None => NameSet::new(),
        };
        let ghost cs = chans@;
        assert(cs == u.channels);
        let mut i: usize = 0;
        while i < chans.len()
            invariant
                self.wf(),
                chans@ == cs,
                cs == u.channels,
                cs.no_duplicates(),
                s.users.dom().contains(name@),
                u == s.users[name@],
                i <= cs.len(),
                self@.token == s.token,
                self@.conns == s.conns,
                self@.slab == s.slab,
                self@.users.dom() == s.users.dom(),
                forall|n: Seq<u8>| n != name@ ==> #[trigger] self@.users[n] == s.users[n],
                self@.users[name@] == (UserView { channels: cs.subrange(i as int, cs.len() as int), ..u }),
                self@.channels.dom() == s.channels.dom(),
                forall|c: Seq<u8>|
                    #[trigger] self@.channels[c] == (if cs.subrange(0, i as int).contains(c) {
                        without(s.channels[c], name@)
                    } else {
                        s.channels[c]
                    }),
            decreases cs.len() - i,
        {
            let ghost before = self@;
            let c = chans.get(i);
            proof {
                lemma_without_first(cs, i as int);
                assert(cs.subrange(i as int, cs.len() as int)[0] == cs[i as int]);
                assert(before.users[name@].channels.contains(cs[i as int]));
                assert(!cs.subrange(0, i as int).contains(cs[i as int]));
            }
            self.name_leaves(name, c.as_slice());
            proof {
                assert forall|c2: Seq<u8>| #[trigger] self@.channels[c2] == (if cs.subrange(0, i + 1).contains(c2) {
                    without(s.channels[c2], name@)
                } else {
                    s.channels[c2]
                }) by {
                    if c2 == cs[i as int] {
                        assert(cs.subrange(0, i + 1)[i as int] == c2);
                    } else {
                        let pre1 = cs.subrange(0, i + 1);
                        let pre0 = cs.subrange(0, i as int);
                        if pre1.contains(c2) {
                            let k = choose|k: int| 0 <= k < pre1.len() && pre1[k] == c2;
                            assert(pre0[k] == c2);
                        }
                        if pre0.contains(c2) {
                            let k = choose|k: int| 0 <= k < pre0.len() && pre0[k] == c2;
                            assert(pre1[k] == c2);
                        }
                    }
                }
                assert(self@.users[name@] =~= (UserView { channels: cs.subrange(i + 1, cs.len() as int), ..u }));
            }
            i = i + 1;
        }
        let ghost mid = self@;
        self.users.remove(name);
        self.conns.clear_name(name);
        proof {
            let target = spec_name_quits(s, name@);
            assert(self@.conns =~= target.conns);
            assert forall|t: usize| #[trigger] self@.conns.dom().contains(t) <==> in_use(self@.slab, t) by {
                assert(s.conns.dom().contains(t) <==> in_use(s.slab, t));
            }
            assert forall|c: Seq<u8>| #[trigger] target.channels.dom().contains(c) implies self@.channels[c] == target.channels[c] by {
                assert(cs.subrange(0, cs.len() as int) =~= cs);
                if !cs.contains(c) {
                    assert(!s.channels[c].contains(name@));
                }
            }
            assert(self@.channels =~= target.channels);
            assert(self@.users =~= target.users);
            assert(self@ =~= target);
        }
    }

    /// Connection `token` went away: the name registered on it quits.
    pub fn connection_closed(&mut self, token: usize)
        requires
            old(self).wf(),
            old(self)@.conns.dom().contains(token),
        ensures
            final(self).wf(),
            final(self)@ == spec_connection_closed(old(self)@, token),
    {
        let ghost s = self@;
        proof {
            lemma_connection_closed_inv(s, token);
        }
        assert(in_use(s.slab, token));
        proof {
            lemma_give_back(s.slab, token);
        }
        let name = self.conns.close(token);
        self.slab.give_back(token);
        proof {
            let s1 = self@;
            assert(s1 =~= ServerView { conns: s.conns.remove(token), slab: spec_give_back(s.slab, token), ..s });
            assert forall|u: usize| #[trigger] s1.conns.dom().contains(u) <==> in_use(s1.slab, u) by {
                if u != token {
                    assert(s.conns.dom().contains(u) <==> in_use(s.slab, u));
                }
            }
            assert forall|t1: usize, t2: usize|
                #[trigger] s1.conns.dom().contains(t1) && #[trigger] s1.conns.dom().contains(t2) && s1.conns[t1] is Some
                    && s1.conns[t1] == s1.conns[t2] implies t1 == t2 by {
                assert(s.conns.dom().contains(t1) && s.conns.dom().contains(t2));
            }
        }
        match name {
            Some(n) => {
                proof {
                    assert forall|t: usize| #[trigger] self@.conns.dom().contains(t) implies self@.conns[t] != Some(n@) by {
                        assert(s.conns.dom().contains(t));
                    }
                }
                self.name_quits(n.as_slice());
            },
            None => {},
        }
    }
}

/// Whether `name` is a username.
pub fn valid_username_exec(name: &[u8]) -> (r: bool)
    ensures
        r == valid_username(name@),
{
    if name.len() < 3 || name.len() > 32 {
        return false;
    }
    let mut i: usize = 0;
    while i < name.len()
        invariant
            i <= name@.len(),
            forall|j: int| 0 <= j < i ==> 0x20 <= #[trigger] name@[j] <= 0x7e,
        decreases name@.len() - i,
    {
        if name[i] < 0x20 || name[i] > 0x7e {
            return false;
        }
        i = i + 1;
    }
    true
}

/// Whether `channel` is a channel name.
pub fn is_channel_name_exec(channel: &[u8]) -> (r: bool)
    ensures
        r == is_channel_name(channel@),
{
    channel.len() > 0 && channel[0] == 0x23
}

fn text_bytes(text: &str) -> (r: Vec<u8>)
    ensures
        r@ == text.spec_bytes(),
{
    copy_bytes(text.as_bytes())
}

fn reply_to(token: usize, text: &str) -> (r: Vec<Delivery>)
    ensures
        deliveries_view(r@) == reply(token, text),
{
    let d = Delivery { token, msg: Message::Response { body: text_bytes(text) } };
    let r = vec![d];
    assert(deliveries_view(r@) =~= reply(token, text));
    r
}

fn opt_slice_copy(o: Option<&[u8]>) -> (r: Option<Vec<u8>>)
    ensures
        opt_view(r) == slice_opt_view(o),
{
    match o {
        Some(b) => Some(copy_bytes(b)),
        None => None,
    }
}

fn relay_msg(source: &[u8], dest: &[u8], body: &[u8], nonce: Option<&[u8]>) -> (r: Message)
    ensures
        r@ == relay(source@, dest@, body@, slice_opt_view(nonce)),
{
    Message::Relay {
        source: copy_bytes(source),
        dest: copy_bytes(dest),
        body: copy_bytes(body),
        nonce: opt_slice_copy(nonce),
    }
}

impl Server {
    /// Handles a `Register` from connection `token`.
    pub fn handle_register(&mut self, token: usize, name: &[u8], pubkey: &[u8]) -> (r: Vec<Delivery>)
        requires
            old(self).wf(),
            old(self)@.conns.dom().contains(token),
        ensures
            final(self).wf(),
            (final(self)@, deliveries_view(r@)) == spec_handle_register(old(self)@, token, name@, pubkey@),
    {
        match self.add_name(token, name, pubkey) {
            Some(()) => {
                let r: Vec<Delivery> = Vec::new();
                assert(deliveries_view(r@) =~= Seq::<DeliveryView>::empty());
                r
            },
            None => if self.users.contains_key(name) {
                reply_to(token, "dude ur not them")
            } else if !valid_username_exec(name) {
                reply_to(token, "that name is not allowed")
            } else {
                reply_to(token, "that key is taken")
            },
        }
    }

    /// Handles a `Send` from connection `token`.
    pub fn handle_send(&self, token: usize, dest: &[u8], body: &[u8], nonce: Option<&[u8]>) -> (r: Vec<Delivery>)
        requires
            self.wf(),
            self@.conns.dom().contains(token),
            send_resolves(self@, token, dest@),
        ensures
            deliveries_view(r@) == spec_handle_send(self@, token, dest@, body@, slice_opt_view(nonce)),
    {
        let name = match self.conns.name(token) {
            Some(Some(n)) => n,
            _ => {
                return reply_to(token, "this isnt 4chan");
            },
        };
        let ghost s = self@;
        match self.channels.get(dest) {
            Some(chanlist) => {
                let ghost ms = chanlist@;
                let mut out: Vec<Delivery> = Vec::new();
                let mut i: usize = 0;
                while i < chanlist.len()
                    invariant
                        self.wf(),
                        s == self@,
                        ms == chanlist@,
                        s.channels.dom().contains(dest@),
                        ms == s.channels[dest@],
                        i <= ms.len(),
                        deliveries_view(out@) == ms.subrange(0, i as int).map_values(
                            |m: Seq<u8>| DeliveryView { token: s.users[m].token, msg: relay(name@, dest@, body@, slice_opt_view(nonce)) },
                        ),
                    decreases ms.len() - i,
                {
                    let member = chanlist.get(i);
                    proof {
                        assert(ms.contains(ms[i as int]));
                    }
                    let user = match self.users.get(member.as_slice()) {
                        Some(u) => u,
                        None => {
                            return out;
                        },
                    };
                    let d = Delivery { token: user.token, msg: relay_msg(name.as_slice(), dest, body, nonce) };
                    let ghost before = out@;
                    out.push(d);
                    i = i + 1;
                    proof {
                        assert(deliveries_view(out@) =~= deliveries_view(before).push(d@));
                        assert(ms.subrange(0, i as int) =~= ms.subrange(0, i - 1).push(ms[i - 1]));
                        assert(deliveries_view(out@) =~= ms.subrange(0, i as int).map_values(
                            |m: Seq<u8>| DeliveryView { token: s.users[m].token, msg: relay(name@, dest@, body@, slice_opt_view(nonce)) },
                        ));
                    }
                }
                assert(ms.subrange(0, ms.len() as int) =~= ms);
                out
            },
            None => {
                let user = match self.users.get(dest) {
                    Some(u) => u,
                    None => {
                        return Vec::new();
                    },
                };
                let d = Delivery { token: user.token, msg: relay_msg(name.as_slice(), dest, body, nonce) };
                let out = vec![d];
                assert(deliveries_view(out@) =~= spec_handle_send(s, token, dest@, body@, slice_opt_view(nonce)));
                out
            },
        }
    }

    /// Handles a `Relay` handed to the server: passes it on to `dest`.
    pub fn handle_relay(&self, token: usize, source: &[u8], dest: &[u8], body: &[u8], nonce: Option<&[u8]>) -> (r: Vec<Delivery>)
        requires
            self.wf(),
            self@.users.dom().contains(dest@),
        ensures
            deliveries_view(r@) == spec_handle_relay(self@, source@, dest@, body@, slice_opt_view(nonce)),
    {
        match self.users.get(dest) {
            Some(user) => {
                let out = vec![Delivery { token: user.token, msg: relay_msg(source, dest, body, nonce) }];
                assert(deliveries_view(out@) =~= spec_handle_relay(self@, source@, dest@, body@, slice_opt_view(nonce)));
                out
            },
            None => Vec::new(),
        }
    }

    /// Handles a `Join` from connection `token`.
    pub fn handle_join(&mut self, token: usize, channel: &[u8]) -> (r: Vec<Delivery>)
        requires
            old(self).wf(),
            old(self)@.conns.dom().contains(token),
        ensures
            final(self).wf(),
            (final(self)@, deliveries_view(r@)) == spec_handle_join(old(self)@, token, channel@),
    {
        match self.conns.name(token) {
            Some(Some(name)) => match self.name_joins(name.as_slice(), channel) {
                Some(()) => {
                    let r: Vec<Delivery> = Vec::new();
                    assert(deliveries_view(r@) =~= Seq::<DeliveryView>::empty());
                    r
                },
                None => if !is_channel_name_exec(channel) {
                    reply_to(token, "channels start with #")
                } else {
                    reply_to(token, "you're already there!!")
                },
            },
            _ => reply_to(token, "who ARE u!?!"),
        }
    }

    /// Handles a `Part` from connection `token`.
    pub fn handle_part(&mut self, token: usize, channel: &[u8]) -> (r: Vec<Delivery>)
        requires
            old(self).wf(),
            old(self)@.conns.dom().contains(token),
        ensures
            final(self).wf(),
            (final(self)@, deliveries_view(r@)) == spec_handle_part(old(self)@, token, channel@),
    {
        match self.conns.name(token) {
            Some(Some(name)) => match self.name_leaves(name.as_slice(), channel) {
                Some(()) => {
                    let r: Vec<Delivery> = Vec::new();
                    assert(deliveries_view(r@) =~= Seq::<DeliveryView>::empty());
                    r
                },
                None => reply_to(token, "you're not even there!!"),
            },
            _ => reply_to(token, "who ARE u!?!"),
        }
    }

    /// Handles a `Response` sent to the server: clients get no say there.
    pub fn handle_response(&self, token: usize, body: &[u8]) -> (r: Vec<Delivery>)
        ensures
            deliveries_view(r@) == reply(token, "no ur a client"),
    {
        reply_to(token, "no ur a client")
    }

    /// Handles a `Whois` from connection `token`.
    pub fn handle_whois(&self, token: usize, name: &[u8]) -> (r: Vec<Delivery>)
        requires
            self.wf(),
            self@.conns.dom().contains(token),
            whois_resolves(self@, token, name@),
        ensures
            deliveries_view(r@) == spec_handle_whois(self@, token, name@),
    {
        match self.users.get(name) {
            Some(user) => {
                let asker = match self.conns.name(token) {
                    Some(Some(n)) => n,
                    _ => {
                        return Vec::new();
                    },
                };
                let asker_key = match self.users.get(asker.as_slice()) {
                    Some(a) => copy_bytes(a.pubkey.as_slice()),
                    None => {
                        return Vec::new();
                    },
                };
                let first = Delivery {
                    token,
                    msg: Message::Theyare { name: copy_bytes(name), pubkey: copy_bytes(user.pubkey.as_slice()) },
                };
                let second = Delivery { token: user.token, msg: Message::Theyare { name: asker, pubkey: asker_key } };
                let out = vec![first, second];
                assert(deliveries_view(out@) =~= spec_handle_whois(self@, token, name@));
                out
            },
            None => reply_to(token, "they don't exist"),
        }
    }

    /// Handles a `Theyare` sent to the server: it already knows every key.
    pub fn handle_theyare(&self, token: usize, name: &[u8], pubkey: &[u8]) -> (r: Vec<Delivery>)
        ensures
            deliveries_view(r@) == reply(token, "i already NEW that"),
    {
        reply_to(token, "i already NEW that")
    }
}

fn opt_as_slice(o: &Option<Vec<u8>>) -> (r: Option<&[u8]>)
    ensures
        slice_opt_view(r) == opt_view(*o),
{
    match o {
        Some(v) => Some(v.as_slice()),
        None => None,
    }
}

impl Server {
    /// Whether a `Send` from connection `token` to `dest` can be handled.
    pub fn send_resolves(&self, token: usize, dest: &[u8]) -> (r: bool)
        requires
            self.wf(),
            self@.conns.dom().contains(token),
        ensures
            r == send_resolves(self@, token, dest@),
    {
        match self.conns.name(token) {
            Some(Some(_)) => self.channels.contains_key(dest) || self.users.contains_key(dest),
            _ => true,
        }
    }

    /// Whether a `Whois` from connection `token` for `name` can be handled.
    pub fn whois_resolves(&self, token: usize, name: &[u8]) -> (r: bool)
        requires
            self.wf(),
            self@.conns.dom().contains(token),
        ensures
            r == whois_resolves(self@, token, name@),
    {
        if self.users.contains_key(name) {
            match self.conns.name(token) {
                Some(Some(_)) => true,
                _ => false,
            }
        } else {
            true
        }
    }

    /// Handles a message from connection `token`; fails, changing nothing,
    /// where the message cannot be handled.
    pub fn dispatch(&mut self, token: usize, msg: &Message) -> (r: Result<Vec<Delivery>, ServerFault>)
        requires
            old(self).wf(),
            old(self)@.conns.dom().contains(token),
        ensures
            final(self).wf(),
            match r {
                Ok(d) => spec_dispatch(old(self)@, token, msg@) == Ok::<(ServerView, Seq<DeliveryView>), ServerFault>((final(self)@, deliveries_view(d@))),
                Err(e) => spec_dispatch(old(self)@, token, msg@) == Err::<(ServerView, Seq<DeliveryView>), ServerFault>(e) && final(self)@ == old(self)@,
            },
    {
        match msg {
            Message::Register { name, pubkey } => Ok(self.handle_register(token, name.as_slice(), pubkey.as_slice())),
            Message::Send { dest, body, nonce } => {
                if self.send_resolves(token, dest.as_slice()) {
                    Ok(self.handle_send(token, dest.as_slice(), body.as_slice(), opt_as_slice(nonce)))
                } else {
                    Err(ServerFault::UnknownDestination)
                }
            },
            Message::Relay { source, dest, body, nonce } => {
                if self.users.contains_key(dest.as_slice()) {
                    Ok(self.handle_relay(token, source.as_slice(), dest.as_slice(), body.as_slice(), opt_as_slice(nonce)))
                } else {
                    Err(ServerFault::UnknownDestination)
                }
            },
            Message::Join { channel } => Ok(self.handle_join(token, channel.as_slice())),
            Message::Part { channel } => Ok(self.handle_part(token, channel.as_slice())),
            Message::Response { body } => Ok(self.handle_response(token, body.as_slice())),
            Message::Whois { name } => {
                if self.whois_resolves(token, name.as_slice()) {
                    Ok(self.handle_whois(token, name.as_slice()))
                } else {
                    Err(ServerFault::NotRegistered)
                }
            },
            Message::Theyare { name, pubkey } => Ok(self.handle_theyare(token, name.as_slice(), pubkey.as_slice())),
        }
    }

    /// Handles a frame read from connection `token`; fails, changing nothing,
    /// where it carries no message or one that cannot be handled.
    pub fn forward(&mut self, token: usize, frame: &Frame) -> (r: Result<Vec<Delivery>, ServerFault>)
        requires
            old(self).wf(),
            old(self)@.conns.dom().contains(token),
        ensures
            final(self).wf(),
            match r {
                Ok(d) => spec_forward(old(self)@, token, frame@) == Ok::<(ServerView, Seq<DeliveryView>), ServerFault>((final(self)@, deliveries_view(d@))),
                Err(e) => spec_forward(old(self)@, token, frame@) == Err::<(ServerView, Seq<DeliveryView>), ServerFault>(e) && final(self)@ == old(self)@,
            },
    {
        match deserialize(frame) {
            Err(e) => Err(ServerFault::Decode(e)),
            Ok(msg) => self.dispatch(token, &msg),
        }
    }

    /// Decides what to do when socket `token` is ready; a connection that
    /// failed or hung up is closed and the name on it quits.
    pub fn ready(&mut self, token: usize, events: Events) -> (r: Result<Vec<Step>, ServerFault>)
        requires
            old(self).wf(),
        ensures
            final(self).wf(),
            match r {
                Ok(steps) => spec_ready(old(self)@, token, events) == Ok::<(ServerView, Seq<Step>), ServerFault>((final(self)@, steps@)),
                Err(e) => spec_ready(old(self)@, token, events) == Err::<(ServerView, Seq<Step>), ServerFault>(e) && final(self)@ == old(self)@,
            },
    {
        let is_listener = token == self.token;
        if events.error || events.hup {
            if is_listener {
                let steps = vec![Step::Shutdown];
                assert(steps@ =~= seq![Step::Shutdown]);
                return Ok(steps);
            }
            if !self.conns.contains(token) {
                return Err(ServerFault::NotAConnection);
            }
            self.connection_closed(token);
            let steps = vec![Step::Close(token)];
            assert(steps@ =~= seq![Step::Close(token)]);
            return Ok(steps);
        }
        if !is_listener && !self.conns.contains(token) && (events.writable || events.readable) {
            return Err(ServerFault::NotAConnection);
        }
        if events.writable && is_listener {
            return Err(ServerFault::ListenerWritable);
        }
        let mut steps: Vec<Step> = Vec::new();
        if events.writable {
            steps.push(Step::Flush(token));
        }
        if events.readable {
            if is_listener {
                steps.push(Step::Accept);
            } else {
                steps.push(Step::Forward(token));
            }
        }
        proof {
            let w = if events.writable { seq![Step::Flush(token)] } else { Seq::<Step>::empty() };
            let rd = if events.readable {
                if is_listener { seq![Step::Accept] } else { seq![Step::Forward(token)] }
            } else {
                Seq::<Step>::empty()
            };
            assert(steps@ =~= w + rd);
        }
        Ok(steps)
    }
}

} // verus!
