//! Properties that span the clients and the server.
use vstd::prelude::*;
use crate::client::{print, relay_line, send_actions, shared_key_agrees, spec_netinput, spec_relay_actions, ClientActionView, ClientView};
use crate::crypto::{box_precompute, box_public_key, NONCEBYTES, PUBLICKEYBYTES, SECRETKEYBYTES};
use crate::server::{inv, relay, spec_handle_send, spec_handle_whois, DeliveryView, ServerView};
use crate::util::{lemma_deserialize_serialize, spec_serialize, MessageView};

verus! {

/// Keys precomputed on the two sides agree: when each of two clients has
/// learnt the other's public key, the key each keeps for the other is the same.
pub proof fn lemma_shared_keys_agree(a: ClientView, b: ClientView, name_a: Seq<u8>, name_b: Seq<u8>)
    requires
        a.seckey.len() == SECRETKEYBYTES,
        b.seckey.len() == SECRETKEYBYTES,
        a.keys[name_b] == box_precompute(box_public_key(b.seckey), a.seckey),
        shared_key_agrees(b, name_a, box_public_key(a.seckey)),
    ensures
        a.keys[name_b] == b.keys[name_a],
{
    assert(box_public_key(a.seckey) == box_public_key(a.seckey));
}

/// A body sent to a user whose shared key the sender knows travels
/// encrypted: the server relays it, naming the sender, to the user's
/// connection, and the client of that user, which has learnt the sender's
/// public key, shows the body as it was typed. The two users registered the
/// public keys of their secret keys, and each client learnt the other's key
/// from the server.
pub proof fn lemma_encrypted_message_arrives(
    sender: ClientView,
    receiver: ClientView,
    s: ServerView,
    token: usize,
    target: Seq<u8>,
    body: Seq<u8>,
    acts: Seq<ClientActionView>,
)
    requires
        send_actions(sender, target, body, acts),
        sender.keys.dom().contains(target),
        inv(s),
        s.conns.dom().contains(token),
        s.conns[token] is Some,
        s.users.dom().contains(target),
        !s.channels.dom().contains(target),
        sender.seckey.len() == SECRETKEYBYTES,
        receiver.seckey.len() == SECRETKEYBYTES,
        s.users[target].pubkey == box_public_key(receiver.seckey),
        s.users.dom().contains(s.conns[token]->0),
        s.users[s.conns[token]->0].pubkey == box_public_key(sender.seckey),
        sender.keys[target] == box_precompute(s.users[target].pubkey, sender.seckey),
        receiver.keys.dom().contains(s.conns[token]->0),
        shared_key_agrees(receiver, s.conns[token]->0, s.users[s.conns[token]->0].pubkey),
    ensures
        ({
            let name = s.conns[token]->0;
            match acts[1] {
                ClientActionView::Send(MessageView::Send { dest, body: sealed, nonce }) => {
                    let d = spec_handle_send(s, token, dest, sealed, nonce);
                    &&& d == seq![DeliveryView { token: s.users[target].token, msg: relay(name, target, sealed, nonce) }]
                    &&& spec_relay_actions(receiver, name, target, sealed, nonce) == seq![
                        print("Decrypting..."),
                        ClientActionView::Print(relay_line(name, target, body)),
                    ]
                },
                _ => false,
            }
        }),
{
    lemma_shared_keys_agree(sender, receiver, s.conns[token]->0, target);
}

/// A body sent to a user whose key the sender does not know travels as it
/// was typed, and the receiving client shows it as it was typed.
pub proof fn lemma_plain_message_arrives(
    sender: ClientView,
    receiver: ClientView,
    s: ServerView,
    token: usize,
    target: Seq<u8>,
    body: Seq<u8>,
    acts: Seq<ClientActionView>,
)
    requires
        send_actions(sender, target, body, acts),
        !sender.keys.dom().contains(target),
        inv(s),
        s.conns.dom().contains(token),
        s.conns[token] is Some,
        s.users.dom().contains(target),
        !s.channels.dom().contains(target),
    ensures
        acts == seq![ClientActionView::Send(MessageView::Send { dest: target, body: body, nonce: None })],
        spec_handle_send(s, token, target, body, None) == seq![
            DeliveryView { token: s.users[target].token, msg: relay(s.conns[token]->0, target, body, None) },
        ],
        spec_relay_actions(receiver, s.conns[token]->0, target, body, None) == seq![
            ClientActionView::Print(relay_line(s.conns[token]->0, target, body)),
        ],
{
}

/// Asking the server who a user is gives the asker's client the key it
/// shares with that user; from then on what it sends that user is encrypted.
pub proof fn lemma_whois_enables_encryption(
    s: ServerView,
    token: usize,
    name: Seq<u8>,
    c: ClientView,
    body: Seq<u8>,
    acts: Seq<ClientActionView>,
)
    requires
        inv(s),
        s.users.dom().contains(name),
        s.conns.dom().contains(token),
        s.conns[token] is Some,
        s.users[name].pubkey.len() == PUBLICKEYBYTES,
    ensures
        ({
            let d = spec_handle_whois(s, token, name);
            let (c1, shown) = spec_netinput(c, spec_serialize(d[0].msg));
            &&& d[0].token == token
            &&& c1.keys.dom().contains(name)
            &&& c1.keys[name] == box_precompute(s.users[name].pubkey, c.seckey)
            &&& send_actions(c1, name, body, acts) ==> (acts[1] matches ClientActionView::Send(
                MessageView::Send { dest, nonce: Some(n), .. },
            ) && dest == name && n.len() == NONCEBYTES)
        }),
{
    let d = spec_handle_whois(s, token, name);
    lemma_deserialize_serialize(d[0].msg);
}

} // verus!
