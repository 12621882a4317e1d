//! Key files: a fresh key pair written as hexadecimal text, and keys read
//! back from such text.
use vstd::prelude::*;
use crate::crypto::{box_public_key, gen_keypair, PUBLICKEYBYTES, SECRETKEYBYTES};
use crate::hex::{from_hex, lemma_from_hex_to_hex, spec_from_hex, spec_to_hex, to_hex};
use crate::util::opt_view;

verus! {

/// The contents of the two key files.
pub struct KeyFiles {
    /// Hexadecimal text of the public key.
    pub public_hex: String,
    /// Hexadecimal text of the secret key.
    pub secret_hex: String,
}

/// A fresh random key pair as hexadecimal text: a secret key, and the public
/// key that belongs to it.
pub fn keygen() -> (r: KeyFiles)
    ensures
        exists|sk: Seq<u8>|
            #![trigger spec_to_hex(sk)]
            sk.len() == SECRETKEYBYTES && box_public_key(sk).len() == PUBLICKEYBYTES && r.secret_hex@ == spec_to_hex(sk)
                && r.public_hex@ == spec_to_hex(box_public_key(sk)),
{
    let (pk, sk) = gen_keypair();
    let r = KeyFiles { public_hex: to_hex(pk.as_slice()), secret_hex: to_hex(sk.as_slice()) };
    assert(r.public_hex@ == spec_to_hex(box_public_key(sk@)) && r.secret_hex@ == spec_to_hex(sk@));
    r
}

/// The public key that a key file holds, as its text stands for it.
pub fn parse_public_key(text: &str) -> (r: Option<Vec<u8>>)
    ensures
        opt_view(r) == spec_from_hex(text@),
{
    from_hex(text)
}

/// The secret key that a key file holds: `None` unless the text stands for
/// exactly `SECRETKEYBYTES` bytes.
pub open spec fn spec_parse_secret_key(text: Seq<char>) -> Option<Seq<u8>> {
    match spec_from_hex(text) {
        Some(b) => if b.len() == SECRETKEYBYTES {
            Some(b)
        } else {
            None
        },
        None => None,
    }
}

/// The secret key that a key file holds.
pub fn parse_secret_key(text: &str) -> (r: Option<Vec<u8>>)
    ensures
        opt_view(r) == spec_parse_secret_key(text@),
{
    match from_hex(text) {
        Some(b) => if b.len() == SECRETKEYBYTES {
            Some(b)
        } else {
            None
        },
        None => None,
    }
}

/// Reading back the key files that `keygen` writes gives the keys.
pub proof fn lemma_key_files_read_back(pk: Seq<u8>, sk: Seq<u8>)
    requires
        pk.len() == PUBLICKEYBYTES,
        sk.len() == SECRETKEYBYTES,
    ensures
        spec_from_hex(spec_to_hex(pk)) == Some(pk),
        spec_parse_secret_key(spec_to_hex(sk)) == Some(sk),
{
    lemma_from_hex_to_hex(pk);
    lemma_from_hex_to_hex(sk);
}

} // verus!
