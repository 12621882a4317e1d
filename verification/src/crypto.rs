//! Public-key authenticated encryption of message bodies, through
//! `sodiumoxide::crypto::box_` (libsodium's `crypto_box`, Curve25519,
//! XSalsa20 and Poly1305). Keys, nonces and ciphertexts are passed as bytes.
use vstd::prelude::*;
use sodiumoxide::crypto::box_;
use crate::util::opt_view;

verus! {

/// Bytes in a public key.
pub const PUBLICKEYBYTES: usize = 32;
/// Bytes in a secret key.
pub const SECRETKEYBYTES: usize = 32;
/// Bytes in a precomputed key.
pub const PRECOMPUTEDKEYBYTES: usize = 32;
/// Bytes in a nonce.
pub const NONCEBYTES: usize = 24;
/// Bytes by which a ciphertext is longer than its plaintext.
pub const MACBYTES: usize = 16;

/// The public key that belongs to a secret key, as `box_::SecretKey::public_key`
/// computes it.
pub uninterp spec fn box_public_key(sk: Seq<u8>) -> Seq<u8>;

/// The key that `box_::precompute` derives from a public and a secret key.
pub uninterp spec fn box_precompute(pk: Seq<u8>, sk: Seq<u8>) -> Seq<u8>;

/// The ciphertext that `box_::seal_precomputed` makes of a message, a nonce
/// and a precomputed key.
pub uninterp spec fn box_seal(m: Seq<u8>, n: Seq<u8>, k: Seq<u8>) -> Seq<u8>;

/// The plaintext that `box_::open_precomputed` recovers from a ciphertext, a
/// nonce and a precomputed key; `None` when the ciphertext fails verification.
pub uninterp spec fn box_open(c: Seq<u8>, n: Seq<u8>, k: Seq<u8>) -> Option<Seq<u8>>;

/// Derives the key shared by the owner of secret key `sk` and the owner of
/// public key `pk`.
///
/// Calls `box_::precompute`, which returns a key of 32 bytes; the contract
/// names the key and states its length. The key is shared: when `pk` belongs
/// to a secret key `sk2`, it is the key that the owner of `sk2` derives from
/// the public key of `sk` (the crate's own tests check this agreement).
#[verifier::external_body]
pub(crate) fn precompute(pk: &[u8], sk: &[u8]) -> (k: Vec<u8>)
    requires
        pk@.len() == PUBLICKEYBYTES,
        sk@.len() == SECRETKEYBYTES,
    ensures
        k@ == box_precompute(pk@, sk@),
        k@.len() == PRECOMPUTEDKEYBYTES,
        forall|sk2: Seq<u8>|
            sk2.len() == SECRETKEYBYTES && pk@ == #[trigger] box_public_key(sk2) ==> k@ == box_precompute(
                box_public_key(sk@),
                sk2,
            ),
{
    let pk = box_::PublicKey::from_slice(pk).unwrap();
    let sk = box_::SecretKey::from_slice(sk).unwrap();
    box_::precompute(&pk, &sk).0.to_vec()
}

/// Encrypts and authenticates message `m` under nonce `n` and precomputed key `k`.
///
/// Calls `box_::seal_precomputed`, which returns a ciphertext `MACBYTES`
/// longer than the message; as the crate's documentation shows, opening it
/// with the same nonce and key gives the message back.
#[verifier::external_body]
pub(crate) fn seal(m: &[u8], n: &[u8], k: &[u8]) -> (c: Vec<u8>)
    requires
        n@.len() == NONCEBYTES,
        k@.len() == PRECOMPUTEDKEYBYTES,
    ensures
        c@ == box_seal(m@, n@, k@),
        c@.len() == m@.len() + MACBYTES,
        box_open(c@, n@, k@) == Some(m@),
{
    let n = box_::Nonce::from_slice(n).unwrap();
    let k = box_::PrecomputedKey::from_slice(k).unwrap();
    box_::seal_precomputed(m, &n, &k)
}

/// Verifies and decrypts ciphertext `c` under nonce `n` and precomputed key `k`.
///
/// Calls `box_::open_precomputed`, which fails on a ciphertext shorter than
/// `MACBYTES` and otherwise returns a plaintext `MACBYTES` shorter than it.
#[verifier::external_body]
pub(crate) fn open(c: &[u8], n: &[u8], k: &[u8]) -> (m: Option<Vec<u8>>)
    requires
        n@.len() == NONCEBYTES,
        k@.len() == PRECOMPUTEDKEYBYTES,
    ensures
        opt_view(m) == box_open(c@, n@, k@),
        c@.len() < MACBYTES ==> m is None,
        m matches Some(p) ==> p@.len() + MACBYTES == c@.len(),
{
    let n = box_::Nonce::from_slice(n).unwrap();
    let k = box_::PrecomputedKey::from_slice(k).unwrap();
    box_::open_precomputed(c, &n, &k).ok()
}

/// A random nonce.
///
/// Calls `box_::gen_nonce`; the contract states only the nonce's length.
#[verifier::external_body]
pub(crate) fn gen_nonce() -> (n: Vec<u8>)
    ensures
        n@.len() == NONCEBYTES,
{
    box_::gen_nonce().0.to_vec()
}

/// A random key pair: the public key, then the secret key.
///
/// Calls `box_::gen_keypair`, which makes a random secret key and the public
/// key that belongs to it; the contract states that and the keys' lengths.
#[verifier::external_body]
pub(crate) fn gen_keypair() -> (r: (Vec<u8>, Vec<u8>))
    ensures
        r.0@.len() == PUBLICKEYBYTES,
        r.1@.len() == SECRETKEYBYTES,
        r.0@ == box_public_key(r.1@),
{
    let (pk, sk) = box_::gen_keypair();
    (pk.0.to_vec(), sk.0.to_vec())
}

} // verus!
