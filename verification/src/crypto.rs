//! Key agreement (X25519) and authenticated encryption (ChaCha20-Poly1305)
//! for the payloads of frames.
//!
//! The primitives come from `x25519-dalek` and `chacha20poly1305`; their
//! results are named here and believed, not proved. What this module proves
//! is what it does around them: the checks on buffers, and what ends up
//! where.
use vstd::prelude::*;
use vstd::slice::slice_to_vec;
use chacha20poly1305::aead::AeadInPlace;
use chacha20poly1305::{ChaCha20Poly1305, Key, KeyInit, Nonce};
use x25519_dalek::{PublicKey, StaticSecret};
use crate::serialization::put_bytes;
use crate::types::KeyPair;
use crate::wire::spliced;

verus! {

/// The X25519 public key of a 32-byte secret: the secret, clamped, times
/// the base point.
pub uninterp spec fn x25519_public_key(secret: Seq<u8>) -> Seq<u8>;

/// The X25519 shared secret of a 32-byte secret and a 32-byte public key:
/// the secret, clamped, times the public point.
pub uninterp spec fn x25519_shared_secret(secret: Seq<u8>, public: Seq<u8>) -> Seq<u8>;

/// ChaCha20-Poly1305 as RFC 8439 defines it, with empty associated data:
/// the ciphertext of a plaintext under a key and the nonce as given, and its
/// 16-byte tag.
pub uninterp spec fn chacha20poly1305_seal(key: Seq<u8>, nonce: Seq<u8>, plaintext: Seq<u8>) -> (
    Seq<u8>,
    Seq<u8>,
);

/// ChaCha20-Poly1305 as RFC 8439 defines it, with empty associated data:
/// the plaintext of a ciphertext and tag under a key and the nonce as given,
/// if the tag authenticates it.
pub uninterp spec fn chacha20poly1305_open(
    key: Seq<u8>,
    nonce: Seq<u8>,
    ciphertext: Seq<u8>,
    tag: Seq<u8>,
) -> Option<Seq<u8>>;

/// The longest message, in bytes, that `chacha20poly1305` encrypts or
/// decrypts without running out of keystream: `u32::MAX - 1` blocks of 64
/// bytes, since block 0 of the keystream goes to the Poly1305 key and the
/// 32-bit block counter starts at 1 for the message. Longer messages are
/// refused by the crate, or exhaust the keystream and panic.
pub open spec fn chacha_max_message_len() -> nat {
    64 * 4294967294
}

/// `x25519_dalek`: `PublicKey::from(&StaticSecret::from(secret)).to_bytes()`.
/// Claimed: the result is the X25519 public key of `secret`.
#[verifier::external_body]
fn x25519_public_from_secret(secret: [u8; 32]) -> (public: [u8; 32])
    ensures
        public@ == x25519_public_key(secret@),
{
    PublicKey::from(&StaticSecret::from(secret)).to_bytes()
}

/// `x25519_dalek`: `StaticSecret::diffie_hellman`, on the secret and public
/// key given as bytes. Claimed: the result is their X25519 shared secret,
/// and, as the crate's documentation shows for two parties, it is the one
/// the holder of the public key's secret derives from our public key.
#[verifier::external_body]
fn x25519_diffie_hellman(private_key: [u8; 32], public_key: [u8; 32]) -> (shared: [u8; 32])
    ensures
        shared@ == x25519_shared_secret(private_key@, public_key@),
        forall|other: Seq<u8>|
            other.len() == 32 && public_key@ == #[trigger] x25519_public_key(other) ==> shared@
                == x25519_shared_secret(other, x25519_public_key(private_key@)),
{
    StaticSecret::from(private_key).diffie_hellman(&PublicKey::from(public_key)).to_bytes()
}

/// `chacha20poly1305`: `ChaCha20Poly1305::encrypt_in_place_detached` with
/// empty associated data, on a message no longer than
/// `chacha_max_message_len()` (longer ones are refused or make the cipher
/// panic). Claimed, from the crate's `cipher.rs`: such a message passes the
/// crate's only length check, so the call succeeds, the buffer becomes the
/// ciphertext (of the same length) and the tag is returned.
#[verifier::external_body]
fn chacha20poly1305_seal_in_place(key: &[u8; 32], nonce: &[u8; 12], buffer: &mut Vec<u8>) -> (tag:
    Option<[u8; 16]>)
    requires
        old(buffer)@.len() <= chacha_max_message_len(),
    ensures
        tag is Some,
        final(buffer)@.len() == old(buffer)@.len(),
        tag matches Some(t) ==> chacha20poly1305_seal(key@, nonce@, old(buffer)@) == (
            final(buffer)@,
            t@,
        ),
{
    let cipher = ChaCha20Poly1305::new(Key::from_slice(key));
    match cipher.encrypt_in_place_detached(Nonce::from_slice(nonce), &[], buffer.as_mut_slice()) {
        Ok(t) => Some(t.into()),
        Err(_) => None,
    }
}

/// `chacha20poly1305`: `ChaCha20Poly1305::decrypt_in_place_detached` with
/// empty associated data, on a ciphertext no longer than
/// `chacha_max_message_len()` (longer ones are refused or make the cipher
/// panic). Claimed, from the crate's `cipher.rs`: it succeeds exactly when
/// the opening is defined, that is when the tag recomputed over the
/// ciphertext equals the one given; the buffer then becomes the plaintext,
/// of the same length, and sealing that plaintext gives back the ciphertext
/// and the tag. On failure the buffer is left as it was. A ciphertext and
/// tag that sealing produced open to the plaintext sealed: opening
/// recomputes the same tag and applies the same keystream.
#[verifier::external_body]
fn chacha20poly1305_open_in_place(
    key: &[u8; 32],
    nonce: &[u8; 12],
    buffer: &mut Vec<u8>,
    tag: &[u8; 16],
) -> (ok: bool)
    requires
        old(buffer)@.len() <= chacha_max_message_len(),
    ensures
        ok == chacha20poly1305_open(key@, nonce@, old(buffer)@, tag@) is Some,
        final(buffer)@.len() == old(buffer)@.len(),
        ok ==> final(buffer)@ == chacha20poly1305_open(key@, nonce@, old(buffer)@, tag@).unwrap(),
        ok ==> chacha20poly1305_seal(key@, nonce@, final(buffer)@) == (old(buffer)@, tag@),
        !ok ==> final(buffer)@ == old(buffer)@,
        forall|m: Seq<u8>|
            m.len() <= chacha_max_message_len() && #[trigger] chacha20poly1305_seal(
                key@,
                nonce@,
                m,
            ) == (old(buffer)@, tag@) ==> ok && final(buffer)@ == m,
{
    let cipher = ChaCha20Poly1305::new(Key::from_slice(key));
    cipher.decrypt_in_place_detached(
        Nonce::from_slice(nonce),
        &[],
        buffer.as_mut_slice(),
        chacha20poly1305::Tag::from_slice(tag),
    ).is_ok()
}

/// The key pair whose private half is `random_bytes`, 32 bytes the caller
/// drew from its random source, and whose public half is the X25519 public
/// key of them.
pub fn crypto_generate_keypair(random_bytes: [u8; 32]) -> (kp: KeyPair)
    ensures
        kp.private == random_bytes,
        kp.public@ == x25519_public_key(random_bytes@),
{
    let public = x25519_public_from_secret(random_bytes);
    KeyPair { public, private: random_bytes }
}

/// The X25519 shared secret of our private key and their public key. Two
/// parties derive the same secret: ours with their public key equals theirs
/// with ours.
pub fn crypto_derive_shared_secret(private_key: [u8; 32], public_key: [u8; 32]) -> (shared: [u8; 32])
    ensures
        shared@ == x25519_shared_secret(private_key@, public_key@),
        forall|other: Seq<u8>|
            other.len() == 32 && public_key@ == #[trigger] x25519_public_key(other) ==> shared@
                == x25519_shared_secret(other, x25519_public_key(private_key@)),
{
    x25519_diffie_hellman(private_key, public_key)
}

/// Encrypts `plaintext` with ChaCha20-Poly1305 (empty associated data) into
/// the front of `ciphertext` and the tag into `tag_out`, returning 0.
/// Returns 2, touching nothing, when `ciphertext` is shorter than the
/// plaintext; 3 when the plaintext is longer than the cipher can take
/// (`chacha_max_message_len()` bytes), with the plaintext copied into
/// `ciphertext` and the tag untouched.
pub fn crypto_encrypt_chacha20poly1305(
    key: [u8; 32],
    nonce: [u8; 12],
    plaintext: &[u8],
    ciphertext: &mut [u8],
    tag_out: &mut [u8; 16],
) -> (status: u8)
    ensures
        final(ciphertext)@.len() == old(ciphertext)@.len(),
        old(ciphertext)@.len() < plaintext@.len() ==> status == 2 && final(ciphertext)@ == old(
            ciphertext,
        )@ && final(tag_out)@ == old(tag_out)@,
        old(ciphertext)@.len() >= plaintext@.len() && plaintext@.len() <= chacha_max_message_len()
            ==> status == 0 && chacha20poly1305_seal(key@, nonce@, plaintext@) == (
            final(ciphertext)@.take(plaintext@.len() as int),
            final(tag_out)@,
        ) && final(ciphertext)@.skip(plaintext@.len() as int) == old(ciphertext)@.skip(
            plaintext@.len() as int,
        ),
        old(ciphertext)@.len() >= plaintext@.len() && plaintext@.len() > chacha_max_message_len()
            ==> status == 3 && final(ciphertext)@ == spliced(old(ciphertext)@, plaintext@)
            && final(tag_out)@ == old(tag_out)@,
{
    let n = plaintext.len();
    if ciphertext.len() < n {
        return 2;
    }
    let mut work = slice_to_vec(plaintext);
    let ghost orig = ciphertext@;
    assert(spliced(orig, Seq::empty()) =~= orig);
    if n as u64 > 274877906816u64 {
        put_bytes(ciphertext, 0, work.as_slice(), Ghost(orig), Ghost(Seq::empty()));
        assert(Seq::<u8>::empty() + work@ =~= plaintext@);
        return 3;
    }
    match chacha20poly1305_seal_in_place(&key, &nonce, &mut work) {
        Some(tag) => {
            put_bytes(ciphertext, 0, work.as_slice(), Ghost(orig), Ghost(Seq::empty()));
            assert(Seq::<u8>::empty() + work@ =~= work@);
            assert(ciphertext@.take(n as int) =~= work@);
            *tag_out = tag;
            0
        },
        None => {
            put_bytes(ciphertext, 0, work.as_slice(), Ghost(orig), Ghost(Seq::empty()));
            3
        },
    }
}

/// Decrypts `ciphertext` with ChaCha20-Poly1305 (empty associated data) and
/// `tag` into the front of `plaintext`, returning 0. Returns 2, touching
/// nothing, when `plaintext` is shorter than the ciphertext; 4 when the
/// ciphertext is longer than the cipher can take or the tag does not
/// authenticate it, with the ciphertext copied into `plaintext`. Only a
/// ciphertext and tag that sealing the result produces are accepted, and
/// what encryption produced decrypts to what was encrypted.
pub fn crypto_decrypt_chacha20poly1305(
    key: [u8; 32],
    nonce: [u8; 12],
    ciphertext: &[u8],
    tag: &[u8; 16],
    plaintext: &mut [u8],
) -> (status: u8)
    ensures
        final(plaintext)@.len() == old(plaintext)@.len(),
        old(plaintext)@.len() < ciphertext@.len() ==> status == 2 && final(plaintext)@ == old(
            plaintext,
        )@,
        old(plaintext)@.len() >= ciphertext@.len() && ciphertext@.len() > chacha_max_message_len()
            ==> status == 4 && final(plaintext)@ == spliced(old(plaintext)@, ciphertext@),
        old(plaintext)@.len() >= ciphertext@.len() && ciphertext@.len()
            <= chacha_max_message_len() ==> match chacha20poly1305_open(
            key@,
            nonce@,
            ciphertext@,
            tag@,
        ) {
            Some(m) => status == 0 && final(plaintext)@ == spliced(old(plaintext)@, m)
                && chacha20poly1305_seal(key@, nonce@, m) == (ciphertext@, tag@),
            None => status == 4 && final(plaintext)@ == spliced(old(plaintext)@, ciphertext@),
        },
        forall|m: Seq<u8>|
            old(plaintext)@.len() >= ciphertext@.len() && m.len() <= chacha_max_message_len()
                && ciphertext@.len() <= chacha_max_message_len()
                && #[trigger] chacha20poly1305_seal(key@, nonce@, m) == (ciphertext@, tag@)
                ==> status == 0 && final(plaintext)@ == spliced(old(plaintext)@, m),
{
    let n = ciphertext.len();
    if plaintext.len() < n {
        return 2;
    }
    let mut work = slice_to_vec(ciphertext);
    let ghost orig = plaintext@;
    assert(spliced(orig, Seq::empty()) =~= orig);
    if n as u64 > 274877906816u64 {
        put_bytes(plaintext, 0, work.as_slice(), Ghost(orig), Ghost(Seq::empty()));
        assert(Seq::<u8>::empty() + work@ =~= ciphertext@);
        return 4;
    }
    let ok = chacha20poly1305_open_in_place(&key, &nonce, &mut work, tag);
    if ok {
        put_bytes(plaintext, 0, work.as_slice(), Ghost(orig), Ghost(Seq::empty()));
        assert(Seq::<u8>::empty() + work@ =~= work@);
        0
    } else {
        put_bytes(plaintext, 0, work.as_slice(), Ghost(orig), Ghost(Seq::empty()));
        assert(Seq::<u8>::empty() + work@ =~= ciphertext@);
        4
    }
}

} // verus!
