use paragon_proto::{
    crypto_decrypt_chacha20poly1305, crypto_derive_shared_secret,
    crypto_encrypt_chacha20poly1305, crypto_generate_keypair,
};

fn filled(offset: u8) -> [u8; 32] {
    let mut buf = [0u8; 32];
    for (i, b) in buf.iter_mut().enumerate() {
        *b = (i as u8).wrapping_add(offset);
    }
    buf
}

#[test]
fn test_keypair_and_shared_secret() {
    let kp1 = crypto_generate_keypair(filled(42));
    let kp2 = crypto_generate_keypair(filled(99));

    let shared1 = crypto_derive_shared_secret(kp1.private, kp2.public);
    let shared2 = crypto_derive_shared_secret(kp2.private, kp1.public);
    assert_eq!(shared1, shared2);
}

#[test]
fn test_chacha20poly1305_encryption() {
    let key = [0x42u8; 32];
    let nonce = [0x11u8; 12];
    let plaintext = b"Hello, Paragon Proto!";
    let mut ciphertext = [0u8; 64];
    let mut tag = [0u8; 16];

    let res = crypto_encrypt_chacha20poly1305(key, nonce, plaintext, &mut ciphertext, &mut tag);
    assert_eq!(res, 0);

    let mut decrypted = [0u8; 64];
    let dec_res = crypto_decrypt_chacha20poly1305(
        key,
        nonce,
        &ciphertext[..plaintext.len()],
        &tag,
        &mut decrypted,
    );
    assert_eq!(dec_res, 0);
    assert_eq!(&decrypted[..plaintext.len()], plaintext);
}

#[test]
fn keypair_keeps_the_random_bytes_as_private_key() {
    let secret = filled(7);
    let kp = crypto_generate_keypair(secret);
    assert_eq!(kp.private, secret);
    assert_ne!(kp.public, secret);
    let again = crypto_generate_keypair(secret);
    assert_eq!(again.public, kp.public);
}

#[test]
fn rfc7748_public_key() {
    // Alice's key pair from RFC 7748, section 6.1.
    let alice_private: [u8; 32] = [
        0x77, 0x07, 0x6d, 0x0a, 0x73, 0x18, 0xa5, 0x7d, 0x3c, 0x16, 0xc1, 0x72, 0x51, 0xb2, 0x66,
        0x45, 0xdf, 0x4c, 0x2f, 0x87, 0xeb, 0xc0, 0x99, 0x2a, 0xb1, 0x77, 0xfb, 0xa5, 0x1d, 0xb9,
        0x2c, 0x2a,
    ];
    let alice_public: [u8; 32] = [
        0x85, 0x20, 0xf0, 0x09, 0x89, 0x30, 0xa7, 0x54, 0x74, 0x8b, 0x7d, 0xdc, 0xb4, 0x3e, 0xf7,
        0x5a, 0x0d, 0xbf, 0x3a, 0x0d, 0x26, 0x38, 0x1a, 0xf4, 0xeb, 0xa4, 0xa9, 0x8e, 0xaa, 0x9b,
        0x4e, 0x6a,
    ];
    assert_eq!(crypto_generate_keypair(alice_private).public, alice_public);
}

#[test]
fn rfc7748_shared_secret() {
    // Alice's private key, Bob's key pair and their shared secret from RFC 7748, section 6.1.
    let alice_private: [u8; 32] = [
        0x77, 0x07, 0x6d, 0x0a, 0x73, 0x18, 0xa5, 0x7d, 0x3c, 0x16, 0xc1, 0x72, 0x51, 0xb2, 0x66,
        0x45, 0xdf, 0x4c, 0x2f, 0x87, 0xeb, 0xc0, 0x99, 0x2a, 0xb1, 0x77, 0xfb, 0xa5, 0x1d, 0xb9,
        0x2c, 0x2a,
    ];
    let bob_private: [u8; 32] = [
        0x5d, 0xab, 0x08, 0x7e, 0x62, 0x4a, 0x8a, 0x4b, 0x79, 0xe1, 0x7f, 0x8b, 0x83, 0x80, 0x0e,
        0xe6, 0x6f, 0x3b, 0xb1, 0x29, 0x26, 0x18, 0xb6, 0xfd, 0x1c, 0x2f, 0x8b, 0x27, 0xff, 0x88,
        0xe0, 0xeb,
    ];
    let bob_public: [u8; 32] = [
        0xde, 0x9e, 0xdb, 0x7d, 0x7b, 0x7d, 0xc1, 0xb4, 0xd3, 0x5b, 0x61, 0xc2, 0xec, 0xe4, 0x35,
        0x37, 0x3f, 0x83, 0x43, 0xc8, 0x5b, 0x78, 0x67, 0x4d, 0xad, 0xfc, 0x7e, 0x14, 0x6f, 0x88,
        0x2b, 0x4f,
    ];
    let shared: [u8; 32] = [
        0x4a, 0x5d, 0x9d, 0x5b, 0xa4, 0xce, 0x2d, 0xe1, 0x72, 0x8e, 0x3b, 0xf4, 0x80, 0x35, 0x0f,
        0x25, 0xe0, 0x7e, 0x21, 0xc9, 0x47, 0xd1, 0x9e, 0x33, 0x76, 0xf0, 0x9b, 0x3c, 0x1e, 0x16,
        0x17, 0x42,
    ];
    assert_eq!(crypto_generate_keypair(bob_private).public, bob_public);
    assert_eq!(crypto_derive_shared_secret(alice_private, bob_public), shared);
    let alice_public = crypto_generate_keypair(alice_private).public;
    assert_eq!(crypto_derive_shared_secret(bob_private, alice_public), shared);
}

#[test]
fn short_output_buffers_are_refused() {
    let key = [1u8; 32];
    let nonce = [2u8; 12];
    let mut ciphertext = [9u8; 4];
    let mut tag = [5u8; 16];
    assert_eq!(crypto_encrypt_chacha20poly1305(key, nonce, b"hello", &mut ciphertext, &mut tag), 2);
    assert_eq!(ciphertext, [9u8; 4]);
    assert_eq!(tag, [5u8; 16]);

    let mut plain = [3u8; 2];
    assert_eq!(crypto_decrypt_chacha20poly1305(key, nonce, b"abc", &tag, &mut plain), 2);
    assert_eq!(plain, [3u8; 2]);
}

#[test]
fn tampered_ciphertext_is_rejected() {
    let key = [0x42u8; 32];
    let nonce = [0x11u8; 12];
    let plaintext = b"attack at dawn";
    let mut ciphertext = [0u8; 14];
    let mut tag = [0u8; 16];
    assert_eq!(crypto_encrypt_chacha20poly1305(key, nonce, plaintext, &mut ciphertext, &mut tag), 0);
    assert_ne!(&ciphertext[..], &plaintext[..]);
    ciphertext[0] ^= 1;
    let mut out = [0u8; 20];
    assert_eq!(crypto_decrypt_chacha20poly1305(key, nonce, &ciphertext, &tag, &mut out), 4);
    assert_eq!(&out[..14], &ciphertext[..]);
    assert_eq!(&out[14..], &[0u8; 6]);
}
