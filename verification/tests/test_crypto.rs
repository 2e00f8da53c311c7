use trust_sentinel::crypto::{
    decrypt_data, encrypt_data, get_encryption_key, get_hosts_hash, random_seed, seal_with_nonce,
    to_hex, token_str,
};

#[test]
fn token_is_hmac_of_the_time_window() {
    let t = token_str(b"seed", 1_700_000_000);
    assert_eq!(t, "9f4a98c21d9623fea7ae065268fdf07a03e49d67115939258457c2925bceea57");
    // The same 30-second window gives the same token, the next one another.
    let w0 = (1_700_000_000u64 / 30) * 30;
    assert_eq!(token_str(b"seed", w0), token_str(b"seed", w0 + 29));
    assert_ne!(token_str(b"seed", w0), token_str(b"seed", w0 + 30));
    assert_ne!(token_str(b"seed", w0), token_str(b"other", w0));
}

#[test]
fn hex_and_hashes() {
    assert_eq!(to_hex(&[0x00, 0xab, 0x10, 0xff]), "00ab10ff");
    assert_eq!(
        get_hosts_hash(Some(b"127.0.0.1 localhost\n")),
        "081ef9d5367595d16e30b4b4549d9f43537320508b4ce0788963e10e4f808857"
    );
    assert_eq!(get_hosts_hash(None), "unreadable");
    let seed: Vec<u8> = (0u8..32).collect();
    let key = get_encryption_key(&seed, "DESKTOP-01");
    assert_eq!(to_hex(&key), "286cd451d6f9c9c8197695d5d0b97758330a7e958c005c89dba603935bab3d11");
}

#[test]
fn seed_is_32_random_bytes() {
    let a = random_seed().unwrap();
    let b = random_seed().unwrap();
    assert_eq!(a.len(), 32);
    assert_ne!(a, b);
}

#[test]
fn decrypt_gives_back_the_plaintext_followed_by_the_tag() {
    let key = [7u8; 32];
    let msg = b"baseline state".to_vec();
    let c = encrypt_data(&msg, &key).unwrap();
    assert_eq!(c.len(), 12 + msg.len() + 16);
    assert_ne!(&c[12..12 + msg.len()], &msg[..]);
    let d = decrypt_data(&c, &key).unwrap();
    assert_eq!(d.len(), msg.len() + 16);
    assert_eq!(&d[..msg.len()], &msg[..]);
    assert_eq!(&d[msg.len()..], &c[c.len() - 16..]);
}

#[test]
fn decrypt_refuses_bad_input() {
    let key = [7u8; 32];
    let c = seal_with_nonce(b"hello", &key, &[1u8; 12]);
    assert_eq!(&c[..12], &[1u8; 12]);
    assert!(decrypt_data(&c[..11], &key).is_none());
    assert!(decrypt_data(&c, &[7u8; 16]).is_none());
    assert!(decrypt_data(&c, &[8u8; 32]).is_none());
    let mut tampered = c.clone();
    tampered[13] ^= 1;
    assert!(decrypt_data(&tampered, &key).is_none());
    assert!(decrypt_data(&c[..20], &key).is_none());
}

#[test]
fn two_encryptions_use_different_nonces() {
    let key = [1u8; 32];
    let a = encrypt_data(b"x", &key).unwrap();
    let b = encrypt_data(b"x", &key).unwrap();
    assert_ne!(a[..12], b[..12]);
}
