//! Digests, the authentication token of the local endpoint, and the at-rest
//! encryption of the agent's data, over `ring`, `hmac`, `sha2` and `hex`.

use vstd::prelude::*;
use ring::aead::{Aad, LessSafeKey, Nonce, UnboundKey, AES_256_GCM};

verus! {

// ---------------------------------------------------------------------------
// Names for what the outside functions compute.
// ---------------------------------------------------------------------------

/// SHA-256 of `data`, as `ring::digest::digest(&SHA256, ..)` computes it.
pub uninterp spec fn ring_sha256(data: Seq<u8>) -> Seq<u8>;

/// SHA-256 of `data`, as `sha2::Sha256` computes it.
pub uninterp spec fn sha2_sha256(data: Seq<u8>) -> Seq<u8>;

/// HMAC-SHA-256 of `msg` under `key`, as `hmac::Hmac<sha2::Sha256>` computes it.
pub uninterp spec fn hmac_sha256(key: Seq<u8>, msg: Seq<u8>) -> Seq<u8>;

/// AES-256-GCM sealing of `plaintext` under `key` and `nonce`, empty associated
/// data: the ciphertext followed by the tag, as `ring::aead` produces it.
pub uninterp spec fn aes256gcm_seal(key: Seq<u8>, nonce: Seq<u8>, plaintext: Seq<u8>) -> Seq<u8>;

/// AES-256-GCM opening of `sealed` (ciphertext followed by tag) under `key` and
/// `nonce`, empty associated data: the plaintext, or `None` where the tag does
/// not authenticate.
pub uninterp spec fn aes256gcm_open(key: Seq<u8>, nonce: Seq<u8>, sealed: Seq<u8>) -> Option<Seq<u8>>;

/// Inputs that `ring::digest` accepts: a bit length that fits in 64 bits.
pub const MAX_DIGEST_INPUT: u64 = 0x1fff_ffff_ffff_ffff;

/// The longest plaintext that AES-GCM in `ring` seals: 2^32 - 2 blocks of 16 bytes.
pub const MAX_SEAL_INPUT: u64 = 68_719_476_704;

/// The AES-256 key length.
pub const KEY_LEN: usize = 32;

/// The AES-GCM nonce length.
pub const NONCE_LEN: usize = 12;

/// The AES-GCM tag length.
pub const TAG_LEN: usize = 16;

// ---------------------------------------------------------------------------
// Trusted items.
// ---------------------------------------------------------------------------

/// `ring::digest::digest(&ring::digest::SHA256, data)`. Claims: the result is
/// `ring_sha256(data)`, 32 bytes long. `ring` panics on inputs whose bit length
/// overflows 64 bits, which `requires` leaves out.
#[verifier::external_body]
fn ring_digest_sha256(data: &[u8]) -> (r: Vec<u8>)
    requires
        data@.len() <= MAX_DIGEST_INPUT,
    ensures
        r@ == ring_sha256(data@),
        r@.len() == 32,
{
    ring::digest::digest(&ring::digest::SHA256, data).as_ref().to_vec()
}

/// `sha2::Sha256::digest(data)` (the `sha2::Digest` trait). Claims: the result
/// is `sha2_sha256(data)`, 32 bytes long.
#[verifier::external_body]
fn sha2_digest(data: &[u8]) -> (r: Vec<u8>)
    ensures
        r@ == sha2_sha256(data@),
        r@.len() == 32,
{
    <sha2::Sha256 as sha2::Digest>::digest(data).to_vec()
}

/// `Hmac::<Sha256>::new_from_slice(key)`, `update(msg)`, `finalize()`: one MAC
/// computation with the `hmac` crate. `new_from_slice` accepts keys of any
/// length for HMAC, so the `unwrap` never fails. Claims: the result is
/// `hmac_sha256(key, msg)`, 32 bytes long.
#[verifier::external_body]
fn hmac_sha256_tag(key: &[u8], msg: &[u8]) -> (r: Vec<u8>)
    ensures
        r@ == hmac_sha256(key@, msg@),
        r@.len() == 32,
{
    let mut m = <hmac::Hmac<sha2::Sha256> as hmac::Mac>::new_from_slice(key).unwrap();
    hmac::Mac::update(&mut m, msg);
    hmac::Mac::finalize(m).into_bytes().to_vec()
}

/// `hex::encode(data)`. Claims: two lower-case hex digits per byte, high nibble
/// first, as the crate's documentation and its `HEX_CHARS_LOWER` table give it.
#[verifier::external_body]
fn hex_encode(data: &[u8]) -> (s: String)
    ensures
        s@ == hex_lower(data@),
{
    hex::encode(data)
}

/// `ring::rand::SystemRandom::new().fill(..)` on a fresh buffer of `len` bytes.
/// The bytes depend on the operating system's random source, so nothing is
/// claimed of them beyond their number; `None` where the source fails.
#[verifier::external_body]
fn random_bytes(len: usize) -> (r: Option<Vec<u8>>)
    ensures
        r matches Some(v) ==> v@.len() == len,
{
    let mut v = vec![0u8; len];
    ring::rand::SecureRandom::fill(&ring::rand::SystemRandom::new(), &mut v).ok()?;
    Some(v)
}

/// `UnboundKey::new(&AES_256_GCM, key)`, `LessSafeKey::new`,
/// `Nonce::try_assume_unique_for_key(nonce)` and `seal_in_place_append_tag` with
/// empty associated data, on a copy of `plaintext`. `requires` holds what
/// `ring` checks and would make the `unwrap`s fail: a 32-byte key, a 12-byte
/// nonce, a plaintext of at most `MAX_SEAL_INPUT` bytes. Claims: the result is
/// `aes256gcm_seal(..)`, 16 bytes longer than the plaintext (GCM appends its
/// tag and keeps the length of the ciphertext), and opening it under the same
/// key and nonce gives the plaintext back (AEAD correctness, which the crate
/// documents for `open_in_place`).
#[verifier::external_body]
fn aes_gcm_seal(key: &[u8], nonce: &[u8], plaintext: &[u8]) -> (c: Vec<u8>)
    requires
        key@.len() == KEY_LEN,
        nonce@.len() == NONCE_LEN,
        plaintext@.len() <= MAX_SEAL_INPUT,
    ensures
        c@ == aes256gcm_seal(key@, nonce@, plaintext@),
        c@.len() == plaintext@.len() + TAG_LEN,
        aes256gcm_open(key@, nonce@, c@) == Some(plaintext@),
{
    let key = LessSafeKey::new(UnboundKey::new(&AES_256_GCM, key).unwrap());
    let nonce = Nonce::try_assume_unique_for_key(nonce).unwrap();
    let mut data = plaintext.to_vec();
    key.seal_in_place_append_tag(nonce, Aad::empty(), &mut data).unwrap();
    data
}

/// `UnboundKey::new(&AES_256_GCM, key)`, `LessSafeKey::new`,
/// `Nonce::try_assume_unique_for_key(nonce)` and `open_in_place` with empty
/// associated data, on the buffer `sealed`, which is returned after the call.
/// Claims: the result is `Some` exactly when the key has 32 bytes and
/// `aes256gcm_open(..)` authenticates; then the buffer keeps its length, its
/// first bytes hold the plaintext and its last 16 bytes are still the tag,
/// as `open_within` in the crate's source leaves them.
#[verifier::external_body]
fn aes_gcm_open_in_place(key: &[u8], nonce: &[u8], sealed: Vec<u8>) -> (r: Option<Vec<u8>>)
    requires
        nonce@.len() == NONCE_LEN,
    ensures
        r is Some <==> (key@.len() == KEY_LEN && aes256gcm_open(key@, nonce@, sealed@) is Some),
        r matches Some(d) ==> {
            &&& sealed@.len() >= TAG_LEN
            &&& d@.len() == sealed@.len()
            &&& d@ == aes256gcm_open(key@, nonce@, sealed@)->0 + sealed@.skip(
                sealed@.len() - TAG_LEN,
            )
        },
{
    let key = LessSafeKey::new(UnboundKey::new(&AES_256_GCM, key).ok()?);
    let nonce = Nonce::try_assume_unique_for_key(nonce).ok()?;
    let mut data = sealed;
    key.open_in_place(nonce, Aad::empty(), &mut data).ok()?;
    Some(data)
}

// ---------------------------------------------------------------------------
// Specifications.
// ---------------------------------------------------------------------------

/// The lower-case hex digit of a value below 16.
pub open spec fn hex_digit(v: int) -> char {
    if v < 10 {
        (48 + v) as char
    } else {
        (87 + v) as char
    }
}

/// Lower-case hex encoding: two digits per byte, high nibble first.
pub open spec fn hex_lower(data: Seq<u8>) -> Seq<char> {
    Seq::new(
        2 * data.len(),
        |i: int|
            if i % 2 == 0 {
                hex_digit((data[i / 2] / 16) as int)
            } else {
                hex_digit((data[i / 2] % 16) as int)
            },
    )
}

/// The eight bytes of `c`, most significant first (`u64::to_be_bytes`).
pub open spec fn u64_be_bytes(c: u64) -> Seq<u8> {
    Seq::new(8, |i: int| ((c >> ((56 - 8 * i) as u64)) & 0xff) as u8)
}

/// The 30-second window that a Unix time falls in.
pub open spec fn token_window(now_secs: u64) -> u64 {
    (now_secs / 30) as u64
}

/// The endpoint's token at a time: the hex HMAC of the time window under the seed.
pub open spec fn token_spec(seed: Seq<u8>, now_secs: u64) -> Seq<char> {
    hex_lower(hmac_sha256(seed, u64_be_bytes(token_window(now_secs))))
}

/// The hosts-file fingerprint: hex SHA-256 of the file's bytes, or "unreadable".
pub open spec fn hosts_hash_spec(content: Option<Seq<u8>>) -> Seq<char> {
    match content {
        Some(b) => hex_lower(ring_sha256(b)),
        None => "unreadable"@,
    }
}

/// The at-rest key: SHA-256 of the seed followed by the machine name's UTF-8 bytes.
pub open spec fn encryption_key_spec(seed: Seq<u8>, machine_id: Seq<char>) -> Seq<u8> {
    sha2_sha256(seed + vstd::utf8::encode_utf8(machine_id))
}

/// What `decrypt_data` returns: `None` below 12 bytes, for a key that is not 32
/// bytes long, or where the tag does not authenticate; else the plaintext
/// followed by the 16 tag bytes that stay at the end of the opened buffer.
pub open spec fn decrypt_spec(ciphertext: Seq<u8>, key: Seq<u8>) -> Option<Seq<u8>> {
    if ciphertext.len() < NONCE_LEN {
        None
    } else {
        let nonce = ciphertext.take(NONCE_LEN as int);
        let sealed = ciphertext.skip(NONCE_LEN as int);
        if key.len() != KEY_LEN {
            None
        } else {
            match aes256gcm_open(key, nonce, sealed) {
                Some(p) => Some(p + sealed.skip(sealed.len() - TAG_LEN)),
                None => None,
            }
        }
    }
}

// ---------------------------------------------------------------------------
// Verified functions.
// ---------------------------------------------------------------------------

/// A vector holding the bytes of a slice.
pub fn copy_bytes(b: &[u8]) -> (r: Vec<u8>)
    ensures
        r@ == b@,
{
    let mut r: Vec<u8> = Vec::new();
    for i in 0..b.len()
        invariant
            r@ == b@.take(i as int),
    {
        r.push(b[i]);
        assert(r@ =~= b@.take(i + 1));
    }
    assert(b@.take(b@.len() as int) =~= b@);
    r
}

/// The big-endian bytes of a `u64`.
pub fn u64_to_be_bytes(c: u64) -> (r: Vec<u8>)
    ensures
        r@ == u64_be_bytes(c),
{
    let mut r: Vec<u8> = Vec::new();
    for i in 0..8u64
        invariant
            r@.len() == i,
            forall|k: int| 0 <= k < i ==> r@[k] == u64_be_bytes(c)[k],
    {
        let b = ((c >> (56 - 8 * i)) & 0xff) as u8;
        r.push(b);
    }
    assert(r@ =~= u64_be_bytes(c));
    r
}

/// Lower-case hex of a byte string.
pub fn to_hex(data: &[u8]) -> (s: String)
    ensures
        s@ == hex_lower(data@),
{
    hex_encode(data)
}

/// 32 random bytes from the operating system, the secret seed of the token and
/// of the at-rest key; `None` where the random source fails.
pub fn random_seed() -> (r: Option<Vec<u8>>)
    ensures
        r matches Some(s) ==> s@.len() == 32,
{
    random_bytes(32)
}

/// The endpoint's current token: HMAC-SHA-256 under `seed` of the eight
/// big-endian bytes of `now_secs / 30`, in lower-case hex.
pub fn token_str(seed: &[u8], now_secs: u64) -> (t: String)
    ensures
        t@ == token_spec(seed@, now_secs),
        t@.len() == 64,
{
    let c = now_secs / 30;
    let msg = u64_to_be_bytes(c);
    let tag = hmac_sha256_tag(seed, msg.as_slice());
    to_hex(tag.as_slice())
}

/// The fingerprint of the hosts file: hex SHA-256 of its bytes, or
/// "unreadable" where it could not be read.
pub fn get_hosts_hash(content: Option<&[u8]>) -> (h: String)
    requires
        content matches Some(b) ==> b@.len() <= MAX_DIGEST_INPUT,
    ensures
        h@ == hosts_hash_spec(
            match content {
                Some(b) => Some(b@),
                None => None,
            },
        ),
        content is Some ==> h@.len() == 64,
{
    match content {
        Some(b) => {
            let d = ring_digest_sha256(b);
            to_hex(d.as_slice())
        },
        None => {
            let s = "unreadable".to_owned();
            s
        },
    }
}

/// The at-rest key: SHA-256 over the seed followed by the machine name.
pub fn get_encryption_key(seed: &[u8], machine_id: &str) -> (k: Vec<u8>)
    ensures
        k@ == encryption_key_spec(seed@, machine_id@),
        k@.len() == KEY_LEN,
{
    let mut data = copy_bytes(seed);
    let id = machine_id.as_bytes();
    for i in 0..id.len()
        invariant
            data@ == seed@ + id@.take(i as int),
    {
        data.push(id[i]);
        assert(data@ =~= seed@ + id@.take(i + 1));
    }
    assert(id@.take(id@.len() as int) == id@);
    sha2_digest(data.as_slice())
}

/// Seals `plaintext` under `key` and `nonce` and puts the nonce in front.
pub fn seal_with_nonce(plaintext: &[u8], key: &[u8], nonce: &[u8]) -> (c: Vec<u8>)
    requires
        key@.len() == KEY_LEN,
        nonce@.len() == NONCE_LEN,
        plaintext@.len() <= MAX_SEAL_INPUT,
    ensures
        c@ == nonce@ + aes256gcm_seal(key@, nonce@, plaintext@),
        c@.len() == NONCE_LEN + plaintext@.len() + TAG_LEN,
        decrypt_spec(c@, key@) matches Some(d) && d.len() == plaintext@.len() + TAG_LEN
            && d.take(plaintext@.len() as int) == plaintext@,
{
    let sealed = aes_gcm_seal(key, nonce, plaintext);
    let mut r = copy_bytes(nonce);
    let ghost n = r@;
    for i in 0..sealed.len()
        invariant
            n == nonce@,
            r@ == n + sealed@.take(i as int),
    {
        r.push(sealed[i]);
        assert(r@ =~= n + sealed@.take(i + 1));
    }
    assert(sealed@.take(sealed@.len() as int) == sealed@);
    proof {
        assert(r@.take(NONCE_LEN as int) =~= nonce@);
        assert(r@.skip(NONCE_LEN as int) =~= sealed@);
    }
    r
}

/// AES-256-GCM under `key` with a fresh random nonce, which leads the result.
/// `None` where the random source fails.
pub fn encrypt_data(plaintext: &[u8], key: &[u8]) -> (r: Option<Vec<u8>>)
    requires
        key@.len() == KEY_LEN,
        plaintext@.len() <= MAX_SEAL_INPUT,
    ensures
        r matches Some(c) ==> {
            &&& c@.len() == NONCE_LEN + plaintext@.len() + TAG_LEN
            &&& c@ == c@.take(NONCE_LEN as int) + aes256gcm_seal(
                key@,
                c@.take(NONCE_LEN as int),
                plaintext@,
            )
            &&& decrypt_spec(c@, key@) matches Some(d) && d.len() == plaintext@.len() + TAG_LEN
                && d.take(plaintext@.len() as int) == plaintext@
        },
{
    match random_bytes(NONCE_LEN) {
        Some(nonce) => {
            let c = seal_with_nonce(plaintext, key, nonce.as_slice());
            proof {
                assert(c@.take(NONCE_LEN as int) =~= nonce@);
            }
            Some(c)
        },
        None => None,
    }
}

/// Opens what `encrypt_data` produced: the nonce is the first 12 bytes.
pub fn decrypt_data(ciphertext: &[u8], key: &[u8]) -> (r: Option<Vec<u8>>)
    ensures
        match r {
            Some(d) => decrypt_spec(ciphertext@, key@) == Some(d@),
            None => decrypt_spec(ciphertext@, key@) is None,
        },
        ciphertext@.len() < NONCE_LEN + TAG_LEN ==> r is None,
{
    if ciphertext.len() < NONCE_LEN {
        return None;
    }
    let mut nonce: Vec<u8> = Vec::new();
    let mut sealed: Vec<u8> = Vec::new();
    for i in 0..ciphertext.len()
        invariant
            ciphertext@.len() >= NONCE_LEN,
            i <= NONCE_LEN ==> nonce@ == ciphertext@.take(i as int) && sealed@.len() == 0,
            i > NONCE_LEN ==> nonce@ == ciphertext@.take(NONCE_LEN as int) && sealed@
                == ciphertext@.subrange(NONCE_LEN as int, i as int),
    {
        if i < NONCE_LEN {
            nonce.push(ciphertext[i]);
            assert(nonce@ =~= ciphertext@.take(i + 1));
        } else {
            sealed.push(ciphertext[i]);
            assert(sealed@ =~= ciphertext@.subrange(NONCE_LEN as int, i + 1));
        }
    }
    assert(nonce@ =~= ciphertext@.take(NONCE_LEN as int));
    assert(sealed@ =~= ciphertext@.skip(NONCE_LEN as int));
    aes_gcm_open_in_place(key, nonce.as_slice(), sealed)
}

/// A token stays the same within one 30-second window.
pub proof fn law_token_stable_in_window(seed: Seq<u8>, t1: u64, t2: u64)
    requires
        t1 / 30 == t2 / 30,
    ensures
        token_spec(seed, t1) == token_spec(seed, t2),
{
}

} // verus!
