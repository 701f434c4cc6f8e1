//! The ciphers of the event encryption: `skip32` for headers, an AEAD of `ring` for bodies, and
//! the CRC-32 of `crc`.

use crc::crc32;
use ring::aead::{Aad, LessSafeKey, Nonce, UnboundKey, AES_128_GCM, CHACHA20_POLY1305};
use ring::error::Unspecified;
use vstd::prelude::*;
use crate::codec;
use crate::codec::u64_le;

verus! {

/// `ring::error::Unspecified`, the error of every AEAD operation.
#[verifier::external_type_specification]
#[verifier::external_body]
pub struct ExUnspecified(Unspecified);

/// An authenticated cipher for event bodies.
#[derive(Debug, PartialEq, Eq, Structural, Clone, Copy)]
pub enum Cipher {
    ChaCha20Poly1305,
    Aes128Gcm,
}

/// The length of an authentication tag.
pub const TAG_LEN: usize = 16;

/// The length of a nonce.
pub const NONCE_LEN: usize = 12;

impl Cipher {
    pub open spec fn key_len(self) -> nat {
        match self {
            Cipher::ChaCha20Poly1305 => 32,
            Cipher::Aes128Gcm => 16,
        }
    }
}

/// The ciphertext and tag that the AEAD gives for a key, a nonce and a plaintext with no
/// associated data, or `None` where it refuses the plaintext.
pub uninterp spec fn aead_sealed(
    cipher: Cipher,
    key: Seq<u8>,
    nonce: Seq<u8>,
    plain: Seq<u8>,
) -> Option<Seq<u8>>;

/// The plaintext that the AEAD gives for a key, a nonce and a ciphertext with its tag, or `None`
/// where it refuses them.
pub uninterp spec fn aead_opened(
    cipher: Cipher,
    key: Seq<u8>,
    nonce: Seq<u8>,
    data: Seq<u8>,
) -> Option<Seq<u8>>;

/// The word that `skip32` makes of `x` under a key of ten bytes.
pub uninterp spec fn skip32_encoded(key: Seq<u8>, x: u32) -> u32;

/// The word that `skip32` makes `x` of under a key of ten bytes.
pub uninterp spec fn skip32_decoded(key: Seq<u8>, x: u32) -> u32;

/// The CRC-32 (IEEE) of the bytes.
pub uninterp spec fn crc32_ieee(data: Seq<u8>) -> u32;

/// `LessSafeKey::seal_in_place_append_tag` of `ring`, with an empty associated data. Its result
/// is a function of cipher, key, nonce and plaintext; the tag makes it sixteen bytes longer than
/// the plaintext; it fails only on plaintexts far longer than four gigabytes.
#[verifier::external_body]
pub(crate) fn seal(cipher: Cipher, key: &[u8], nonce: &[u8], plain: Vec<u8>) -> (r: Result<
    Vec<u8>,
    Unspecified,
>)
    requires
        key@.len() == cipher.key_len(),
        nonce@.len() == NONCE_LEN,
    ensures
        match r {
            Ok(v) => aead_sealed(cipher, key@, nonce@, plain@) == Some(v@) && v@.len()
                == plain@.len() + TAG_LEN,
            Err(_) => aead_sealed(cipher, key@, nonce@, plain@) is None,
        },
        plain@.len() <= u32::MAX ==> r is Ok,
{
    let algorithm = match cipher {
        Cipher::ChaCha20Poly1305 => &CHACHA20_POLY1305,
        Cipher::Aes128Gcm => &AES_128_GCM,
    };
    let key = LessSafeKey::new(UnboundKey::new(algorithm, key)?);
    let nonce = Nonce::try_assume_unique_for_key(nonce)?;
    let mut data = plain;
    key.seal_in_place_append_tag(nonce, Aad::empty(), &mut data)?;
    Ok(data)
}

/// `LessSafeKey::open_in_place` of `ring`, with an empty associated data. Its result is a
/// function of cipher, key, nonce and data; what is opened is shorter by the tag; and whatever
/// was sealed under the same cipher, key and nonce is opened again.
#[verifier::external_body]
pub(crate) fn open(cipher: Cipher, key: &[u8], nonce: &[u8], data: Vec<u8>) -> (r: Result<
    Vec<u8>,
    Unspecified,
>)
    requires
        key@.len() == cipher.key_len(),
        nonce@.len() == NONCE_LEN,
    ensures
        match r {
            Ok(v) => aead_opened(cipher, key@, nonce@, data@) == Some(v@) && v@.len() + TAG_LEN
                == data@.len(),
            Err(_) => aead_opened(cipher, key@, nonce@, data@) is None,
        },
        forall|plain: Seq<u8>| #[trigger]
            aead_sealed(cipher, key@, nonce@, plain) == Some(data@) ==> r is Ok && r->Ok_0@
                == plain,
{
    let algorithm = match cipher {
        Cipher::ChaCha20Poly1305 => &CHACHA20_POLY1305,
        Cipher::Aes128Gcm => &AES_128_GCM,
    };
    let key = LessSafeKey::new(UnboundKey::new(algorithm, key)?);
    let nonce = Nonce::try_assume_unique_for_key(nonce)?;
    let mut data = data;
    Ok(key.open_in_place(nonce, Aad::empty(), &mut data)?.to_vec())
}

/// `skip32::encode`: a function of the key and the word.
#[verifier::external_body]
pub(crate) fn skip32_encode(key: &[u8; 10], x: u32) -> (r: u32)
    ensures
        r == skip32_encoded(key@, x),
{
    skip32::encode(key, x)
}

/// `skip32::decode`: a function of the key and the word, and the inverse of `skip32::encode`
/// under the same key.
#[verifier::external_body]
pub(crate) fn skip32_decode(key: &[u8; 10], x: u32) -> (r: u32)
    ensures
        r == skip32_decoded(key@, x),
        forall|y: u32| #[trigger] skip32_encoded(key@, y) == x ==> r == y,
{
    skip32::decode(key, x)
}

/// `crc::crc32::checksum_ieee`: a function of the bytes.
#[verifier::external_body]
pub(crate) fn crc32_checksum(data: &[u8]) -> (r: u32)
    ensures
        r == crc32_ieee(data@),
{
    crc32::checksum_ieee(data)
}

/// The nonce of an event: its counter in eight bytes, least significant first, then four zeros.
pub open spec fn nonce_bytes(counter: u64) -> Seq<u8> {
    codec::le64(counter) + seq![0u8, 0u8, 0u8, 0u8]
}

pub(crate) fn nonce_of(counter: u64) -> (r: Vec<u8>)
    ensures
        r@ == nonce_bytes(counter),
        r@.len() == NONCE_LEN,
{
    let mut v: Vec<u8> = u64_le(counter);
    v.push(0);
    v.push(0);
    v.push(0);
    v.push(0);
    assert(v@ =~= nonce_bytes(counter));
    v
}

/// The key of the header cipher: the first ten bytes of the key, with the counter's eight bytes
/// set in the last eight of them.
pub open spec fn header_key(key: Seq<u8>, counter: u64) -> Seq<u8> {
    Seq::new(
        10,
        |i: int|
            if i < 2 {
                key[i]
            } else {
                key[i] | codec::le64(counter)[i - 2]
            },
    )
}

pub(crate) fn header_key_of(key: &Vec<u8>, counter: u64) -> (r: [u8; 10])
    requires
        key@.len() >= 10,
    ensures
        r@ == header_key(key@, counter),
{
    let dk: Vec<u8> = u64_le(counter);
    let sk: [u8; 10] = [
        key[0],
        key[1],
        key[2] | dk[0],
        key[3] | dk[1],
        key[4] | dk[2],
        key[5] | dk[3],
        key[6] | dk[4],
        key[7] | dk[5],
        key[8] | dk[6],
        key[9] | dk[7],
    ];
    assert(sk@ =~= header_key(key@, counter));
    sk
}

/// A key filled up to thirty-two bytes with the letter F.
pub open spec fn padded(key: Seq<u8>) -> Seq<u8> {
    if key.len() >= 32 {
        key
    } else {
        key + Seq::new((32 - key.len()) as nat, |i: int| 0x46u8)
    }
}

pub(crate) fn padded_key(k: &str) -> (r: Vec<u8>)
    ensures
        r@ == padded(vstd::utf8::encode_utf8(k@)),
        r@.len() >= 32,
{
    let mut key: Vec<u8> = vstd::slice::slice_to_vec(k.as_bytes());
    let ghost given = vstd::utf8::encode_utf8(k@);
    while key.len() < 32
        invariant
            key@.len() >= given.len(),
            key@ == given + Seq::new((key@.len() - given.len()) as nat, |i: int| 0x46u8),
            key@.len() <= 32 || key@ == given,
        decreases 32 - key@.len(),
    {
        key.push(0x46u8);
        assert(key@ =~= given + Seq::new((key@.len() - given.len()) as nat, |i: int| 0x46u8));
    }
    assert(key@ =~= padded(given));
    key
}

/// Two counters never give the same nonce, and a nonce has the length that the ciphers ask for.
pub proof fn counters_give_different_nonces(a: u64, b: u64)
    requires
        a != b,
    ensures
        nonce_bytes(a) != nonce_bytes(b),
        nonce_bytes(a).len() == 12,
        nonce_bytes(a).skip(8) == seq![0u8, 0, 0, 0],
{
    let x = nonce_bytes(a);
    let y = nonce_bytes(b);
    assert(x.subrange(0, 8) =~= codec::le64(a));
    assert(y.subrange(0, 8) =~= codec::le64(b));
    codec::le64_reads_back(a, x, 0);
    codec::le64_reads_back(b, y, 0);
    assert(x.skip(8) =~= seq![0u8, 0, 0, 0]);
}

/// A key is used as it is when it is long enough for every cipher; a shorter one is filled up with
/// the letter F.
pub proof fn short_keys_are_filled_up(key: Seq<u8>)
    ensures
        padded(key).len() >= 32,
        padded(key).take(key.len() as int) == key,
        key.len() >= 32 ==> padded(key) == key,
        key.len() < 32 ==> padded(key).len() == 32 && forall|i: int|
            key.len() <= i < 32 ==> #[trigger] padded(key)[i] == 0x46,
{
    assert(padded(key).take(key.len() as int) =~= key);
}

/// The key of a header is the start of the key with the bytes of the counter laid over all of it
/// but the first two bytes: no bit that is set in either is lost.
pub proof fn counter_is_laid_over_the_key(key: Seq<u8>, counter: u64, i: int)
    requires
        key.len() >= 10,
        0 <= i < 10,
    ensures
        header_key(key, counter).len() == 10,
        i < 2 ==> header_key(key, counter)[i] == key[i],
        i >= 2 ==> {
            let h = header_key(key, counter)[i];
            let c = codec::le64(counter)[i - 2];
            forall|m: u8| #[trigger] (h & m) == 0 <==> key[i] & m == 0 && c & m == 0
        },
{
    if i >= 2 {
        let k = key[i];
        let c = codec::le64(counter)[i - 2];
        let h = header_key(key, counter)[i];
        assert(h == k | c);
        assert forall|m: u8| #[trigger] (h & m) == 0 <==> k & m == 0 && c & m == 0 by {
            assert(((k | c) & m) == 0 <==> k & m == 0 && c & m == 0) by (bit_vector);
        }
    }
}

} // verus!
