//! Cryptographic and encoding primitives used by SASL authentication:
//! Base64, hexadecimal, SHA-1, SHA-256, HMAC-SHA-1, the salted password
//! function of SCRAM, and random salts and nonces.

use vstd::prelude::*;
use base64::Engine;
use hmac::Mac;
use rand::Rng;
use sha1::Digest;
use vstd::utf8::encode_utf8;

verus! {

// ---------------------------------------------------------------------------
// Calls into outside crates
// ---------------------------------------------------------------------------

#[verifier::external_type_specification]
#[verifier::external_body]
pub struct ExDecodeError(base64::DecodeError);

#[verifier::external_type_specification]
#[verifier::external_body]
pub struct ExFromHexError(hex::FromHexError);

/// The character of the standard Base64 alphabet for the six bits `n`.
pub open spec fn b64_char(n: int) -> char {
    if n < 26 {
        (65 + n) as char
    } else if n < 52 {
        (97 + n - 26) as char
    } else if n < 62 {
        (48 + n - 52) as char
    } else if n == 62 {
        '+'
    } else {
        '/'
    }
}

/// The standard Base64 encoding of RFC 4648 with padding: each group of
/// three bytes as four characters, a last group of one or two bytes padded
/// with `=`.
pub open spec fn base64_encode_spec(d: Seq<u8>) -> Seq<char>
    decreases d.len(),
{
    if d.len() == 0 {
        seq![]
    } else {
        let a = d[0] as int;
        let b = if d.len() > 1 { d[1] as int } else { 0 };
        let c = if d.len() > 2 { d[2] as int } else { 0 };
        let c0 = b64_char(a / 4);
        let c1 = b64_char((a % 4) * 16 + b / 16);
        let c2 = b64_char((b % 16) * 4 + c / 64);
        let c3 = b64_char(c % 64);
        if d.len() == 1 {
            seq![c0, c1, '=', '=']
        } else if d.len() == 2 {
            seq![c0, c1, c2, '=']
        } else {
            seq![c0, c1, c2, c3] + base64_encode_spec(d.subrange(3, d.len() as int))
        }
    }
}

/// The bytes that the standard Base64 engine decodes `text` to, or `None`
/// when it refuses the text. The engine requires canonical padding and no
/// trailing bits, so it accepts exactly the encodings of byte strings, and
/// gives back the bytes encoded.
pub open spec fn base64_decode_spec(text: Seq<u8>) -> Option<Seq<u8>> {
    if exists|b: Seq<u8>| #[trigger] encode_utf8(base64_encode_spec(b)) == text {
        Some(choose|b: Seq<u8>| #[trigger] encode_utf8(base64_encode_spec(b)) == text)
    } else {
        None
    }
}

/// The SHA-1 digest of `data`.
pub uninterp spec fn sha1_spec(data: Seq<u8>) -> Seq<u8>;

/// The SHA-256 digest of `data`.
pub uninterp spec fn sha256_spec(data: Seq<u8>) -> Seq<u8>;

/// The HMAC-SHA-1 of `data` under `key`.
pub uninterp spec fn hmac_sha1_spec(key: Seq<u8>, data: Seq<u8>) -> Seq<u8>;

/// The text that `String::from_utf8_lossy` makes of `bytes`.
pub uninterp spec fn utf8_lossy_spec(bytes: Seq<u8>) -> Seq<char>;

/// The text that `String::from_utf8_lossy` makes of `bytes`: the decoded
/// text when they are valid UTF-8.
pub open spec fn lossy_text(bytes: Seq<u8>) -> Seq<char> {
    if vstd::utf8::valid_utf8(bytes) {
        vstd::utf8::decode_utf8(bytes)
    } else {
        utf8_lossy_spec(bytes)
    }
}

/// Text encoded as UTF-8 reads back as itself.
pub proof fn lemma_lossy_text_encoded(s: Seq<char>)
    ensures
        lossy_text(vstd::utf8::encode_utf8(s)) == s,
{
    vstd::utf8::encode_utf8_valid_utf8(s);
    vstd::utf8::encode_utf8_decode_utf8(s);
}

/// Calls `base64::engine::general_purpose::STANDARD.encode`: the standard
/// alphabet of RFC 4648 with padding, as the crate documents its
/// `STANDARD` engine.
#[verifier::external_body]
pub(crate) fn base64_encode(data: &[u8]) -> (r: String)
    ensures
        r@ == base64_encode_spec(data@),
{
    base64::engine::general_purpose::STANDARD.encode(data)
}

/// Calls `base64::engine::general_purpose::STANDARD.decode`, whose
/// configuration (padding required and canonical, no trailing bits)
/// accepts exactly the encodings of byte strings; `base64_decode_spec`
/// states it.
#[verifier::external_body]
pub(crate) fn base64_decode(text: &[u8]) -> (r: Result<Vec<u8>, base64::DecodeError>)
    ensures
        r is Ok <==> base64_decode_spec(text@) is Some,
        r matches Ok(v) ==> base64_decode_spec(text@) == Some(v@),
{
    base64::engine::general_purpose::STANDARD.decode(text)
}

/// Calls `hex::encode`, which the `hex` crate documents as encoding each
/// byte as two lowercase hexadecimal digits, high nibble first.
#[verifier::external_body]
pub(crate) fn hex_encode(data: &[u8]) -> (r: String)
    ensures
        r@ == hex_lower_spec(data@),
{
    hex::encode(data)
}

/// Calls `hex::decode`, which succeeds exactly when the input has an even
/// number of bytes that are all hexadecimal digits of either case, and then
/// gives one byte per pair of digits, high nibble first.
#[verifier::external_body]
pub(crate) fn hex_decode_bytes(text: &[u8]) -> (r: Result<Vec<u8>, hex::FromHexError>)
    ensures
        r is Ok <==> hex_decode_spec(text@) is Some,
        r matches Ok(v) ==> hex_decode_spec(text@) == Some(v@),
{
    hex::decode(text)
}

/// Calls the SHA-1 hasher of the `sha1` crate on `data`; the digest is named
/// `sha1_spec` of the input and is 20 bytes long.
#[verifier::external_body]
pub(crate) fn sha1_raw(data: &[u8]) -> (r: Vec<u8>)
    ensures
        r@ == sha1_spec(data@),
        r@.len() == 20,
{
    sha1::Sha1::digest(data).to_vec()
}

/// Calls the SHA-256 hasher of the `sha2` crate on `data`; the digest is
/// named `sha256_spec` of the input and is 32 bytes long.
#[verifier::external_body]
pub(crate) fn sha256_raw(data: &[u8]) -> (r: Vec<u8>)
    ensures
        r@ == sha256_spec(data@),
        r@.len() == 32,
{
    sha2::Sha256::digest(data).to_vec()
}

/// Calls `hmac::Hmac<sha1::Sha1>` (which takes keys of any length) on
/// `data`; the tag is named `hmac_sha1_spec` of key and data and is 20
/// bytes long.
#[verifier::external_body]
pub(crate) fn hmac_sha1(key: &[u8], data: &[u8]) -> (r: Vec<u8>)
    ensures
        r@ == hmac_sha1_spec(key@, data@),
        r@.len() == 20,
{
    let mut mac = hmac::Hmac::<sha1::Sha1>::new_from_slice(key).expect("HMAC can take key of any size");
    mac.update(data);
    mac.finalize().into_bytes().to_vec()
}

/// Calls `rand::Rng::gen` on the thread-local generator for 16 bytes. The
/// bytes are random; only their number is claimed.
#[verifier::external_body]
pub(crate) fn random_bytes_16() -> (r: Vec<u8>)
    ensures
        r@.len() == 16,
{
    let b: [u8; 16] = rand::thread_rng().gen();
    b.to_vec()
}

/// Calls `String::from_utf8_lossy`; the result is named `utf8_lossy_spec`
/// of the input, and for valid UTF-8 it is the decoded text, as std
/// documents.
#[verifier::external_body]
pub(crate) fn utf8_lossy(bytes: &[u8]) -> (r: String)
    ensures
        r@ == utf8_lossy_spec(bytes@),
        vstd::utf8::valid_utf8(bytes@) ==> r@ == vstd::utf8::decode_utf8(bytes@),
{
    String::from_utf8_lossy(bytes).to_string()
}

// ---------------------------------------------------------------------------
// Hexadecimal
// ---------------------------------------------------------------------------

/// The lowercase hexadecimal digit of `n` (below 16).
pub open spec fn hex_digit(n: u8) -> char {
    if n < 10 {
        (48 + n) as char
    } else {
        (87 + n) as char
    }
}

/// Each byte as two lowercase hexadecimal digits.
pub open spec fn hex_lower_spec(data: Seq<u8>) -> Seq<char>
    decreases data.len(),
{
    if data.len() == 0 {
        seq![]
    } else {
        hex_lower_spec(data.drop_last()) + seq![
            hex_digit(data.last() / 16),
            hex_digit(data.last() % 16),
        ]
    }
}

/// The value of a hexadecimal digit byte of either case.
pub open spec fn hex_val(c: u8) -> Option<u8> {
    if 48 <= c <= 57 {
        Some((c - 48) as u8)
    } else if 65 <= c <= 70 {
        Some((c - 55) as u8)
    } else if 97 <= c <= 102 {
        Some((c - 87) as u8)
    } else {
        None
    }
}

/// Hexadecimal decoding: pairs of digits to bytes, or `None` for an odd
/// length or a byte that is not a digit.
pub open spec fn hex_decode_spec(text: Seq<u8>) -> Option<Seq<u8>>
    decreases text.len(),
{
    if text.len() == 0 {
        Some(seq![])
    } else if text.len() == 1 {
        None
    } else {
        match (
            hex_decode_spec(text.subrange(0, text.len() - 2)),
            hex_val(text[text.len() - 2]),
            hex_val(text[text.len() - 1]),
        ) {
            (Some(pre), Some(h), Some(l)) => Some(pre.push((h * 16 + l) as u8)),
            _ => None,
        }
    }
}

/// The lowercase hexadecimal digits of the SHA-1 digest of `data`.
pub fn sha1_hex(data: &[u8]) -> (r: String)
    ensures
        r@ == hex_lower_spec(sha1_spec(data@)),
        r@.len() == 40,
{
    let d = sha1_raw(data);
    proof {
        lemma_hex_len(d@);
    }
    hex_encode(d.as_slice())
}

/// Hexadecimal text has two digits per byte.
pub proof fn lemma_hex_len(d: Seq<u8>)
    ensures
        hex_lower_spec(d).len() == 2 * d.len(),
    decreases d.len(),
{
    if d.len() > 0 {
        lemma_hex_len(d.drop_last());
    }
}

/// Base64 text of `n` bytes has four characters per group of three, the
/// last group padded.
pub proof fn lemma_base64_len(d: Seq<u8>)
    ensures
        base64_encode_spec(d).len() == 4 * ((d.len() + 2) / 3),
    decreases d.len(),
{
    if d.len() > 2 {
        lemma_base64_len(d.subrange(3, d.len() as int));
    }
}

/// The lowercase hexadecimal digits of the SHA-256 digest of the UTF-8 bytes of `data`.
pub fn sha256_hex(data: &str) -> (r: String)
    ensures
        r@ == hex_lower_spec(sha256_spec(encode_utf8(data@))),
        r@.len() == 64,
{
    let d = sha256_raw(data.as_bytes());
    proof {
        lemma_hex_len(d@);
    }
    hex_encode(d.as_slice())
}


// ---------------------------------------------------------------------------
// XOR and the salted password function
// ---------------------------------------------------------------------------

/// Bytewise XOR of `a` and `b`, as long as the shorter of the two.
pub open spec fn xor_spec(a: Seq<u8>, b: Seq<u8>) -> Seq<u8> {
    Seq::new(if a.len() < b.len() { a.len() } else { b.len() }, |i: int| a[i] ^ b[i])
}

/// `r` with its first bytes XORed with those of `u`; the length of `r` is kept.
pub open spec fn xor_into_spec(r: Seq<u8>, u: Seq<u8>) -> Seq<u8> {
    Seq::new(r.len(), |i: int| if i < u.len() { r[i] ^ u[i] } else { r[i] })
}

/// XOR with the same key twice gives back the bytes: the client proof of
/// SCRAM is undone by the client key it was made with.
pub proof fn law_xor_involutive(a: Seq<u8>, b: Seq<u8>)
    requires
        a.len() <= b.len(),
    ensures
        xor_spec(xor_spec(a, b), b) == a,
{
    assert forall|i: int| 0 <= i < a.len() implies #[trigger] xor_spec(xor_spec(a, b), b)[i] == a[i] by {
        let x = a[i];
        let y = b[i];
        assert((x ^ y) ^ y == x) by (bit_vector);
    }
    assert(xor_spec(xor_spec(a, b), b) =~= a);
}

/// Bytewise XOR of two byte strings, as long as the shorter one.
pub fn xor_bytes(a: &[u8], b: &[u8]) -> (r: Vec<u8>)
    ensures
        r@ == xor_spec(a@, b@),
{
    let n = if a.len() < b.len() { a.len() } else { b.len() };
    let mut r: Vec<u8> = Vec::new();
    let mut i: usize = 0;
    while i < n
        invariant
            i <= n,
            n == (if a.len() < b.len() { a.len() } else { b.len() }),
            r@.len() == i,
            forall|j: int| 0 <= j < i ==> r@[j] == a@[j] ^ b@[j],
        decreases n - i,
    {
        r.push(a[i] ^ b[i]);
        i = i + 1;
    }
    assert(r@ =~= xor_spec(a@, b@));
    r
}

/// The message of the first round of `Hi`: the salt followed by the big-endian block index 1.
pub open spec fn first_block_msg(salt: Seq<u8>) -> Seq<u8> {
    salt + seq![0u8, 0u8, 0u8, 1u8]
}

/// `U_k` of `Hi`: the HMAC of the salt and block index, then of the previous `U`.
pub open spec fn hi_round(password: Seq<u8>, salt: Seq<u8>, k: nat) -> Seq<u8>
    decreases k,
{
    if k <= 1 {
        hmac_sha1_spec(password, first_block_msg(salt))
    } else {
        hmac_sha1_spec(password, hi_round(password, salt, (k - 1) as nat))
    }
}

/// `Hi(password, salt, n)`: the XOR of `U_1` to `U_n`; `n` of 0 counts as 1.
pub open spec fn hi_spec(password: Seq<u8>, salt: Seq<u8>, n: nat) -> Seq<u8>
    decreases n,
{
    if n <= 1 {
        hi_round(password, salt, 1)
    } else {
        xor_into_spec(hi_spec(password, salt, (n - 1) as nat), hi_round(password, salt, n))
    }
}

fn copy_bytes(a: &[u8]) -> (r: Vec<u8>)
    ensures
        r@ == a@,
{
    let mut r: Vec<u8> = Vec::new();
    let mut i: usize = 0;
    while i < a.len()
        invariant
            i <= a.len(),
            r@ == a@.subrange(0, i as int),
        decreases a.len() - i,
    {
        r.push(a[i]);
        assert(a@.subrange(0, i + 1) =~= a@.subrange(0, i as int).push(a@[i as int]));
        i = i + 1;
    }
    assert(a@.subrange(0, a.len() as int) =~= a@);
    r
}

/// The salted password of SCRAM: `Hi` with HMAC-SHA-1.
pub fn hi(password: &[u8], salt: &[u8], iterations: u32) -> (r: Vec<u8>)
    ensures
        r@ == hi_spec(password@, salt@, iterations as nat),
{
    let mut msg = copy_bytes(salt);
    msg.push(0);
    msg.push(0);
    msg.push(0);
    msg.push(1);
    assert(msg@ =~= first_block_msg(salt@));
    let mut u = hmac_sha1(password, msg.as_slice());
    let mut result = copy_bytes(u.as_slice());
    let mut i: u32 = 1;
    while i < iterations
        invariant
            1 <= i,
            i <= iterations || i == 1,
            u@ == hi_round(password@, salt@, i as nat),
            result@ == hi_spec(password@, salt@, i as nat),
        decreases iterations - i,
    {
        u = hmac_sha1(password, u.as_slice());
        let ghost before = result@;
        let mut j: usize = 0;
        while j < result.len()
            invariant
                j <= result.len(),
                result@.len() == before.len(),
                forall|k: int| 0 <= k < j ==> result@[k] == (if k < u@.len() { before[k] ^ u@[k] } else { before[k] }),
                forall|k: int| j <= k < result@.len() ==> result@[k] == before[k],
            decreases result.len() - j,
        {
            if j < u.len() {
                let x = result[j] ^ u[j];
                result.set(j, x);
            }
            j = j + 1;
        }
        assert(result@ =~= xor_into_spec(before, u@));
        i = i + 1;
    }
    if iterations == 0 {
        assert(hi_spec(password@, salt@, 0) == hi_spec(password@, salt@, 1));
    }
    result
}

/// A fresh salt: 16 random bytes in Base64.
pub fn generate_salt() -> (r: String)
    ensures
        exists|b: Seq<u8>| b.len() == 16 && r@ == base64_encode_spec(b),
        r@.len() == 24,
{
    let b = random_bytes_16();
    proof {
        lemma_base64_len(b@);
    }
    base64_encode(b.as_slice())
}

/// A fresh nonce: 16 random bytes in lowercase hexadecimal.
pub fn generate_nonce() -> (r: String)
    ensures
        exists|b: Seq<u8>| b.len() == 16 && r@ == hex_lower_spec(b),
{
    let b = random_bytes_16();
    hex_encode(b.as_slice())
}

/// Decodes the Base64 text `s` (the proof of a SCRAM client).
pub fn hex_decode(s: &str) -> (r: Result<Vec<u8>, ()>)
    ensures
        match base64_decode_spec(encode_utf8(s@)) {
            Some(d) => r matches Ok(v) && v@ == d,
            None => r is Err,
        },
{
    match base64_decode(s.as_bytes()) {
        Ok(v) => Ok(v),
        Err(_) => Err(()),
    }
}

/// The bare client-first message of SCRAM with an empty user name.
pub fn client_first_part(client_nonce: &str) -> (r: String)
    ensures
        r@ == "n,,n=,r="@ + client_nonce@,
{
    let mut s = crate::text::copy_str("n,,n=,r=");
    s.append(client_nonce);
    s
}

} // verus!
