//! The passcode cipher that seals every request and every reply: AES-GCM-256
//! (through `simple_encrypt`) under a key made from the passcode, then
//! standard Base64 (through `base64`).

use base64::{engine::general_purpose, Engine as _};
use vstd::prelude::*;
use vstd::utf8::*;

use crate::text::concat;

verus! {

/// Length of the AES-256 key that a passcode is turned into.
pub const KEY_LEN: usize = 32;

/// The key made from a passcode: its UTF-8 bytes, cut or padded with zero
/// bytes to `KEY_LEN` bytes.
pub open spec fn key_of(code: Seq<char>) -> Seq<u8> {
    let b = encode_utf8(code);
    if b.len() >= KEY_LEN {
        b.take(KEY_LEN as int)
    } else {
        b + Seq::new((KEY_LEN - b.len()) as nat, |i: int| 0u8)
    }
}

/// The character of the standard Base64 alphabet for a 6-bit value.
pub open spec fn b64_char(v: u8) -> char {
    if v < 26 {
        (65 + v) as char
    } else if v < 52 {
        (97 + (v - 26)) as char
    } else if v < 62 {
        (48 + (v - 52)) as char
    } else if v == 62 {
        '+'
    } else {
        '/'
    }
}

/// Standard Base64 with padding (RFC 4648, section 4): each group of three
/// bytes becomes four characters, a short last group is padded with `'='`.
pub open spec fn b64_encode(b: Seq<u8>) -> Seq<char>
    decreases b.len(),
{
    if b.len() == 0 {
        Seq::<char>::empty()
    } else if b.len() == 1 {
        seq![b64_char(b[0] >> 2u8), b64_char((b[0] & 3u8) << 4u8), '=', '=']
    } else if b.len() == 2 {
        seq![
            b64_char(b[0] >> 2u8),
            b64_char(((b[0] & 3u8) << 4u8) | (b[1] >> 4u8)),
            b64_char((b[1] & 15u8) << 2u8),
            '=',
        ]
    } else {
        seq![
            b64_char(b[0] >> 2u8),
            b64_char(((b[0] & 3u8) << 4u8) | (b[1] >> 4u8)),
            b64_char(((b[1] & 15u8) << 2u8) | (b[2] >> 6u8)),
            b64_char(b[2] & 63u8),
        ] + b64_encode(b.skip(3))
    }
}

/// Every character of the Base64 alphabet is ASCII and no line feed.
proof fn lemma_b64_char_plain(v: u8)
    ensures
        '\0' <= b64_char(v) <= '\u{7f}',
        b64_char(v) != '\n',
{
}

/// Base64 text is ASCII and holds no line feed, so it travels as one line.
pub proof fn lemma_b64_text_is_one_line(b: Seq<u8>)
    ensures
        is_ascii_chars(b64_encode(b)),
        forall|i: int| 0 <= i < b64_encode(b).len() ==> #[trigger] b64_encode(b)[i] != '\n',
    decreases b.len(),
{
    let t = b64_encode(b);
    if b.len() == 0 {
    } else if b.len() == 1 {
        lemma_b64_char_plain(b[0] >> 2u8);
        lemma_b64_char_plain((b[0] & 3u8) << 4u8);
    } else if b.len() == 2 {
        lemma_b64_char_plain(b[0] >> 2u8);
        lemma_b64_char_plain(((b[0] & 3u8) << 4u8) | (b[1] >> 4u8));
        lemma_b64_char_plain((b[1] & 15u8) << 2u8);
    } else {
        let head = seq![
            b64_char(b[0] >> 2u8),
            b64_char(((b[0] & 3u8) << 4u8) | (b[1] >> 4u8)),
            b64_char(((b[1] & 15u8) << 2u8) | (b[2] >> 6u8)),
            b64_char(b[2] & 63u8),
        ];
        lemma_b64_char_plain(b[0] >> 2u8);
        lemma_b64_char_plain(((b[0] & 3u8) << 4u8) | (b[1] >> 4u8));
        lemma_b64_char_plain(((b[1] & 15u8) << 2u8) | (b[2] >> 6u8));
        lemma_b64_char_plain(b[2] & 63u8);
        lemma_b64_text_is_one_line(b.skip(3));
        let tail = b64_encode(b.skip(3));
        assert(t == head + tail);
        assert forall|i: int| 0 <= i < t.len() implies '\0' <= #[trigger] t[i] <= '\u{7f}' && t[i] != '\n' by {
            if i < 4 {
                assert(t[i] == head[i]);
            } else {
                assert(t[i] == tail[i - 4]);
            }
        }
    }
}

/// What `general_purpose::STANDARD.decode` gives for a text: the bytes, or the
/// text of the `DecodeError`.
pub uninterp spec fn b64_decoded(text: Seq<char>) -> Result<Seq<u8>, Seq<char>>;

/// What `simple_encrypt::decrypt_string` gives for a ciphertext and a key: the
/// plaintext, or the text of its error (`{:#}`).
pub uninterp spec fn decrypted_text(encrypted: Seq<u8>, key: Seq<u8>) -> Result<Seq<char>, Seq<char>>;

/// A successful text outcome.
pub open spec fn ok_text(s: Seq<char>) -> Result<Seq<char>, Seq<char>> {
    Ok(s)
}

/// A successful byte outcome.
pub open spec fn ok_bytes(b: Seq<u8>) -> Result<Seq<u8>, Seq<char>> {
    Ok(b)
}

/// A failed byte outcome, with the text of its error.
pub open spec fn bad_bytes(e: Seq<char>) -> Result<Seq<u8>, Seq<char>> {
    Err(e)
}

/// The error text of a result, if it is an error.
pub open spec fn result_error<T>(r: Result<T, String>) -> Option<Seq<char>> {
    match r {
        Ok(_) => None,
        Err(e) => Some(e@),
    }
}

/// The view of a result of two strings.
pub open spec fn result_view(r: Result<String, String>) -> Result<Seq<char>, Seq<char>> {
    match r {
        Ok(s) => Ok(s@),
        Err(e) => Err(e@),
    }
}

/// The bound on a text that keeps the Base64 length of its sealed form within
/// `usize` (a longer text cannot be held in memory).
pub open spec fn sealable(txt: Seq<char>) -> bool {
    encode_utf8(txt).len() <= usize::MAX / 2
}

/// `s` is a sealed form of `plain` under `key`: the Base64 text of a
/// ciphertext, 28 bytes longer than the UTF-8 of `plain` (nonce and tag),
/// that decodes back and that decrypts to `plain` under `key`.
pub open spec fn sealed_for(s: Seq<char>, plain: Seq<char>, key: Seq<u8>) -> bool {
    exists|c: Seq<u8>|
        #![trigger b64_encode(c)]
        s == b64_encode(c) && c.len() == encode_utf8(plain).len() + 28 && b64_decoded(s) == ok_bytes(c)
            && decrypted_text(c, key) == ok_text(plain)
}

/// What `uncypher` gives for a text and a passcode.
pub open spec fn opened(txt: Seq<char>, code: Seq<char>) -> Result<Seq<char>, Seq<char>> {
    match b64_decoded(txt) {
        Err(e) => Err("Could not decode base64("@ + txt + "): "@ + e),
        Ok(b) => match decrypted_text(b, key_of(code)) {
            Ok(p) => Ok(p),
            Err(e) => Err("Could  not decrypt data: "@ + e),
        },
    }
}

/// `general_purpose::STANDARD.encode`: standard padded Base64; its output
/// decodes back to the input.
#[verifier::external_body]
fn b64_encode_bytes(bytes: &[u8]) -> (out: String)
    requires
        (bytes@.len() / 3) * 4 + 4 <= usize::MAX,
    ensures
        out@ == b64_encode(bytes@),
        b64_decoded(out@) == ok_bytes(bytes@),
{
    general_purpose::STANDARD.encode(bytes)
}

/// `general_purpose::STANDARD.decode`, with the `DecodeError` turned into its
/// text; the outcome is named by `b64_decoded`. The engine requires
/// canonical padding and no trailing bits, so a text it decodes is the
/// standard encoding of the bytes it gives.
#[verifier::external_body]
fn b64_decode_text(text: &str) -> (out: Result<Vec<u8>, String>)
    ensures
        out matches Ok(v) ==> b64_decoded(text@) == ok_bytes(v@),
        out matches Ok(v) ==> text@ == b64_encode(v@),
        out matches Err(e) ==> b64_decoded(text@) == bad_bytes(e@),
{
    general_purpose::STANDARD.decode(text).map_err(|e| format!("{e:#}"))
}

/// `simple_encrypt::encrypt_string`: AES-GCM-256 under a fresh random nonce,
/// the nonce put before the ciphertext and its tag. The key must have
/// 32 bytes; a sealed text is 28 bytes longer than the plaintext's UTF-8 and
/// decrypts back to it. The nonce, and so the ciphertext, is not stated: it
/// comes from the operating system's random source, whose failure is an
/// error too.
#[verifier::external_body]
fn encrypt_text(plaintext: &str, key: &[u8]) -> (out: Result<Vec<u8>, String>)
    ensures
        key@.len() != 32 ==> result_error(out) == Some("Key must be exactly 32 bytes"@),
        out matches Ok(c) ==> c@.len() == encode_utf8(plaintext@).len() + 28,
        out matches Ok(c) ==> decrypted_text(c@, key@) == ok_text(plaintext@),
{
    simple_encrypt::encrypt_string(plaintext, key).map_err(|e| format!("{e:#}"))
}

/// `simple_encrypt::decrypt_string`, with the error turned into its text
/// (`{:#}`); the outcome is named by `decrypted_text`. A key that is not
/// 32 bytes long, and then a ciphertext shorter than its 12-byte nonce, are
/// refused with the messages the source gives.
#[verifier::external_body]
fn decrypt_text(encrypted: &[u8], key: &[u8]) -> (out: Result<String, String>)
    ensures
        result_view(out) == decrypted_text(encrypted@, key@),
        key@.len() != 32 ==> result_error(out) == Some("Key must be exactly 32 bytes"@),
        key@.len() == 32 && encrypted@.len() < 12 ==> result_error(out) == Some(
            "Encrypted data too short"@,
        ),
{
    simple_encrypt::decrypt_string(encrypted, key).map_err(|e| format!("{e:#}"))
}

/// The key that the passcode `code` gives: its UTF-8 bytes, cut or padded
/// with zero bytes to 32 bytes.
pub fn normalize_key(code: &str) -> (key: Vec<u8>)
    ensures
        key@ == key_of(code@),
        key@.len() == KEY_LEN,
{
    let mut v = vstd::slice::slice_to_vec(code.as_bytes());
    let ghost b = v@;
    v.resize(KEY_LEN, 0u8);
    assert(v@ =~= key_of(code@));
    v
}

/// What sealing makes of the outcome of the encryption: the Base64 text of
/// the ciphertext, or the encryption's error after a fixed prefix.
pub open spec fn sealed_outcome(enc: Result<Seq<u8>, Seq<char>>) -> Result<Seq<char>, Seq<char>> {
    match enc {
        Ok(c) => Ok(b64_encode(c)),
        Err(e) => Err("Could not encrypt data: "@ + e),
    }
}

/// The view of an encryption outcome.
pub open spec fn bytes_result_view(r: Result<Vec<u8>, String>) -> Result<Seq<u8>, Seq<char>> {
    match r {
        Ok(c) => Ok(c@),
        Err(e) => Err(e@),
    }
}

/// Turns the outcome of the encryption into the sealed text: the ciphertext
/// in Base64, or the encryption's error after the prefix
/// `Could not encrypt data: `.
pub fn seal_outcome(enc: Result<Vec<u8>, String>) -> (out: Result<String, String>)
    requires
        enc matches Ok(c) ==> (c@.len() / 3) * 4 + 4 <= usize::MAX,
    ensures
        result_view(out) == sealed_outcome(bytes_result_view(enc)),
        enc matches Ok(c) ==> b64_decoded(b64_encode(c@)) == ok_bytes(c@),
{
    match enc {
        Ok(c) => Ok(b64_encode_bytes(c.as_slice())),
        Err(e) => Err(concat("Could not encrypt data: ", e.as_str())),
    }
}

/// Seals `txt` under the passcode `code`: encrypts it with the passcode's key
/// (a fresh random nonce each time) and turns the outcome into text with
/// `seal_outcome`. What comes out opens again to `txt` under the same
/// passcode.
pub fn cypher(txt: &String, code: &str) -> (out: Result<String, String>)
    requires
        sealable(txt@),
    ensures
        exists|enc: Result<Seq<u8>, Seq<char>>|
            #[trigger] sealed_outcome(enc) == result_view(out) && (enc matches Ok(c) ==> c.len()
                == encode_utf8(txt@).len() + 28 && decrypted_text(c, key_of(code@)) == ok_text(
                txt@,
            )),
        out matches Ok(s) ==> sealed_for(s@, txt@, key_of(code@)),
        out matches Ok(s) ==> opened(s@, code@) == ok_text(txt@),
        out matches Err(e) ==> has_encrypt_prefix(e@),
{
    let key = normalize_key(code);
    let enc = encrypt_text(txt.as_str(), key.as_slice());
    let ghost ev = bytes_result_view(enc);
    proof {
        if ev is Ok {
            let c = ev->Ok_0;
            let n = encode_utf8(txt@).len();
            assert((c.len() / 3) * 4 + 4 <= usize::MAX) by (nonlinear_arith)
                requires
                    c.len() == n + 28,
                    n <= usize::MAX / 2,
                    usize::MAX >= 0xffff_ffff,
            ;
        }
    }
    let out = seal_outcome(enc);
    proof {
        assert(sealed_outcome(ev) == result_view(out));
        if out is Ok {
            let c = ev->Ok_0;
            assert(out->Ok_0@ == b64_encode(c));
            assert(sealed_for(out->Ok_0@, txt@, key_of(code@)));
        }
        if out is Err {
            let e = ev->Err_0;
            assert(out->Err_0@ == "Could not encrypt data: "@ + e);
        }
    }
    out
}

/// The error text of a failed seal starts with its fixed prefix.
pub open spec fn has_encrypt_prefix(e: Seq<char>) -> bool {
    exists|reason: Seq<char>| e == "Could not encrypt data: "@ + reason
}

/// Opens a sealed text with the passcode `code`: decodes the Base64 and
/// decrypts it with the passcode's key. Each step that fails gives its own
/// error text.
pub fn uncypher(txt: String, code: &str) -> (out: Result<String, String>)
    ensures
        result_view(out) == opened(txt@, code@),
{
    match b64_decode_text(txt.as_str()) {
        Err(e) => {
            let m = concat("Could not decode base64(", txt.as_str());
            let m = concat(m.as_str(), "): ");
            let m = concat(m.as_str(), e.as_str());
            Err(m)
        },
        Ok(bytes) => {
            let key = normalize_key(code);
            match decrypt_text(bytes.as_slice(), key.as_slice()) {
                Ok(p) => Ok(p),
                Err(e) => Err(concat("Could  not decrypt data: ", e.as_str())),
            }
        },
    }
}

/// Whatever `cypher` seals opens again with `uncypher` under the same
/// passcode, to the very text that was sealed.
pub proof fn lemma_uncypher_opens_cypher(sealed: Seq<char>, plain: Seq<char>, code: Seq<char>)
    requires
        sealed_for(sealed, plain, key_of(code)),
    ensures
        opened(sealed, code) == ok_text(plain),
{
    let c = choose|c: Seq<u8>|
        #![trigger b64_encode(c)]
        sealed == b64_encode(c) && c.len() == encode_utf8(plain).len() + 28 && b64_decoded(sealed)
            == ok_bytes(c) && decrypted_text(c, key_of(code)) == ok_text(plain);
    assert(b64_decoded(sealed) == ok_bytes(c));
}

/// Two passcodes whose UTF-8 bytes agree on the first 32 give the same key.
pub proof fn lemma_key_uses_first_32_bytes(a: Seq<char>, b: Seq<char>)
    requires
        encode_utf8(a).len() >= KEY_LEN,
        encode_utf8(b).len() >= KEY_LEN,
        encode_utf8(a).take(KEY_LEN as int) == encode_utf8(b).take(KEY_LEN as int),
    ensures
        key_of(a) == key_of(b),
{
}

} // verus!
