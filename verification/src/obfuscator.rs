//! Reversible field obfuscation: a repeating-key byte-wise XOR over the
//! plaintext's UTF-8 bytes, stored as radix-64 text.
//!
//! This is obfuscation, not cryptographic confidentiality: it prevents
//! casual plaintext inspection of the data file but not a motivated
//! reader. The transform is deterministic, so equal plaintexts yield
//! equal stored texts and ciphertext leaks equality.

use vstd::prelude::*;

use crate::codec::{decode_radix64, encode_radix64, is_r64_byte, r64_decode, r64_encode};
use crate::codec::{lemma_decode_of_encode, lemma_decode_some_in_alphabet, lemma_encode_ascii};
use crate::codec::{is_r64_or_pad, PAD_BYTE};
use crate::errors::AppError;

verus! {

broadcast use vstd::utf8::group_utf8_lib;

/// The repeating-key XOR of a byte sequence: byte `i` is combined with
/// key byte `i` modulo the key length.
pub open spec fn xor_stream(data: Seq<u8>, key: Seq<u8>) -> Seq<u8>
    recommends
        key.len() > 0,
{
    Seq::new(data.len(), |i: int| data[i] ^ key[i % (key.len() as int)])
}

/// XOR with one byte twice gives the original byte back.
proof fn lemma_xor_twice(a: u8, b: u8)
    ensures
        (a ^ b) ^ b == a,
{
    assert((a ^ b) ^ b == a) by (bit_vector);
}

/// Applying the repeating-key XOR twice with the same key gives the
/// original bytes back.
pub proof fn lemma_xor_stream_involution(data: Seq<u8>, key: Seq<u8>)
    requires
        key.len() > 0,
    ensures
        xor_stream(xor_stream(data, key), key) == data,
{
    let once = xor_stream(data, key);
    let twice = xor_stream(once, key);
    assert forall|i: int| 0 <= i < data.len() implies twice[i] == data[i] by {
        lemma_xor_twice(data[i], key[i % (key.len() as int)]);
    }
    assert(twice =~= data);
}

/// Executable repeating-key XOR.
fn apply_xor(data: &Vec<u8>, key: &Vec<u8>) -> (out: Vec<u8>)
    requires
        key@.len() > 0,
    ensures
        out@ == xor_stream(data@, key@),
{
    let n = data.len();
    let klen = key.len();
    let mut out: Vec<u8> = Vec::new();
    let mut i: usize = 0;
    while i < n
        invariant
            i <= n,
            n == data@.len(),
            klen == key@.len(),
            klen > 0,
            out@.len() == i,
            forall|j: int| 0 <= j < i ==> out@[j] == xor_stream(data@, key@)[j],
        decreases n - i,
    {
        out.push(data[i] ^ key[i % klen]);
        i = i + 1;
    }
    assert(out@ =~= xor_stream(data@, key@));
    out
}

/// What the stored text holds for a given plaintext: the radix-64
/// encoding of the XOR-ed UTF-8 bytes of the plaintext. The relation
/// is stated over the stored text's own UTF-8 bytes.
pub open spec fn obscured(plain: Seq<char>, stored: Seq<char>, key: Seq<u8>) -> bool {
    vstd::utf8::encode_utf8(stored) == r64_encode(xor_stream(vstd::utf8::encode_utf8(plain), key))
}

/// The plaintext recovered from a stored text, or `None` when the
/// stored text is not a well-formed encoding: its radix-64 layer does
/// not decode, or the XOR-reversed bytes are not valid UTF-8.
pub open spec fn revealed(stored: Seq<char>, key: Seq<u8>) -> Option<Seq<char>> {
    match r64_decode(vstd::utf8::encode_utf8(stored)) {
        Some(x) => {
            let p = xor_stream(x, key);
            if vstd::utf8::valid_utf8(p) {
                Some(vstd::utf8::decode_utf8(p))
            } else {
                None
            }
        },
        None => None,
    }
}

/// Obscuring then revealing with the same key gives the plaintext
/// back, for every plaintext including the empty string and strings
/// with multi-byte characters.
pub proof fn lemma_obscure_reveal_round_trip(plain: Seq<char>, stored: Seq<char>, key: Seq<u8>)
    requires
        key.len() > 0,
        obscured(plain, stored, key),
    ensures
        revealed(stored, key) == Some(plain),
{
    let pb = vstd::utf8::encode_utf8(plain);
    let x = xor_stream(pb, key);
    lemma_decode_of_encode(x);
    lemma_xor_stream_involution(pb, key);
}

/// Obscuring is deterministic: the stored text's bytes are a function
/// of the plaintext and key alone, so repeated calls with equal inputs
/// agree.
pub proof fn lemma_obscure_deterministic(
    p1: Seq<char>,
    s1: Seq<char>,
    p2: Seq<char>,
    s2: Seq<char>,
    key: Seq<u8>,
)
    requires
        p1 == p2,
        obscured(p1, s1, key),
        obscured(p2, s2, key),
    ensures
        s1 == s2,
{
    broadcast use vstd::utf8::decode_utf8_encode_utf8;

    let e1 = vstd::utf8::encode_utf8(s1);
    let e2 = vstd::utf8::encode_utf8(s2);
    assert(e1 == e2);
    assert(vstd::utf8::valid_utf8(e1));
    assert(s1 == vstd::utf8::decode_utf8(e1));
    assert(s2 == vstd::utf8::decode_utf8(e2));
}

/// True when the character stands for one of the 64 alphabet bytes.
pub open spec fn is_r64_char(c: char) -> bool {
    (c as u32) < 128 && is_r64_byte((c as u32) as u8)
}

/// When every byte of a text's UTF-8 encoding is an alphabet or
/// padding byte, every character of the text is an alphabet character
/// or '='.
proof fn lemma_good_bytes_good_chars(t: Seq<char>)
    requires
        forall|j: int|
            0 <= j < vstd::utf8::encode_utf8(t).len() ==> is_r64_or_pad(
                #[trigger] vstd::utf8::encode_utf8(t)[j],
            ),
    ensures
        forall|i: int| 0 <= i < t.len() ==> is_r64_char(#[trigger] t[i]) || t[i] == '=',
    decreases t.len(),
{
    if t.len() > 0 {
        let c = t[0] as u32;
        let e = vstd::utf8::encode_utf8(t);
        let head = vstd::utf8::encode_scalar(c);
        vstd::utf8::char_is_scalar(t[0]);
        assert(head.len() >= 1);
        assert(e[0] == head[0]);
        if c >= 128 {
            if vstd::utf8::has_width_2_encoding(c) {
                let m = ((c >> 6) & 0x1F) as u8;
                assert(head[0] == 0xC0u8 | m);
                assert((0xC0u8 | m) >= 0xc0) by (bit_vector);
            } else if vstd::utf8::has_width_3_encoding(c) {
                let m = ((c >> 12) & 0x0F) as u8;
                assert(head[0] == 0xE0u8 | m);
                assert((0xE0u8 | m) >= 0xc0) by (bit_vector);
            } else {
                let m = ((c >> 18) & 0x7) as u8;
                assert(head[0] == 0xF0u8 | m);
                assert((0xF0u8 | m) >= 0xc0) by (bit_vector);
            }
            assert(!is_r64_or_pad(e[0]));
            assert(false);
        }
        assert(vstd::utf8::has_width_1_encoding(c));
        assert(head[0] == (c & 0x7F) as u8);
        assert(c & 0x7F == c) by (bit_vector)
            requires
                c < 128,
        ;
        assert(e[0] == c as u8);
        assert(is_r64_char(t[0]) || t[0] == '=') by {
            assert(is_r64_or_pad(e[0]));
            if e[0] == PAD_BYTE {
                assert(c == 61);
                assert(t[0] == '=') by {
                    vstd::utf8::char_u32_cast(t[0], c);
                }
            }
        }
        let rest = t.drop_first();
        assert(vstd::utf8::encode_utf8(rest) =~= e.skip(1));
        assert forall|j: int|
            0 <= j < vstd::utf8::encode_utf8(rest).len() implies is_r64_or_pad(
            #[trigger] vstd::utf8::encode_utf8(rest)[j],
        ) by {
            assert(vstd::utf8::encode_utf8(rest)[j] == e[j + 1]);
        }
        lemma_good_bytes_good_chars(rest);
        assert forall|i: int| 0 <= i < t.len() implies is_r64_char(#[trigger] t[i]) || t[i]
            == '=' by {
            if i >= 1 {
                assert(t[i] == rest[i - 1]);
            }
        }
    }
}

/// A stored text holding any character outside the radix-64 alphabet
/// (and distinct from '=') cannot be revealed: decoding fails.
pub proof fn lemma_reveal_rejects_foreign_char(stored: Seq<char>, key: Seq<u8>)
    requires
        exists|i: int| 0 <= i < stored.len() && !is_r64_char(stored[i]) && stored[i] != '=',
    ensures
        revealed(stored, key) is None,
{
    let e = vstd::utf8::encode_utf8(stored);
    if r64_decode(e) is Some {
        lemma_decode_some_in_alphabet(e);
        lemma_good_bytes_good_chars(stored);
        assert(false);
    }
}

/// Reversible obfuscation with a fixed process-wide key.
pub struct EncryptionService {
    key: Vec<u8>,
}

impl EncryptionService {
    /// The key bytes this service transforms with.
    pub closed spec fn key_bytes(&self) -> Seq<u8> {
        self.key@
    }

    /// A usable service has a non-empty key; the repeating-key XOR is
    /// undefined for an empty one.
    pub open spec fn wf(&self) -> bool {
        self.key_bytes().len() > 0
    }

    /// Build a service over the UTF-8 bytes of the given key text.
    pub fn new(key: String) -> (s: Self)
        ensures
            s.key_bytes() == vstd::utf8::encode_utf8(key@),
    {
        EncryptionService { key: key.as_str().as_bytes_vec() }
    }

    /// Obscure a plaintext: XOR its UTF-8 bytes with the repeating
    /// key, then encode the result as radix-64 text. Never fails, and
    /// the empty string encodes to the empty string.
    pub fn encrypt(&self, data: &str) -> (r: Result<String, AppError>)
        requires
            self.wf(),
        ensures
            r matches Ok(stored) && obscured(data@, stored@, self.key_bytes()),
    {
        let plain_bytes = data.as_bytes_vec();
        let xored = apply_xor(&plain_bytes, &self.key);
        let encoded = encode_radix64(&xored);
        proof {
            lemma_encode_ascii(xored@);
            lemma_ascii_bytes_valid_utf8(encoded@);
        }
        match string_from_utf8(encoded) {
            Some(stored) => {
                proof {
                    broadcast use vstd::utf8::decode_utf8_encode_utf8;

                }
                Ok(stored)
            },
            None => {
                // unreachable: the encoded bytes are printable ASCII
                Err(AppError::Encryption(String::from_str("stored text is not valid UTF-8")))
            },
        }
    }

    /// Reveal a stored text: reverse the radix-64 layer, reverse the
    /// XOR, and validate the result as UTF-8. Fails with an
    /// encryption error exactly when the stored text is not a
    /// well-formed encoding.
    pub fn decrypt(&self, encrypted_data: &str) -> (r: Result<String, AppError>)
        requires
            self.wf(),
        ensures
            r matches Ok(plain) ==> revealed(encrypted_data@, self.key_bytes()) == Some(plain@),
            r is Err <==> revealed(encrypted_data@, self.key_bytes()) is None,
    {
        let stored_bytes = encrypted_data.as_bytes_vec();
        let decoded = match decode_radix64(&stored_bytes) {
            Some(d) => d,
            None => {
                return Err(
                    AppError::Encryption(String::from_str("stored text is not radix-64")),
                );
            },
        };
        let plain_bytes = apply_xor(&decoded, &self.key);
        match string_from_utf8(plain_bytes) {
            Some(plain) => Ok(plain),
            None => Err(AppError::Encryption(String::from_str("decoded bytes are not UTF-8"))),
        }
    }
}

/// A sequence of bytes below 128 is a valid UTF-8 encoding (each byte
/// is a one-byte scalar).
pub proof fn lemma_ascii_bytes_valid_utf8(b: Seq<u8>)
    requires
        forall|i: int| 0 <= i < b.len() ==> #[trigger] b[i] < 128,
    ensures
        vstd::utf8::valid_utf8(b),
    decreases b.len(),
{
    if b.len() > 0 {
        let b0 = b[0];
        assert(vstd::utf8::is_leading_byte_width_1(b0));
        assert((b0 & 0x7f) < 128) by (bit_vector);
        assert(vstd::utf8::valid_first_scalar(b));
        assert(vstd::utf8::length_of_first_scalar(b) == 1);
        let rest = vstd::utf8::pop_first_scalar(b);
        assert(rest =~= b.skip(1));
        assert forall|i: int| 0 <= i < rest.len() implies #[trigger] rest[i] < 128 by {
            assert(rest[i] == b[i + 1]);
        }
        lemma_ascii_bytes_valid_utf8(rest);
    }
}

/// Relies on String::from_utf8: it succeeds exactly on valid UTF-8
/// input and returns the string whose characters decode those bytes.
#[verifier::external_body]
fn string_from_utf8(bytes: Vec<u8>) -> (r: Option<String>)
    ensures
        r is Some <==> vstd::utf8::valid_utf8(bytes@),
        r matches Some(s) ==> s@ == vstd::utf8::decode_utf8(bytes@),
{
    match String::from_utf8(bytes) {
        Ok(s) => Some(s),
        Err(_) => None,
    }
}

/// Obscure a sensitive string with the given service.
pub fn encrypt_sensitive_data(data: &str, service: &EncryptionService) -> (r: Result<
    String,
    AppError,
>)
    requires
        service.wf(),
    ensures
        r matches Ok(stored) && obscured(data@, stored@, service.key_bytes()),
{
    service.encrypt(data)
}

/// Reveal a sensitive string with the given service.
pub fn decrypt_sensitive_data(encrypted_data: &str, service: &EncryptionService) -> (r: Result<
    String,
    AppError,
>)
    requires
        service.wf(),
    ensures
        r matches Ok(plain) ==> revealed(encrypted_data@, service.key_bytes()) == Some(plain@),
        r is Err <==> revealed(encrypted_data@, service.key_bytes()) is None,
{
    service.decrypt(encrypted_data)
}

} // verus!
