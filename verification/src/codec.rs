//! Radix-64 text encoding: a reversible mapping from raw bytes to
//! printable ASCII, three input bytes to four output characters drawn
//! from the 64-symbol alphabet `A-Z a-z 0-9 + /`, with `=` padding for
//! a final group of one or two bytes.
//!
//! The encoding is used purely as a text-safe container, not for
//! confidentiality.

use vstd::prelude::*;

verus! {

/// The padding byte, ASCII '='.
pub const PAD_BYTE: u8 = 61;

/// ASCII byte standing for a 6-bit value: 'A'-'Z' for 0-25, 'a'-'z'
/// for 26-51, '0'-'9' for 52-61, '+' for 62 and '/' for 63.
pub open spec fn r64_byte_of(v: int) -> u8
    recommends
        0 <= v < 64,
{
    if v < 26 {
        (65 + v) as u8
    } else if v < 52 {
        (97 + v - 26) as u8
    } else if v < 62 {
        (48 + v - 52) as u8
    } else if v == 62 {
        43u8
    } else {
        47u8
    }
}

/// The 6-bit value of an alphabet byte, or -1 when the byte is not in
/// the alphabet (the padding byte '=' is not in the alphabet).
pub open spec fn r64_value_of(b: u8) -> int {
    if 65 <= b <= 90 {
        b - 65
    } else if 97 <= b <= 122 {
        b - 97 + 26
    } else if 48 <= b <= 57 {
        b - 48 + 52
    } else if b == 43 {
        62
    } else if b == 47 {
        63
    } else {
        -1
    }
}

/// True when the byte is one of the 64 alphabet bytes.
pub open spec fn is_r64_byte(b: u8) -> bool {
    r64_value_of(b) >= 0
}

/// True when the byte may occur in an encoded text: an alphabet byte
/// or the padding byte.
pub open spec fn is_r64_or_pad(b: u8) -> bool {
    is_r64_byte(b) || b == PAD_BYTE
}

/// Four output bytes for a full group of three input bytes.
pub open spec fn enc3(a: u8, b: u8, c: u8) -> Seq<u8> {
    seq![
        r64_byte_of(a as int / 4),
        r64_byte_of((a as int % 4) * 16 + b as int / 16),
        r64_byte_of((b as int % 16) * 4 + c as int / 64),
        r64_byte_of(c as int % 64),
    ]
}

/// Four output bytes for a final group of two input bytes: three data
/// bytes and one padding byte.
pub open spec fn enc2(a: u8, b: u8) -> Seq<u8> {
    seq![
        r64_byte_of(a as int / 4),
        r64_byte_of((a as int % 4) * 16 + b as int / 16),
        r64_byte_of((b as int % 16) * 4),
        PAD_BYTE,
    ]
}

/// Four output bytes for a final group of one input byte: two data
/// bytes and two padding bytes.
pub open spec fn enc1(a: u8) -> Seq<u8> {
    seq![r64_byte_of(a as int / 4), r64_byte_of((a as int % 4) * 16), PAD_BYTE, PAD_BYTE]
}

/// The radix-64 encoding of a byte sequence, processed front to back
/// in groups of three.
pub open spec fn r64_encode(s: Seq<u8>) -> Seq<u8>
    decreases s.len(),
{
    if s.len() == 0 {
        Seq::empty()
    } else if s.len() == 1 {
        enc1(s[0])
    } else if s.len() == 2 {
        enc2(s[0], s[1])
    } else {
        enc3(s[0], s[1], s[2]) + r64_encode(s.skip(3))
    }
}

/// First decoded byte of a group: the six bits of `w` and the top two
/// bits carried by `x`.
pub open spec fn dec_a(w: u8, x: u8) -> u8 {
    (r64_value_of(w) * 4 + r64_value_of(x) / 16) as u8
}

/// Second decoded byte of a group.
pub open spec fn dec_b(x: u8, y: u8) -> u8 {
    ((r64_value_of(x) % 16) * 16 + r64_value_of(y) / 4) as u8
}

/// Third decoded byte of a group.
pub open spec fn dec_c(y: u8, z: u8) -> u8 {
    ((r64_value_of(y) % 4) * 64 + r64_value_of(z)) as u8
}

/// The three bytes of a full data group.
pub open spec fn dec3(w: u8, x: u8, y: u8, z: u8) -> Seq<u8> {
    seq![dec_a(w, x), dec_b(x, y), dec_c(y, z)]
}

/// Decoding of the final four-byte group, which may carry one or two
/// padding bytes. Unused trailing bits must be zero, so that decoding
/// accepts exactly the outputs of the encoder.
pub open spec fn r64_decode_last(e: Seq<u8>) -> Option<Seq<u8>>
    recommends
        e.len() == 4,
{
    let w = e[0];
    let x = e[1];
    let y = e[2];
    let z = e[3];
    if is_r64_byte(w) && is_r64_byte(x) && is_r64_byte(y) && is_r64_byte(z) {
        Some(dec3(w, x, y, z))
    } else if is_r64_byte(w) && is_r64_byte(x) && is_r64_byte(y) && z == PAD_BYTE && r64_value_of(
        y,
    ) % 4 == 0 {
        Some(seq![dec_a(w, x), dec_b(x, y)])
    } else if is_r64_byte(w) && is_r64_byte(x) && y == PAD_BYTE && z == PAD_BYTE && r64_value_of(
        x,
    ) % 16 == 0 {
        Some(seq![dec_a(w, x)])
    } else {
        None
    }
}

/// The radix-64 decoding of an encoded byte sequence: `None` when the
/// input is not an output of `r64_encode` (a byte outside the
/// alphabet, a length that is not a multiple of four, padding anywhere
/// but the final group, or nonzero unused trailing bits).
pub open spec fn r64_decode(e: Seq<u8>) -> Option<Seq<u8>>
    decreases e.len(),
{
    if e.len() == 0 {
        Some(Seq::empty())
    } else if e.len() < 4 {
        None
    } else if e.len() == 4 {
        r64_decode_last(e)
    } else if is_r64_byte(e[0]) && is_r64_byte(e[1]) && is_r64_byte(e[2]) && is_r64_byte(e[3]) {
        match r64_decode(e.skip(4)) {
            Some(rest) => Some(dec3(e[0], e[1], e[2], e[3]) + rest),
            None => None,
        }
    } else {
        None
    }
}

/// The alphabet maps are inverse to one another, and every alphabet
/// byte differs from the padding byte.
pub proof fn lemma_alphabet_inverse()
    ensures
        forall|v: int|
            0 <= v < 64 ==> r64_value_of(#[trigger] r64_byte_of(v)) == v && is_r64_byte(
                r64_byte_of(v),
            ),
        !is_r64_byte(PAD_BYTE),
{
}

/// The four bytes of each encoding group are alphabet or padding
/// bytes.
proof fn lemma_groups_in_alphabet(a: u8, b: u8, c: u8)
    ensures
        is_r64_or_pad(enc3(a, b, c)[0]),
        is_r64_or_pad(enc3(a, b, c)[1]),
        is_r64_or_pad(enc3(a, b, c)[2]),
        is_r64_or_pad(enc3(a, b, c)[3]),
        is_r64_or_pad(enc2(a, b)[0]),
        is_r64_or_pad(enc2(a, b)[1]),
        is_r64_or_pad(enc2(a, b)[2]),
        is_r64_or_pad(enc2(a, b)[3]),
        is_r64_or_pad(enc1(a)[0]),
        is_r64_or_pad(enc1(a)[1]),
        is_r64_or_pad(enc1(a)[2]),
        is_r64_or_pad(enc1(a)[3]),
{
    lemma_alphabet_inverse();
}

/// Every byte of an encoded sequence is an alphabet byte or padding.
pub proof fn lemma_encode_in_alphabet(s: Seq<u8>)
    ensures
        forall|i: int| 0 <= i < r64_encode(s).len() ==> is_r64_or_pad(#[trigger] r64_encode(s)[i]),
    decreases s.len(),
{
    if s.len() == 0 {
    } else {
        lemma_groups_in_alphabet(
            s[0],
            if s.len() >= 2 {
                s[1]
            } else {
                0
            },
            if s.len() >= 3 {
                s[2]
            } else {
                0
            },
        );
        if s.len() > 3 {
            lemma_encode_in_alphabet(s.skip(3));
        }
        assert forall|i: int| 0 <= i < r64_encode(s).len() implies is_r64_or_pad(
            #[trigger] r64_encode(s)[i],
        ) by {
            if s.len() > 3 && i >= 4 {
                assert(r64_encode(s)[i] == r64_encode(s.skip(3))[i - 4]);
            } else {
                assert(i == 0 || i == 1 || i == 2 || i == 3);
            }
        }
    }
}

/// Every byte of an encoded sequence is printable ASCII.
pub proof fn lemma_encode_ascii(s: Seq<u8>)
    ensures
        forall|i: int| 0 <= i < r64_encode(s).len() ==> #[trigger] r64_encode(s)[i] < 128,
{
    lemma_encode_in_alphabet(s);
}

/// Decoding succeeds only on sequences made of alphabet and padding
/// bytes.
pub proof fn lemma_decode_some_in_alphabet(e: Seq<u8>)
    requires
        r64_decode(e) is Some,
    ensures
        forall|i: int| 0 <= i < e.len() ==> is_r64_or_pad(#[trigger] e[i]),
    decreases e.len(),
{
    if e.len() == 0 {
    } else if e.len() == 4 {
    } else {
        lemma_decode_some_in_alphabet(e.skip(4));
        assert forall|i: int| 0 <= i < e.len() implies is_r64_or_pad(#[trigger] e[i]) by {
            if i >= 4 {
                assert(e[i] == e.skip(4)[i - 4]);
            }
        }
    }
}

/// Decoding is the exact inverse of encoding: for every byte sequence,
/// decoding the encoding gives back the original bytes.
pub proof fn lemma_decode_of_encode(s: Seq<u8>)
    ensures
        r64_decode(r64_encode(s)) == Some(s),
    decreases s.len(),
{
    lemma_alphabet_inverse();
    if s.len() == 0 {
        assert(s =~= Seq::<u8>::empty());
    } else if s.len() == 1 {
        let a = s[0];
        assert(r64_decode_last(enc1(a)) == Some(seq![dec_a(enc1(a)[0], enc1(a)[1])]));
        assert(dec_a(enc1(a)[0], enc1(a)[1]) == a);
        assert(seq![a] =~= s);
    } else if s.len() == 2 {
        let a = s[0];
        let b = s[1];
        let e = enc2(a, b);
        assert(r64_value_of(e[2]) % 4 == 0);
        assert(dec_a(e[0], e[1]) == a);
        assert(dec_b(e[1], e[2]) == b);
        assert(seq![a, b] =~= s);
    } else if s.len() == 3 {
        let e = enc3(s[0], s[1], s[2]);
        assert(s.skip(3) =~= Seq::<u8>::empty());
        assert(r64_encode(s.skip(3)) =~= Seq::<u8>::empty());
        assert(r64_encode(s) =~= e);
        assert(dec_a(e[0], e[1]) == s[0]);
        assert(dec_b(e[1], e[2]) == s[1]);
        assert(dec_c(e[2], e[3]) == s[2]);
        assert(dec3(e[0], e[1], e[2], e[3]) =~= s);
    } else {
        let e = r64_encode(s);
        let g = enc3(s[0], s[1], s[2]);
        lemma_decode_of_encode(s.skip(3));
        assert(r64_encode(s.skip(3)).len() >= 4);
        assert(e.skip(4) =~= r64_encode(s.skip(3)));
        assert(dec_a(e[0], e[1]) == s[0]);
        assert(dec_b(e[1], e[2]) == s[1]);
        assert(dec_c(e[2], e[3]) == s[2]);
        assert(dec3(e[0], e[1], e[2], e[3]) + s.skip(3) =~= s);
    }
}

/// Every alphabet byte maps back to itself through its 6-bit value.
pub proof fn lemma_alphabet_inverse_bytes()
    ensures
        forall|b: u8|
            is_r64_byte(b) ==> #[trigger] r64_byte_of(r64_value_of(b)) == b && 0 <= r64_value_of(b)
                < 64,
{
}

/// Decoding accepts exactly the encoder's outputs: whenever decoding
/// succeeds, encoding the result reproduces the input byte for byte.
pub proof fn lemma_encode_of_decode(e: Seq<u8>, s: Seq<u8>)
    requires
        r64_decode(e) == Some(s),
    ensures
        r64_encode(s) == e,
    decreases e.len(),
{
    lemma_alphabet_inverse();
    lemma_alphabet_inverse_bytes();
    if e.len() == 0 {
        assert(s =~= Seq::<u8>::empty());
    } else if e.len() == 4 {
        let w = e[0];
        let x = e[1];
        let y = e[2];
        let z = e[3];
        if is_r64_byte(w) && is_r64_byte(x) && is_r64_byte(y) && is_r64_byte(z) {
            assert(s == dec3(w, x, y, z));
            lemma_group_round_trip(w, x, y, z);
            assert(s[0] == dec_a(w, x) && s[1] == dec_b(x, y) && s[2] == dec_c(y, z));
            assert(enc3(s[0], s[1], s[2]) =~= seq![w, x, y, z]);
            assert(s.skip(3) =~= Seq::<u8>::empty());
            assert(r64_encode(s.skip(3)) =~= Seq::<u8>::empty());
            assert(r64_encode(s) == enc3(s[0], s[1], s[2]) + r64_encode(s.skip(3)));
            assert(r64_encode(s) =~= e);
        } else if is_r64_byte(w) && is_r64_byte(x) && is_r64_byte(y) && z == PAD_BYTE
            && r64_value_of(y) % 4 == 0 {
            assert(s == seq![dec_a(w, x), dec_b(x, y)]);
            lemma_pad1_round_trip(w, x, y);
            assert(s[0] == dec_a(w, x) && s[1] == dec_b(x, y));
            assert(r64_encode(s) == enc2(s[0], s[1]));
            assert(enc2(s[0], s[1]) =~= seq![w, x, y, PAD_BYTE]);
            assert(r64_encode(s) =~= e);
        } else {
            assert(s == seq![dec_a(w, x)]);
            lemma_pad2_round_trip(w, x);
            assert(s[0] == dec_a(w, x));
            assert(r64_encode(s) == enc1(s[0]));
            assert(enc1(s[0]) =~= seq![w, x, PAD_BYTE, PAD_BYTE]);
            assert(r64_encode(s) =~= e);
        }
    } else {
        let rest = e.skip(4);
        let rest_s = r64_decode(rest)->Some_0;
        lemma_encode_of_decode(rest, rest_s);
        assert(rest_s.len() >= 1) by {
            if rest_s.len() == 0 {
                assert(r64_encode(rest_s) =~= Seq::<u8>::empty());
            }
        }
        assert(s == dec3(e[0], e[1], e[2], e[3]) + rest_s);
        lemma_group_round_trip(e[0], e[1], e[2], e[3]);
        assert(s.len() >= 4);
        assert(s.skip(3) =~= rest_s);
        assert(s[0] == dec3(e[0], e[1], e[2], e[3])[0]);
        assert(s[1] == dec3(e[0], e[1], e[2], e[3])[1]);
        assert(s[2] == dec3(e[0], e[1], e[2], e[3])[2]);
        assert(enc3(s[0], s[1], s[2]) =~= seq![e[0], e[1], e[2], e[3]]);
        assert(r64_encode(s) == enc3(s[0], s[1], s[2]) + r64_encode(s.skip(3)));
        assert(r64_encode(s.skip(3)) == e.skip(4));
        assert(r64_encode(s) =~= e);
    }
}

/// A full data group decodes and re-encodes to itself.
proof fn lemma_group_round_trip(w: u8, x: u8, y: u8, z: u8)
    requires
        is_r64_byte(w),
        is_r64_byte(x),
        is_r64_byte(y),
        is_r64_byte(z),
    ensures
        enc3(dec3(w, x, y, z)[0], dec3(w, x, y, z)[1], dec3(w, x, y, z)[2]) =~= seq![w, x, y, z],
{
    lemma_alphabet_inverse_bytes();
    let vw = r64_value_of(w);
    let vx = r64_value_of(x);
    let vy = r64_value_of(y);
    let vz = r64_value_of(z);
    let a = dec_a(w, x) as int;
    let b = dec_b(x, y) as int;
    let c = dec_c(y, z) as int;
    assert(a == vw * 4 + vx / 16);
    assert(b == (vx % 16) * 16 + vy / 4);
    assert(c == (vy % 4) * 64 + vz);
    assert(a / 4 == vw && a % 4 == vx / 16);
    assert(b / 16 == vx % 16 && b % 16 == vy / 4);
    assert(c / 64 == vy % 4 && c % 64 == vz);
    assert((a % 4) * 16 + b / 16 == vx);
    assert((b % 16) * 4 + c / 64 == vy);
}

/// A one-padding group decodes and re-encodes to itself.
proof fn lemma_pad1_round_trip(w: u8, x: u8, y: u8)
    requires
        is_r64_byte(w),
        is_r64_byte(x),
        is_r64_byte(y),
        r64_value_of(y) % 4 == 0,
    ensures
        enc2(dec_a(w, x), dec_b(x, y)) =~= seq![w, x, y, PAD_BYTE],
{
    lemma_alphabet_inverse_bytes();
    let vw = r64_value_of(w);
    let vx = r64_value_of(x);
    let vy = r64_value_of(y);
    let a = dec_a(w, x) as int;
    let b = dec_b(x, y) as int;
    assert(a == vw * 4 + vx / 16);
    assert(b == (vx % 16) * 16 + vy / 4);
    assert(a / 4 == vw && a % 4 == vx / 16);
    assert(b / 16 == vx % 16 && b % 16 == vy / 4);
    assert((a % 4) * 16 + b / 16 == vx);
    assert((b % 16) * 4 == vy);
}

/// A two-padding group decodes and re-encodes to itself.
proof fn lemma_pad2_round_trip(w: u8, x: u8)
    requires
        is_r64_byte(w),
        is_r64_byte(x),
        r64_value_of(x) % 16 == 0,
    ensures
        enc1(dec_a(w, x)) =~= seq![w, x, PAD_BYTE, PAD_BYTE],
{
    lemma_alphabet_inverse_bytes();
    let vw = r64_value_of(w);
    let vx = r64_value_of(x);
    let a = dec_a(w, x) as int;
    assert(a == vw * 4 + vx / 16);
    assert(a / 4 == vw && a % 4 == vx / 16);
    assert((a % 4) * 16 == vx);
}

/// Executable form of `r64_byte_of`.
fn r64_byte(v: u8) -> (r: u8)
    requires
        v < 64,
    ensures
        r == r64_byte_of(v as int),
{
    if v < 26 {
        65 + v
    } else if v < 52 {
        97 + v - 26
    } else if v < 62 {
        48 + v - 52
    } else if v == 62 {
        43
    } else {
        47
    }
}

/// Executable form of `r64_value_of`: the 6-bit value of an alphabet
/// byte, or `None` for any other byte.
fn r64_value(b: u8) -> (r: Option<u8>)
    ensures
        r is Some <==> is_r64_byte(b),
        r matches Some(v) ==> v as int == r64_value_of(b) && v < 64,
{
    if 65 <= b && b <= 90 {
        Some(b - 65)
    } else if 97 <= b && b <= 122 {
        Some(b - 97 + 26)
    } else if 48 <= b && b <= 57 {
        Some(b - 48 + 52)
    } else if b == 43 {
        Some(62)
    } else if b == 47 {
        Some(63)
    } else {
        None
    }
}

/// Encode a byte sequence as radix-64 text (returned as the ASCII
/// bytes of that text).
pub fn encode_radix64(input: &Vec<u8>) -> (out: Vec<u8>)
    ensures
        out@ == r64_encode(input@),
{
    let n = input.len();
    let mut out: Vec<u8> = Vec::new();
    let mut i: usize = 0;
    assert(input@.skip(0) =~= input@);
    while n - i >= 3
        invariant
            i <= n,
            n == input@.len(),
            r64_encode(input@) == out@ + r64_encode(input@.skip(i as int)),
        decreases n - i,
    {
        let a = input[i];
        let b = input[i + 1];
        let c = input[i + 2];
        out.push(r64_byte(a / 4));
        out.push(r64_byte((a % 4) * 16 + b / 16));
        out.push(r64_byte((b % 16) * 4 + c / 64));
        out.push(r64_byte(c % 64));
        proof {
            assert(input@.skip(i as int).skip(3) =~= input@.skip(i as int + 3));
            assert(input@.skip(i as int)[0] == a);
            assert(input@.skip(i as int)[1] == b);
            assert(input@.skip(i as int)[2] == c);
        }
        i = i + 3;
    }
    if n - i == 1 {
        let a = input[i];
        out.push(r64_byte(a / 4));
        out.push(r64_byte((a % 4) * 16));
        out.push(PAD_BYTE);
        out.push(PAD_BYTE);
        proof {
            assert(input@.skip(i as int) =~= seq![a]);
        }
    } else if n - i == 2 {
        let a = input[i];
        let b = input[i + 1];
        out.push(r64_byte(a / 4));
        out.push(r64_byte((a % 4) * 16 + b / 16));
        out.push(r64_byte((b % 16) * 4));
        out.push(PAD_BYTE);
        proof {
            assert(input@.skip(i as int) =~= seq![a, b]);
        }
    } else {
        proof {
            assert(input@.skip(i as int) =~= Seq::<u8>::empty());
        }
    }
    out
}

/// How a decoded group combines with the decoding of the remaining
/// input: a failure anywhere fails the whole decoding.
pub open spec fn decode_combine(prefix: Seq<u8>, rest: Option<Seq<u8>>) -> Option<Seq<u8>> {
    match rest {
        Some(r) => Some(prefix + r),
        None => None,
    }
}

/// Decode radix-64 text (given as its ASCII bytes). Returns `None`
/// exactly when the input is not an output of the encoder.
pub fn decode_radix64(input: &Vec<u8>) -> (r: Option<Vec<u8>>)
    ensures
        match r {
            Some(v) => r64_decode(input@) == Some(v@),
            None => r64_decode(input@) is None,
        },
{
    let n = input.len();
    let mut out: Vec<u8> = Vec::new();
    let mut i: usize = 0;
    assert(input@.skip(0) =~= input@);
    while n - i > 4
        invariant
            i <= n,
            n == input@.len(),
            r64_decode(input@) == decode_combine(out@, r64_decode(input@.skip(i as int))),
        decreases n - i,
    {
        proof {
            assert(input@.skip(i as int).skip(4) =~= input@.skip(i as int + 4));
            assert(input@.skip(i as int)[0] == input@[i as int]);
            assert(input@.skip(i as int)[1] == input@[i as int + 1]);
            assert(input@.skip(i as int)[2] == input@[i as int + 2]);
            assert(input@.skip(i as int)[3] == input@[i as int + 3]);
        }
        let vw = r64_value(input[i]);
        let vx = r64_value(input[i + 1]);
        let vy = r64_value(input[i + 2]);
        let vz = r64_value(input[i + 3]);
        match (vw, vx, vy, vz) {
            (Some(w), Some(x), Some(y), Some(z)) => {
                out.push(w * 4 + x / 16);
                out.push((x % 16) * 16 + y / 4);
                out.push((y % 4) * 64 + z);
            },
            _ => {
                return None;
            },
        }
        i = i + 4;
    }
    if n - i == 0 {
        proof {
            assert(input@.skip(i as int) =~= Seq::<u8>::empty());
            assert(out@ + Seq::<u8>::empty() =~= out@);
        }
        return Some(out);
    }
    if n - i < 4 {
        return None;
    }
    let vw = r64_value(input[i]);
    let vx = r64_value(input[i + 1]);
    let vy = r64_value(input[i + 2]);
    let vz = r64_value(input[i + 3]);
    let ew = input[i + 2] == PAD_BYTE;
    let ez = input[i + 3] == PAD_BYTE;
    proof {
        assert(input@.skip(i as int)[0] == input@[i as int]);
        assert(input@.skip(i as int)[1] == input@[i as int + 1]);
        assert(input@.skip(i as int)[2] == input@[i as int + 2]);
        assert(input@.skip(i as int)[3] == input@[i as int + 3]);
        assert(input@.skip(i as int).len() == 4);
    }
    match (vw, vx, vy, vz) {
        (Some(w), Some(x), Some(y), Some(z)) => {
            out.push(w * 4 + x / 16);
            out.push((x % 16) * 16 + y / 4);
            out.push((y % 4) * 64 + z);
            proof {
                assert(r64_decode(input@.skip(i as int)) == Some(
                    dec3(
                        input@[i as int],
                        input@[i as int + 1],
                        input@[i as int + 2],
                        input@[i as int + 3],
                    ),
                ));
            }
            Some(out)
        },
        (Some(w), Some(x), Some(y), None) => {
            if ez && y % 4 == 0 {
                out.push(w * 4 + x / 16);
                out.push((x % 16) * 16 + y / 4);
                Some(out)
            } else {
                None
            }
        },
        (Some(w), Some(x), None, None) => {
            if ew && ez && x % 16 == 0 {
                out.push(w * 4 + x / 16);
                Some(out)
            } else {
                None
            }
        },
        _ => None,
    }
}

} // verus!
