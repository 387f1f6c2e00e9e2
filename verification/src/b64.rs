//! URL-safe, unpadded base64: the canonical text form for digests and tokens.
//!
//! The alphabet is `A-Z a-z 0-9 - _`; no padding characters and no line
//! breaks are ever produced or accepted.  Encoding is total; decoding
//! rejects a text whose length cannot arise from encoding (length mod 4
//! equal to 1) and otherwise reports the first byte outside the alphabet.

use vstd::arithmetic::div_mod::lemma_fundamental_div_mod;
use vstd::arithmetic::div_mod::lemma_fundamental_div_mod_converse;
use vstd::prelude::*;
use vstd::string::StringSliceAdditionalSpecFns;

verus! {

/// Why a text failed to decode: a length no encoding produces, or the
/// first byte outside the alphabet together with its position.
#[derive(Clone, Copy, Debug, PartialEq, Eq, Structural)]
pub enum B64DecodeError {
    InvalidLength(usize),
    InvalidByte(u8, usize),
}

/// The ASCII byte that stands for the six-bit value `v`.
pub open spec fn b64_byte_of(v: int) -> u8
    recommends
        0 <= v < 64,
{
    if v < 26 {
        (65 + v) as u8  // 'A'..='Z'
    } else if v < 52 {
        (97 + (v - 26)) as u8  // 'a'..='z'
    } else if v < 62 {
        (48 + (v - 52)) as u8  // '0'..='9'
    } else if v == 62 {
        45u8  // '-'
    } else {
        95u8  // '_'
    }
}

/// Whether `b` is a byte of the alphabet.
pub open spec fn is_b64_byte(b: u8) -> bool {
    (65 <= b <= 90) || (97 <= b <= 122) || (48 <= b <= 57) || b == 45 || b == 95
}

/// The six-bit value an alphabet byte stands for.
pub open spec fn b64_val_of(b: u8) -> int
    recommends
        is_b64_byte(b),
{
    if 65 <= b <= 90 {
        b as int - 65
    } else if 97 <= b <= 122 {
        b as int - 97 + 26
    } else if 48 <= b <= 57 {
        b as int - 48 + 52
    } else if b == 45 {
        62
    } else {
        63
    }
}

/// Encoding of a full three-byte group as four alphabet bytes.
pub open spec fn enc3(a: u8, b: u8, c: u8) -> Seq<u8> {
    seq![
        b64_byte_of(a as int / 4),
        b64_byte_of((a as int % 4) * 16 + b as int / 16),
        b64_byte_of((b as int % 16) * 4 + c as int / 64),
        b64_byte_of(c as int % 64),
    ]
}

/// Encoding of a trailing two-byte group as three alphabet bytes.
pub open spec fn enc2(a: u8, b: u8) -> Seq<u8> {
    seq![
        b64_byte_of(a as int / 4),
        b64_byte_of((a as int % 4) * 16 + b as int / 16),
        b64_byte_of((b as int % 16) * 4),
    ]
}

/// Encoding of a trailing one-byte group as two alphabet bytes.
pub open spec fn enc1(a: u8) -> Seq<u8> {
    seq![b64_byte_of(a as int / 4), b64_byte_of((a as int % 4) * 16)]
}

/// The encoding of an arbitrary byte sequence.
pub open spec fn b64_encode(s: Seq<u8>) -> Seq<u8>
    decreases s.len(),
{
    if s.len() >= 3 {
        enc3(s[0], s[1], s[2]) + b64_encode(s.skip(3))
    } else if s.len() == 2 {
        enc2(s[0], s[1])
    } else if s.len() == 1 {
        enc1(s[0])
    } else {
        Seq::<u8>::empty()
    }
}

/// A text decodes iff its length is not 1 mod 4 and every byte is in the
/// alphabet.
pub open spec fn b64_valid(t: Seq<u8>) -> bool {
    &&& t.len() % 4 != 1
    &&& forall|i: int| 0 <= i < t.len() ==> is_b64_byte(t[i])
}

/// Decoding of a full four-byte group into three bytes.
pub open spec fn dec4(w: u8, x: u8, y: u8, z: u8) -> Seq<u8> {
    seq![
        (b64_val_of(w) * 4 + b64_val_of(x) / 16) as u8,
        ((b64_val_of(x) % 16) * 16 + b64_val_of(y) / 4) as u8,
        ((b64_val_of(y) % 4) * 64 + b64_val_of(z)) as u8,
    ]
}

/// Decoding of a trailing three-byte group into two bytes; leftover low
/// bits of the last alphabet byte are discarded.
pub open spec fn dec3(w: u8, x: u8, y: u8) -> Seq<u8> {
    seq![
        (b64_val_of(w) * 4 + b64_val_of(x) / 16) as u8,
        ((b64_val_of(x) % 16) * 16 + b64_val_of(y) / 4) as u8,
    ]
}

/// Decoding of a trailing two-byte group into one byte; leftover low bits
/// of the last alphabet byte are discarded.
pub open spec fn dec2(w: u8, x: u8) -> Seq<u8> {
    seq![(b64_val_of(w) * 4 + b64_val_of(x) / 16) as u8]
}

/// The decoding of a valid text.
pub open spec fn b64_decode(t: Seq<u8>) -> Seq<u8>
    recommends
        b64_valid(t),
    decreases t.len(),
{
    if t.len() >= 4 {
        dec4(t[0], t[1], t[2], t[3]) + b64_decode(t.skip(4))
    } else if t.len() == 3 {
        dec3(t[0], t[1], t[2])
    } else if t.len() == 2 {
        dec2(t[0], t[1])
    } else {
        Seq::<u8>::empty()
    }
}

/// The characters of an ASCII byte sequence, one character per byte.
pub open spec fn ascii_chars(s: Seq<u8>) -> Seq<char> {
    s.map_values(|b: u8| b as char)
}

/// Every six-bit value maps into the alphabet and back to itself.
pub proof fn lemma_alphabet_roundtrip(v: int)
    requires
        0 <= v < 64,
    ensures
        is_b64_byte(b64_byte_of(v)),
        b64_val_of(b64_byte_of(v)) == v,
{
}

proof fn lemma_group3_roundtrip(a: u8, b: u8, c: u8)
    ensures
        enc3(a, b, c).len() == 4,
        forall|i: int| 0 <= i < 4 ==> is_b64_byte(#[trigger] enc3(a, b, c)[i]),
        dec4(enc3(a, b, c)[0], enc3(a, b, c)[1], enc3(a, b, c)[2], enc3(a, b, c)[3]) =~= seq![
            a,
            b,
            c,
        ],
{
    let v0 = a as int / 4;
    let v1 = (a as int % 4) * 16 + b as int / 16;
    let v2 = (b as int % 16) * 4 + c as int / 64;
    let v3 = c as int % 64;
    lemma_fundamental_div_mod(a as int, 4);
    lemma_fundamental_div_mod(b as int, 16);
    lemma_fundamental_div_mod(c as int, 64);
    lemma_alphabet_roundtrip(v0);
    lemma_alphabet_roundtrip(v1);
    lemma_alphabet_roundtrip(v2);
    lemma_alphabet_roundtrip(v3);
    lemma_fundamental_div_mod_converse(v1, 16, a as int % 4, b as int / 16);
    lemma_fundamental_div_mod_converse(v2, 4, b as int % 16, c as int / 64);
    assert(v0 * 4 + v1 / 16 == a as int);
    assert((v1 % 16) * 16 + v2 / 4 == b as int);
    assert((v2 % 4) * 64 + v3 == c as int);
}

proof fn lemma_group2_roundtrip(a: u8, b: u8)
    ensures
        enc2(a, b).len() == 3,
        forall|i: int| 0 <= i < 3 ==> is_b64_byte(#[trigger] enc2(a, b)[i]),
        dec3(enc2(a, b)[0], enc2(a, b)[1], enc2(a, b)[2]) =~= seq![a, b],
{
    let v0 = a as int / 4;
    let v1 = (a as int % 4) * 16 + b as int / 16;
    let v2 = (b as int % 16) * 4;
    lemma_fundamental_div_mod(a as int, 4);
    lemma_fundamental_div_mod(b as int, 16);
    lemma_alphabet_roundtrip(v0);
    lemma_alphabet_roundtrip(v1);
    lemma_alphabet_roundtrip(v2);
    lemma_fundamental_div_mod_converse(v1, 16, a as int % 4, b as int / 16);
    lemma_fundamental_div_mod_converse(v2, 4, b as int % 16, 0);
    assert(v0 * 4 + v1 / 16 == a as int);
    assert((v1 % 16) * 16 + v2 / 4 == b as int);
}

proof fn lemma_group1_roundtrip(a: u8)
    ensures
        enc1(a).len() == 2,
        forall|i: int| 0 <= i < 2 ==> is_b64_byte(#[trigger] enc1(a)[i]),
        dec2(enc1(a)[0], enc1(a)[1]) =~= seq![a],
{
    let v0 = a as int / 4;
    let v1 = (a as int % 4) * 16;
    lemma_fundamental_div_mod(a as int, 4);
    lemma_alphabet_roundtrip(v0);
    lemma_alphabet_roundtrip(v1);
    lemma_fundamental_div_mod_converse(v1, 16, a as int % 4, 0);
    assert(v0 * 4 + v1 / 16 == a as int);
}

/// Round trip: every byte sequence's encoding is a valid text, and
/// decoding it yields the original bytes unchanged.
pub proof fn lemma_decode_encode(s: Seq<u8>)
    ensures
        b64_valid(b64_encode(s)),
        b64_decode(b64_encode(s)) =~= s,
    decreases s.len(),
{
    let e = b64_encode(s);
    if s.len() >= 3 {
        lemma_group3_roundtrip(s[0], s[1], s[2]);
        lemma_decode_encode(s.skip(3));
        let g = enc3(s[0], s[1], s[2]);
        let rest = b64_encode(s.skip(3));
        assert(e =~= g + rest);
        assert(e.len() % 4 == rest.len() % 4);
        assert forall|i: int| 0 <= i < e.len() implies is_b64_byte(e[i]) by {
            if i < 4 {
                assert(e[i] == g[i]);
            } else {
                assert(e[i] == rest[i - 4]);
            }
        }
        assert(e.skip(4) =~= rest);
        assert(b64_decode(e) =~= dec4(g[0], g[1], g[2], g[3]) + b64_decode(rest));
        assert(b64_decode(e) =~= seq![s[0], s[1], s[2]] + s.skip(3));
        assert(seq![s[0], s[1], s[2]] + s.skip(3) =~= s);
    } else if s.len() == 2 {
        lemma_group2_roundtrip(s[0], s[1]);
        assert(b64_decode(e) =~= seq![s[0], s[1]]);
        assert(seq![s[0], s[1]] =~= s);
    } else if s.len() == 1 {
        lemma_group1_roundtrip(s[0]);
        assert(b64_decode(e) =~= seq![s[0]]);
        assert(seq![s[0]] =~= s);
    } else {
        assert(s =~= Seq::<u8>::empty());
    }
}

/// Encoding is injective: distinct byte sequences never share an encoding.
pub proof fn lemma_encode_injective(s1: Seq<u8>, s2: Seq<u8>)
    requires
        b64_encode(s1) == b64_encode(s2),
    ensures
        s1 == s2,
{
    lemma_decode_encode(s1);
    lemma_decode_encode(s2);
    assert(s1 =~= s2);
}

/// The encoding of `n` bytes holds exactly `(4 * n + 2) / 3` bytes.
pub proof fn lemma_encode_len(s: Seq<u8>)
    ensures
        b64_encode(s).len() == (4 * s.len() + 2) / 3,
    decreases s.len(),
{
    if s.len() >= 3 {
        lemma_encode_len(s.skip(3));
    }
}

/// The decoding of a text of `n` bytes holds `n / 4 * 3` bytes plus two
/// for a trailing three-byte group or one for a trailing two-byte group.
pub proof fn lemma_decode_len(t: Seq<u8>)
    ensures
        b64_decode(t).len() == t.len() / 4 * 3 + (
        if t.len() % 4 == 3 {
            2int
        } else if t.len() % 4 == 2 {
            1int
        } else {
            0int
        }),
    decreases t.len(),
{
    if t.len() >= 4 {
        lemma_decode_len(t.skip(4));
    }
}

/// Every alphabet byte is ASCII.
pub proof fn lemma_alphabet_ascii(t: Seq<u8>)
    requires
        forall|i: int| 0 <= i < t.len() ==> is_b64_byte(t[i]),
    ensures
        forall|i: int| 0 <= i < t.len() ==> t[i] < 128,
{
}

fn b64_byte(v: u8) -> (r: u8)
    requires
        v < 64,
    ensures
        r == b64_byte_of(v as int),
{
    if v < 26 {
        65 + v
    } else if v < 52 {
        97 + (v - 26)
    } else if v < 62 {
        48 + (v - 52)
    } else if v == 62 {
        45
    } else {
        95
    }
}

fn is_b64(b: u8) -> (r: bool)
    ensures
        r == is_b64_byte(b),
{
    (65 <= b && b <= 90) || (97 <= b && b <= 122) || (48 <= b && b <= 57) || b == 45 || b == 95
}

fn b64_val(b: u8) -> (r: u8)
    requires
        is_b64_byte(b),
    ensures
        r as int == b64_val_of(b),
        r < 64,
{
    if 65 <= b && b <= 90 {
        b - 65
    } else if 97 <= b && b <= 122 {
        b - 97 + 26
    } else if 48 <= b && b <= 57 {
        b - 48 + 52
    } else if b == 45 {
        62
    } else {
        63
    }
}

/// Encode a byte sequence as alphabet bytes.
pub fn encode_bytes(bytes: &[u8]) -> (r: Vec<u8>)
    ensures
        r@ == b64_encode(bytes@),
{
    let n = bytes.len();
    let mut out: Vec<u8> = Vec::new();
    let mut i: usize = 0;
    proof {
        assert(bytes@.skip(0) =~= bytes@);
    }
    while n - i >= 3
        invariant
            n == bytes@.len(),
            i <= n,
            out@ + b64_encode(bytes@.skip(i as int)) =~= b64_encode(bytes@),
        decreases n - i,
    {
        let a = bytes[i];
        let b = bytes[i + 1];
        let c = bytes[i + 2];
        proof {
            let tail = bytes@.skip(i as int);
            assert(tail[0] == a && tail[1] == b && tail[2] == c);
            assert(tail.skip(3) =~= bytes@.skip(i + 3));
        }
        out.push(b64_byte(a / 4));
        out.push(b64_byte((a % 4) * 16 + b / 16));
        out.push(b64_byte((b % 16) * 4 + c / 64));
        out.push(b64_byte(c % 64));
        proof {
            assert(out@ + b64_encode(bytes@.skip(i + 3)) =~= b64_encode(bytes@));
        }
        i += 3;
    }
    if n - i == 2 {
        let a = bytes[i];
        let b = bytes[i + 1];
        proof {
            let tail = bytes@.skip(i as int);
            assert(tail[0] == a && tail[1] == b);
        }
        out.push(b64_byte(a / 4));
        out.push(b64_byte((a % 4) * 16 + b / 16));
        out.push(b64_byte((b % 16) * 4));
        proof {
            assert(out@ =~= b64_encode(bytes@));
        }
    } else if n - i == 1 {
        let a = bytes[i];
        proof {
            let tail = bytes@.skip(i as int);
            assert(tail[0] == a);
        }
        out.push(b64_byte(a / 4));
        out.push(b64_byte((a % 4) * 16));
        proof {
            assert(out@ =~= b64_encode(bytes@));
        }
    } else {
        proof {
            assert(bytes@.skip(i as int) =~= Seq::<u8>::empty());
            assert(out@ =~= b64_encode(bytes@));
        }
    }
    out
}

/// Decode alphabet bytes back into the bytes they encode.
///
/// Succeeds exactly on valid texts; otherwise reports the impossible
/// length, or the first byte outside the alphabet with its position.
pub fn decode_bytes(t: &[u8]) -> (r: Result<Vec<u8>, B64DecodeError>)
    ensures
        match r {
            Ok(v) => b64_valid(t@) && v@ == b64_decode(t@),
            Err(B64DecodeError::InvalidLength(n)) => n == t@.len() && t@.len() % 4 == 1,
            Err(B64DecodeError::InvalidByte(b, i)) => {
                &&& t@.len() % 4 != 1
                &&& 0 <= i < t@.len()
                &&& t@[i as int] == b
                &&& !is_b64_byte(b)
                &&& forall|j: int| 0 <= j < i ==> is_b64_byte(t@[j])
            },
        },
{
    let n = t.len();
    if n % 4 == 1 {
        return Err(B64DecodeError::InvalidLength(n));
    }
    let mut i: usize = 0;
    while i < n
        invariant
            n == t@.len(),
            n % 4 != 1,
            i <= n,
            forall|j: int| 0 <= j < i ==> is_b64_byte(t@[j]),
        decreases n - i,
    {
        let b = t[i];
        if !is_b64(b) {
            return Err(B64DecodeError::InvalidByte(b, i));
        }
        i += 1;
    }
    let mut out: Vec<u8> = Vec::new();
    let mut i: usize = 0;
    proof {
        assert(t@.skip(0) =~= t@);
    }
    while n - i >= 4
        invariant
            n == t@.len(),
            i <= n,
            i % 4 == 0,
            forall|j: int| 0 <= j < n ==> is_b64_byte(t@[j]),
            out@ + b64_decode(t@.skip(i as int)) =~= b64_decode(t@),
        decreases n - i,
    {
        let vw = b64_val(t[i]);
        let vx = b64_val(t[i + 1]);
        let vy = b64_val(t[i + 2]);
        let vz = b64_val(t[i + 3]);
        proof {
            let tail = t@.skip(i as int);
            assert(tail[0] == t@[i as int] && tail[1] == t@[i + 1] && tail[2] == t@[i + 2]
                && tail[3] == t@[i + 3]);
            assert(tail.skip(4) =~= t@.skip(i + 4));
        }
        out.push(vw * 4 + vx / 16);
        out.push((vx % 16) * 16 + vy / 4);
        out.push((vy % 4) * 64 + vz);
        proof {
            assert(out@ + b64_decode(t@.skip(i + 4)) =~= b64_decode(t@));
        }
        i += 4;
    }
    if n - i == 3 {
        let vw = b64_val(t[i]);
        let vx = b64_val(t[i + 1]);
        let vy = b64_val(t[i + 2]);
        proof {
            let tail = t@.skip(i as int);
            assert(tail[0] == t@[i as int] && tail[1] == t@[i + 1] && tail[2] == t@[i + 2]);
        }
        out.push(vw * 4 + vx / 16);
        out.push((vx % 16) * 16 + vy / 4);
        proof {
            assert(out@ =~= b64_decode(t@));
        }
    } else if n - i == 2 {
        let vw = b64_val(t[i]);
        let vx = b64_val(t[i + 1]);
        proof {
            let tail = t@.skip(i as int);
            assert(tail[0] == t@[i as int] && tail[1] == t@[i + 1]);
        }
        out.push(vw * 4 + vx / 16);
        proof {
            assert(out@ =~= b64_decode(t@));
        }
    } else {
        proof {
            assert((n - i) % 4 == n % 4);
            assert(n - i == 0);
            assert(t@.skip(i as int) =~= Seq::<u8>::empty());
            assert(out@ =~= b64_decode(t@));
        }
    }
    Ok(out)
}

/// Relies on `String::from_utf8`: bytes below 128 are valid UTF-8 and
/// decode to the character sequence with exactly those code points, so the
/// call never fails for them.
#[verifier::external_body]
fn string_from_ascii(v: Vec<u8>) -> (r: String)
    requires
        forall|i: int| 0 <= i < v@.len() ==> v@[i] < 128,
    ensures
        r@ == ascii_chars(v@),
{
    match String::from_utf8(v) {
        Ok(s) => s,
        Err(_) => String::new(),
    }
}

/// Encode a byte sequence as its canonical single-line text.
pub fn encode(bytes: &[u8]) -> (r: String)
    ensures
        r@ == ascii_chars(b64_encode(bytes@)),
{
    let v = encode_bytes(bytes);
    proof {
        lemma_decode_encode(bytes@);
        lemma_alphabet_ascii(v@);
    }
    string_from_ascii(v)
}

/// Decode a text back into the bytes it encodes; the contract speaks of
/// the text's UTF-8 bytes, which for the alphabet are its characters.
pub fn decode(s: &str) -> (r: Result<Vec<u8>, B64DecodeError>)
    ensures
        match r {
            Ok(v) => b64_valid(s.spec_bytes()) && v@ == b64_decode(s.spec_bytes()),
            Err(B64DecodeError::InvalidLength(n)) => n == s.spec_bytes().len()
                && s.spec_bytes().len() % 4 == 1,
            Err(B64DecodeError::InvalidByte(b, i)) => {
                &&& s.spec_bytes().len() % 4 != 1
                &&& 0 <= i < s.spec_bytes().len()
                &&& s.spec_bytes()[i as int] == b
                &&& !is_b64_byte(b)
                &&& forall|j: int| 0 <= j < i ==> is_b64_byte(s.spec_bytes()[j])
            },
        },
{
    decode_bytes(s.as_bytes())
}

} // verus!
