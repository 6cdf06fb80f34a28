use vstd::prelude::*;

use crate::error::ContractError;

verus! {

// ---------------------------------------------------------------------
// The acknowledgement envelope and its ghost image
// ---------------------------------------------------------------------

/// The generic acknowledgement envelope the transport carries back to a
/// packet's origin: an opaque payload on success, a human-readable
/// reason on failure. Both are held as bytes; the wire form is a JSON
/// object with exactly one of the keys `result` (base64 payload) or
/// `error` (escaped string).
#[derive(Debug, Clone, PartialEq)]
pub enum Ics20Ack {
    Result(Vec<u8>),
    Error(Vec<u8>),
}

/// Ghost image of an acknowledgement.
pub ghost enum AckV {
    Result(Seq<u8>),
    Error(Seq<u8>),
}

impl View for Ics20Ack {
    type V = AckV;

    open spec fn view(&self) -> AckV {
        match self {
            Ics20Ack::Result(p) => AckV::Result(p@),
            Ics20Ack::Error(m) => AckV::Error(m@),
        }
    }
}

/// Prepends `p` to the payload of a parse result that may have failed.
pub open spec fn opt_prepend(p: Seq<u8>, o: Option<Seq<u8>>) -> Option<Seq<u8>> {
    match o {
        Some(r) => Some(p + r),
        None => None,
    }
}

// ---------------------------------------------------------------------
// Base64 (standard alphabet, `=` padding, trailing bits rejected)
// ---------------------------------------------------------------------

/// The alphabet byte for a six-bit value.
pub open spec fn b64_char(v: u8) -> u8 {
    if v < 26 {
        (65 + v) as u8  // 'A'..='Z'
    } else if v < 52 {
        (97 + v - 26) as u8  // 'a'..='z'
    } else if v < 62 {
        (48 + v - 52) as u8  // '0'..='9'
    } else if v == 62 {
        43  // '+'
    } else {
        47  // '/'
    }
}

/// The six-bit value of an alphabet byte, or -1 for a byte outside the
/// alphabet.
pub open spec fn b64_val(c: u8) -> int {
    if 65 <= c <= 90 {
        c - 65
    } else if 97 <= c <= 122 {
        c - 97 + 26
    } else if 48 <= c <= 57 {
        c - 48 + 52
    } else if c == 43 {
        62
    } else if c == 47 {
        63
    } else {
        -1
    }
}

pub open spec fn is_b64_byte(c: u8) -> bool {
    b64_val(c) >= 0
}

pub proof fn lemma_b64_char_val(v: u8)
    requires
        v < 64,
    ensures
        b64_val(b64_char(v)) == v as int,
        is_b64_byte(b64_char(v)),
        b64_char(v) != 61,
{
}

/// The base64 text of a byte string: full quads for each three bytes,
/// a padded quad for a one- or two-byte remainder.
pub open spec fn b64_encode(s: Seq<u8>) -> Seq<u8>
    decreases s.len(),
{
    if s.len() == 0 {
        Seq::empty()
    } else if s.len() == 1 {
        let b0 = s[0];
        seq![b64_char(b0 >> 2), b64_char(((b0 & 3) << 4) as u8), 61u8, 61u8]
    } else if s.len() == 2 {
        let b0 = s[0];
        let b1 = s[1];
        seq![
            b64_char(b0 >> 2),
            b64_char((((b0 & 3) << 4) | (b1 >> 4)) as u8),
            b64_char(((b1 & 15) << 2) as u8),
            61u8,
        ]
    } else {
        let b0 = s[0];
        let b1 = s[1];
        let b2 = s[2];
        seq![
            b64_char(b0 >> 2),
            b64_char((((b0 & 3) << 4) | (b1 >> 4)) as u8),
            b64_char((((b1 & 15) << 2) | (b2 >> 6)) as u8),
            b64_char((b2 & 63) as u8),
        ] + b64_encode(s.skip(3))
    }
}

/// The bytes a base64 text denotes, or `None` for text that is not the
/// canonical encoding of any byte string: a length not a multiple of
/// four, a byte outside the alphabet, padding anywhere but the end, or
/// set bits under the padding.
pub open spec fn b64_decode(s: Seq<u8>) -> Option<Seq<u8>>
    decreases s.len(),
{
    if s.len() == 0 {
        Some(Seq::empty())
    } else if s.len() % 4 != 0 {
        None
    } else {
        let c0 = s[0];
        let c1 = s[1];
        let c2 = s[2];
        let c3 = s[3];
        if !is_b64_byte(c0) || !is_b64_byte(c1) {
            None
        } else {
            let v0 = b64_val(c0) as u8;
            let v1 = b64_val(c1) as u8;
            if s.len() == 4 && c2 == 61 {
                if c3 == 61 && v1 & 15 == 0 {
                    Some(seq![((v0 << 2) | (v1 >> 4)) as u8])
                } else {
                    None
                }
            } else if s.len() == 4 && c3 == 61 {
                if is_b64_byte(c2) && b64_val(c2) as u8 & 3 == 0 {
                    let v2 = b64_val(c2) as u8;
                    Some(
                        seq![((v0 << 2) | (v1 >> 4)) as u8, (((v1 & 15) << 4) | (v2 >> 2)) as u8],
                    )
                } else {
                    None
                }
            } else {
                if is_b64_byte(c2) && is_b64_byte(c3) {
                    let v2 = b64_val(c2) as u8;
                    let v3 = b64_val(c3) as u8;
                    opt_prepend(
                        seq![
                            ((v0 << 2) | (v1 >> 4)) as u8,
                            (((v1 & 15) << 4) | (v2 >> 2)) as u8,
                            (((v2 & 3) << 6) | v3) as u8,
                        ],
                        b64_decode(s.skip(4)),
                    )
                } else {
                    None
                }
            }
        }
    }
}

pub proof fn lemma_b64_encode_len(s: Seq<u8>)
    ensures
        b64_encode(s).len() % 4 == 0,
        s.len() > 0 ==> b64_encode(s).len() >= 4,
        s.len() == 0 ==> b64_encode(s).len() == 0,
    decreases s.len(),
{
    if s.len() >= 3 {
        lemma_b64_encode_len(s.skip(3));
    }
}

/// Decoding inverts encoding: base64 round-trips every byte string.
pub proof fn lemma_b64_round_trip(s: Seq<u8>)
    ensures
        b64_decode(b64_encode(s)) == Some(s),
    decreases s.len(),
{
    let e = b64_encode(s);
    if s.len() == 0 {
    } else if s.len() == 1 {
        let b0 = s[0];
        assert(b0 >> 2 < 64 && ((b0 & 3) << 4) < 64) by (bit_vector);
        lemma_b64_char_val(b0 >> 2);
        lemma_b64_char_val(((b0 & 3) << 4) as u8);
        assert(((b0 & 3) << 4) & 15 == 0) by (bit_vector);
        assert((((b0 >> 2) << 2) | (((b0 & 3) << 4) >> 4)) == b0) by (bit_vector);
        assert(b64_decode(e) == Some(seq![b0]));
        assert(seq![b0] =~= s);
    } else if s.len() == 2 {
        let b0 = s[0];
        let b1 = s[1];
        assert(b0 >> 2 < 64 && (((b0 & 3) << 4) | (b1 >> 4)) < 64 && ((b1 & 15) << 2) < 64)
            by (bit_vector);
        lemma_b64_char_val(b0 >> 2);
        lemma_b64_char_val((((b0 & 3) << 4) | (b1 >> 4)) as u8);
        lemma_b64_char_val(((b1 & 15) << 2) as u8);
        assert(((b1 & 15) << 2) & 3 == 0) by (bit_vector);
        assert((((b0 >> 2) << 2) | ((((b0 & 3) << 4) | (b1 >> 4)) >> 4)) == b0) by (bit_vector);
        assert((((((b0 & 3) << 4) | (b1 >> 4)) & 15) << 4 | (((b1 & 15) << 2) >> 2)) == b1)
            by (bit_vector);
        assert(b64_decode(e) == Some(seq![b0, b1]));
        assert(seq![b0, b1] =~= s);
    } else {
        let b0 = s[0];
        let b1 = s[1];
        let b2 = s[2];
        let rest = s.skip(3);
        lemma_b64_round_trip(rest);
        lemma_b64_encode_len(rest);
        assert(b0 >> 2 < 64 && (((b0 & 3) << 4) | (b1 >> 4)) < 64 && (((b1 & 15) << 2) | (b2 >> 6))
            < 64 && (b2 & 63) < 64) by (bit_vector);
        lemma_b64_char_val(b0 >> 2);
        lemma_b64_char_val((((b0 & 3) << 4) | (b1 >> 4)) as u8);
        lemma_b64_char_val((((b1 & 15) << 2) | (b2 >> 6)) as u8);
        lemma_b64_char_val((b2 & 63) as u8);
        assert((((b0 >> 2) << 2) | ((((b0 & 3) << 4) | (b1 >> 4)) >> 4)) == b0) by (bit_vector);
        assert((((((b0 & 3) << 4) | (b1 >> 4)) & 15) << 4 | ((((b1 & 15) << 2) | (b2 >> 6)) >> 2))
            == b1) by (bit_vector);
        assert((((((b1 & 15) << 2) | (b2 >> 6)) & 3) << 6 | (b2 & 63)) == b2) by (bit_vector);
        let quad = seq![
            b64_char(b0 >> 2),
            b64_char((((b0 & 3) << 4) | (b1 >> 4)) as u8),
            b64_char((((b1 & 15) << 2) | (b2 >> 6)) as u8),
            b64_char((b2 & 63) as u8),
        ];
        assert(e =~= quad + b64_encode(rest));
        assert(e.skip(4) =~= b64_encode(rest));
        if rest.len() == 0 {
            assert(b64_decode(e) == Some(seq![b0, b1, b2]));
        } else {
            assert(e.len() > 4);
            assert(b64_decode(e) == opt_prepend(seq![b0, b1, b2], b64_decode(e.skip(4))));
        }
        assert(seq![b0, b1, b2] + rest =~= s);
    }
}

// ---------------------------------------------------------------------
// JSON string-body escaping
// ---------------------------------------------------------------------

/// The lower-case hex digit of a value below sixteen.
pub open spec fn hex_digit(v: u8) -> u8 {
    if v < 10 {
        (48 + v) as u8
    } else {
        (97 + v - 10) as u8
    }
}

/// The hex value of an ASCII digit, or -1.
pub open spec fn hex_val(c: u8) -> int {
    if 48 <= c <= 57 {
        c - 48
    } else if 97 <= c <= 102 {
        c - 97 + 10
    } else if 65 <= c <= 70 {
        c - 65 + 10
    } else {
        -1
    }
}

/// How one byte of a string body is written: quote and backslash get a
/// two-byte escape, the named control bytes their short escapes, the
/// remaining control bytes a `\u00XX` escape, everything else itself.
pub open spec fn esc_byte(b: u8) -> Seq<u8> {
    if b == 34 {
        seq![92u8, 34u8]
    } else if b == 92 {
        seq![92u8, 92u8]
    } else if b == 8 {
        seq![92u8, 98u8]
    } else if b == 9 {
        seq![92u8, 116u8]
    } else if b == 10 {
        seq![92u8, 110u8]
    } else if b == 12 {
        seq![92u8, 102u8]
    } else if b == 13 {
        seq![92u8, 114u8]
    } else if b < 32 {
        seq![92u8, 117u8, 48u8, 48u8, hex_digit(b >> 4), hex_digit(b & 15)]
    } else {
        seq![b]
    }
}

/// The escaped text of a string body.
pub open spec fn json_escape(s: Seq<u8>) -> Seq<u8>
    decreases s.len(),
{
    if s.len() == 0 {
        Seq::empty()
    } else {
        esc_byte(s[0]) + json_escape(s.skip(1))
    }
}

/// The string body an escaped text denotes, or `None` where the text is
/// not a well-formed body: a raw quote, a raw control byte, a dangling
/// or unknown escape, or a `\uXXXX` escape beyond ASCII (which this
/// codec does not accept).
pub open spec fn json_unescape(s: Seq<u8>) -> Option<Seq<u8>>
    decreases s.len(),
{
    if s.len() == 0 {
        Some(Seq::empty())
    } else if s[0] == 34 {
        None
    } else if s[0] == 92 {
        if s.len() < 2 {
            None
        } else {
            let e = s[1];
            if e == 34 || e == 92 || e == 47 {
                opt_prepend(seq![e], json_unescape(s.skip(2)))
            } else if e == 98 {
                opt_prepend(seq![8u8], json_unescape(s.skip(2)))
            } else if e == 116 {
                opt_prepend(seq![9u8], json_unescape(s.skip(2)))
            } else if e == 110 {
                opt_prepend(seq![10u8], json_unescape(s.skip(2)))
            } else if e == 102 {
                opt_prepend(seq![12u8], json_unescape(s.skip(2)))
            } else if e == 114 {
                opt_prepend(seq![13u8], json_unescape(s.skip(2)))
            } else if e == 117 {
                if s.len() < 6 {
                    None
                } else {
                    let h0 = hex_val(s[2]);
                    let h1 = hex_val(s[3]);
                    let h2 = hex_val(s[4]);
                    let h3 = hex_val(s[5]);
                    if h0 >= 0 && h1 >= 0 && h2 >= 0 && h3 >= 0 && h0 * 4096 + h1 * 256 + h2 * 16
                        + h3 < 128 {
                        opt_prepend(
                            seq![(h0 * 4096 + h1 * 256 + h2 * 16 + h3) as u8],
                            json_unescape(s.skip(6)),
                        )
                    } else {
                        None
                    }
                }
            } else {
                None
            }
        }
    } else if s[0] < 32 {
        None
    } else {
        opt_prepend(seq![s[0]], json_unescape(s.skip(1)))
    }
}

/// Unescaping inverts escaping: every string body round-trips.
pub proof fn lemma_unescape_escape(s: Seq<u8>)
    ensures
        json_unescape(json_escape(s)) == Some(s),
    decreases s.len(),
{
    if s.len() > 0 {
        let b = s[0];
        let rest = s.skip(1);
        lemma_unescape_escape(rest);
        let e = json_escape(s);
        assert(e =~= esc_byte(b) + json_escape(rest));
        if b == 34 || b == 92 || b == 8 || b == 9 || b == 10 || b == 12 || b == 13 {
            assert(e.skip(2) =~= json_escape(rest));
        } else if b < 32 {
            assert(e.skip(6) =~= json_escape(rest));
            assert(b >> 4 < 16 && b & 15 < 16) by (bit_vector);
            assert(hex_val(hex_digit(b >> 4)) == (b >> 4) as int);
            assert(hex_val(hex_digit(b & 15)) == (b & 15) as int);
            assert(((b >> 4) as int) * 16 + ((b & 15) as int) == b as int) by (bit_vector);
            assert(e[1] == 117);
        } else {
            assert(e.skip(1) =~= json_escape(rest));
        }
        assert(json_unescape(e) == Some(seq![b] + rest));
        assert(seq![b] + rest =~= s);
    }
}

// ---------------------------------------------------------------------
// The envelope frame
// ---------------------------------------------------------------------

/// The bytes of `{"result":"`.
pub open spec fn result_prefix() -> Seq<u8> {
    seq![123u8, 34u8, 114u8, 101u8, 115u8, 117u8, 108u8, 116u8, 34u8, 58u8, 34u8]
}

/// The bytes of `{"error":"`.
pub open spec fn error_prefix() -> Seq<u8> {
    seq![123u8, 34u8, 101u8, 114u8, 114u8, 111u8, 114u8, 34u8, 58u8, 34u8]
}

/// The bytes of `"}`.
pub open spec fn ack_suffix() -> Seq<u8> {
    seq![34u8, 125u8]
}

/// The wire bytes of an acknowledgement: the tagged JSON object with a
/// base64 payload or an escaped reason.
pub open spec fn spec_encode_ack(a: AckV) -> Seq<u8> {
    match a {
        AckV::Result(p) => result_prefix() + b64_encode(p) + ack_suffix(),
        AckV::Error(m) => error_prefix() + json_escape(m) + ack_suffix(),
    }
}

/// The acknowledgement a byte string denotes, or `None` for any other
/// shape.
pub open spec fn spec_decode_ack(s: Seq<u8>) -> Option<AckV> {
    if s.len() >= 13 && s.subrange(0, 11) == result_prefix() && s.subrange(
        s.len() - 2,
        s.len() as int,
    ) == ack_suffix() {
        match b64_decode(s.subrange(11, s.len() - 2)) {
            Some(p) => Some(AckV::Result(p)),
            None => None,
        }
    } else if s.len() >= 12 && s.subrange(0, 10) == error_prefix() && s.subrange(
        s.len() - 2,
        s.len() as int,
    ) == ack_suffix() {
        match json_unescape(s.subrange(10, s.len() - 2)) {
            Some(m) => Some(AckV::Error(m)),
            None => None,
        }
    } else {
        None
    }
}

/// Decoding inverts encoding for both variants of the envelope.
pub proof fn lemma_ack_round_trip(a: AckV)
    ensures
        spec_decode_ack(spec_encode_ack(a)) == Some(a),
{
    let e = spec_encode_ack(a);
    match a {
        AckV::Result(p) => {
            lemma_b64_encode_len(p);
            assert(e.len() >= 13);
            assert(e.subrange(0, 11) =~= result_prefix());
            assert(e.subrange(e.len() - 2, e.len() as int) =~= ack_suffix());
            assert(e.subrange(11, e.len() - 2) =~= b64_encode(p));
            lemma_b64_round_trip(p);
        },
        AckV::Error(m) => {
            assert(e.len() >= 12);
            assert(e[2] == 101);
            if e.len() >= 13 && e.subrange(0, 11) == result_prefix() {
                assert(e.subrange(0, 11)[2] == 114);
                assert(false);
            }
            assert(e.subrange(0, 10) =~= error_prefix());
            assert(e.subrange(e.len() - 2, e.len() as int) =~= ack_suffix());
            assert(e.subrange(10, e.len() - 2) =~= json_escape(m));
            lemma_unescape_escape(m);
        },
    }
}

// ---------------------------------------------------------------------
// Executable codec
// ---------------------------------------------------------------------

fn b64_char_ex(v: u8) -> (c: u8)
    requires
        v < 64,
    ensures
        c == b64_char(v),
{
    if v < 26 {
        65 + v
    } else if v < 52 {
        97 + (v - 26)
    } else if v < 62 {
        48 + (v - 52)
    } else if v == 62 {
        43
    } else {
        47
    }
}

fn b64_val_ex(c: u8) -> (r: Option<u8>)
    ensures
        match r {
            Some(v) => b64_val(c) == v as int && v < 64,
            None => !is_b64_byte(c),
        },
{
    if 65 <= c && c <= 90 {
        Some(c - 65)
    } else if 97 <= c && c <= 122 {
        Some(c - 97 + 26)
    } else if 48 <= c && c <= 57 {
        Some(c - 48 + 52)
    } else if c == 43 {
        Some(62)
    } else if c == 47 {
        Some(63)
    } else {
        None
    }
}

proof fn lemma_b64_encode_step(s: Seq<u8>, i: int)
    requires
        0 <= i,
        i + 3 <= s.len(),
    ensures
        b64_encode(s.skip(i)) == seq![
            b64_char(s[i] >> 2),
            b64_char((((s[i] & 3) << 4) | (s[i + 1] >> 4)) as u8),
            b64_char((((s[i + 1] & 15) << 2) | (s[i + 2] >> 6)) as u8),
            b64_char((s[i + 2] & 63) as u8),
        ] + b64_encode(s.skip(i + 3)),
{
    assert(s.skip(i)[0] == s[i]);
    assert(s.skip(i)[1] == s[i + 1]);
    assert(s.skip(i)[2] == s[i + 2]);
    assert(s.skip(i).skip(3) =~= s.skip(i + 3));
}

/// The base64 text of `bytes`.
pub fn base64_encode(bytes: &[u8]) -> (r: Vec<u8>)
    ensures
        r@ == b64_encode(bytes@),
{
    let n = bytes.len();
    let mut out: Vec<u8> = Vec::new();
    let mut i: usize = 0;
    proof {
        assert(bytes@.skip(0) =~= bytes@);
        assert(Seq::<u8>::empty() + b64_encode(bytes@) =~= b64_encode(bytes@));
    }
    while n - i >= 3
        invariant
            n == bytes@.len(),
            i <= n,
            out@ + b64_encode(bytes@.skip(i as int)) == b64_encode(bytes@),
        decreases n - i,
    {
        let b0 = bytes[i];
        let b1 = bytes[i + 1];
        let b2 = bytes[i + 2];
        proof {
            lemma_b64_encode_step(bytes@, i as int);
            assert(b0 >> 2 < 64 && (((b0 & 3) << 4) | (b1 >> 4)) < 64 && (((b1 & 15) << 2) | (b2
                >> 6)) < 64 && (b2 & 63) < 64) by (bit_vector);
        }
        out.push(b64_char_ex(b0 >> 2));
        out.push(b64_char_ex(((b0 & 3) << 4) | (b1 >> 4)));
        out.push(b64_char_ex(((b1 & 15) << 2) | (b2 >> 6)));
        out.push(b64_char_ex(b2 & 63));
        i += 3;
        proof {
            assert(out@ + b64_encode(bytes@.skip(i as int)) =~= b64_encode(bytes@));
        }
    }
    if n - i == 1 {
        let b0 = bytes[i];
        proof {
            assert(b0 >> 2 < 64 && ((b0 & 3) << 4) < 64) by (bit_vector);
            assert(bytes@.skip(i as int) =~= seq![b0]);
        }
        out.push(b64_char_ex(b0 >> 2));
        out.push(b64_char_ex((b0 & 3) << 4));
        out.push(61);
        out.push(61);
        proof {
            assert(out@ =~= b64_encode(bytes@));
        }
    } else if n - i == 2 {
        let b0 = bytes[i];
        let b1 = bytes[i + 1];
        proof {
            assert(b0 >> 2 < 64 && (((b0 & 3) << 4) | (b1 >> 4)) < 64 && ((b1 & 15) << 2) < 64)
                by (bit_vector);
            assert(bytes@.skip(i as int) =~= seq![b0, b1]);
        }
        out.push(b64_char_ex(b0 >> 2));
        out.push(b64_char_ex(((b0 & 3) << 4) | (b1 >> 4)));
        out.push(b64_char_ex((b1 & 15) << 2));
        out.push(61);
        proof {
            assert(out@ =~= b64_encode(bytes@));
        }
    } else {
        proof {
            assert(bytes@.skip(i as int) =~= Seq::<u8>::empty());
            assert(out@ =~= b64_encode(bytes@));
        }
    }
    out
}

proof fn lemma_b64_decode_step(s: Seq<u8>, i: int)
    requires
        0 <= i,
        i % 4 == 0,
        s.len() % 4 == 0,
        i + 4 < s.len(),
        is_b64_byte(s[i]),
        is_b64_byte(s[i + 1]),
        is_b64_byte(s[i + 2]),
        is_b64_byte(s[i + 3]),
    ensures
        b64_decode(s.skip(i)) == opt_prepend(
            seq![
                (((b64_val(s[i]) as u8) << 2) | ((b64_val(s[i + 1]) as u8) >> 4)) as u8,
                ((((b64_val(s[i + 1]) as u8) & 15) << 4) | ((b64_val(s[i + 2]) as u8) >> 2)) as u8,
                ((((b64_val(s[i + 2]) as u8) & 3) << 6) | (b64_val(s[i + 3]) as u8)) as u8,
            ],
            b64_decode(s.skip(i + 4)),
        ),
{
    let t = s.skip(i);
    assert(t.len() == s.len() - i);
    assert(t.len() % 4 == 0) by {
        assert(s.len() % 4 == 0 && i % 4 == 0);
    }
    assert(t[0] == s[i]);
    assert(t[1] == s[i + 1]);
    assert(t[2] == s[i + 2]);
    assert(t[3] == s[i + 3]);
    assert(t.len() > 4);
    assert(t.skip(4) =~= s.skip(i + 4));
}

proof fn lemma_b64_decode_none(s: Seq<u8>, i: int)
    requires
        0 <= i,
        i % 4 == 0,
        s.len() % 4 == 0,
        i + 4 <= s.len(),
        !is_b64_byte(s[i]) || !is_b64_byte(s[i + 1]) || (i + 4 < s.len() && (!is_b64_byte(s[i + 2])
            || !is_b64_byte(s[i + 3]))),
    ensures
        b64_decode(s.skip(i)) is None,
{
    let t = s.skip(i);
    assert(t.len() % 4 == 0) by {
        assert(s.len() % 4 == 0 && i % 4 == 0);
    }
    assert(t[0] == s[i]);
    assert(t[1] == s[i + 1]);
    assert(t[2] == s[i + 2]);
    assert(t[3] == s[i + 3]);
    if i + 4 < s.len() {
        assert(t.len() > 4);
    }
}

/// The bytes a base64 text denotes, where it is a canonical encoding.
pub fn base64_decode(bytes: &[u8]) -> (r: Option<Vec<u8>>)
    ensures
        match r {
            Some(v) => b64_decode(bytes@) == Some(v@),
            None => b64_decode(bytes@) is None,
        },
{
    let n = bytes.len();
    if n == 0 {
        let out: Vec<u8> = Vec::new();
        assert(out@ =~= Seq::<u8>::empty());
        return Some(out);
    }
    if n % 4 != 0 {
        return None;
    }
    let mut out: Vec<u8> = Vec::new();
    let mut i: usize = 0;
    proof {
        assert(bytes@.skip(0) =~= bytes@);
        match b64_decode(bytes@) {
            Some(r) => {
                assert(Seq::<u8>::empty() + r =~= r);
            },
            None => {},
        }
    }
    while n - i > 4
        invariant
            n == bytes@.len(),
            n % 4 == 0,
            n > 0,
            i % 4 == 0,
            i + 4 <= n,
            opt_prepend(out@, b64_decode(bytes@.skip(i as int))) == b64_decode(bytes@),
        decreases n - i,
    {
        let c0 = b64_val_ex(bytes[i]);
        let c1 = b64_val_ex(bytes[i + 1]);
        let c2 = b64_val_ex(bytes[i + 2]);
        let c3 = b64_val_ex(bytes[i + 3]);
        match (c0, c1, c2, c3) {
            (Some(v0), Some(v1), Some(v2), Some(v3)) => {
                let ghost pre = out@;
                let ghost triple = seq![
                    (((v0 << 2) | (v1 >> 4))) as u8,
                    ((((v1 & 15) << 4) | (v2 >> 2))) as u8,
                    ((((v2 & 3) << 6) | v3)) as u8,
                ];
                proof {
                    lemma_b64_decode_step(bytes@, i as int);
                }
                out.push((v0 << 2) | (v1 >> 4));
                out.push(((v1 & 15) << 4) | (v2 >> 2));
                out.push(((v2 & 3) << 6) | v3);
                i += 4;
                proof {
                    assert(out@ =~= pre + triple);
                    match b64_decode(bytes@.skip(i as int)) {
                        Some(rest) => {
                            assert((pre + triple) + rest =~= pre + (triple + rest));
                        },
                        None => {},
                    }
                }
            },
            _ => {
                proof {
                    lemma_b64_decode_none(bytes@, i as int);
                }
                return None;
            },
        }
    }
    // the final quad, where padding may stand
    let c0 = b64_val_ex(bytes[i]);
    let c1 = b64_val_ex(bytes[i + 1]);
    let ghost t = bytes@.skip(i as int);
    proof {
        assert(t.len() == 4);
        assert(t[0] == bytes@[i as int]);
        assert(t[1] == bytes@[i as int + 1]);
        assert(t[2] == bytes@[i as int + 2]);
        assert(t[3] == bytes@[i as int + 3]);
    }
    match (c0, c1) {
        (Some(v0), Some(v1)) => {
            let e2 = bytes[i + 2];
            let e3 = bytes[i + 3];
            if e2 == 61 {
                if e3 == 61 && v1 & 15 == 0 {
                    let ghost pre = out@;
                    out.push((v0 << 2) | (v1 >> 4));
                    proof {
                        assert(b64_decode(t) == Some(seq![((v0 << 2) | (v1 >> 4)) as u8]));
                        assert(out@ =~= pre + seq![((v0 << 2) | (v1 >> 4)) as u8]);
                    }
                    Some(out)
                } else {
                    proof {
                        assert(b64_decode(t) is None);
                    }
                    None
                }
            } else if e3 == 61 {
                match b64_val_ex(e2) {
                    Some(v2) => {
                        if v2 & 3 == 0 {
                            let ghost pre = out@;
                            let ghost pair = seq![
                                (((v0 << 2) | (v1 >> 4))) as u8,
                                ((((v1 & 15) << 4) | (v2 >> 2))) as u8,
                            ];
                            out.push((v0 << 2) | (v1 >> 4));
                            out.push(((v1 & 15) << 4) | (v2 >> 2));
                            proof {
                                assert(b64_decode(t) == Some(pair));
                                assert(out@ =~= pre + pair);
                            }
                            Some(out)
                        } else {
                            proof {
                                assert(b64_decode(t) is None);
                            }
                            None
                        }
                    },
                    None => {
                        proof {
                            assert(b64_decode(t) is None);
                        }
                        None
                    },
                }
            } else {
                match (b64_val_ex(e2), b64_val_ex(e3)) {
                    (Some(v2), Some(v3)) => {
                        let ghost pre = out@;
                        let ghost triple = seq![
                            (((v0 << 2) | (v1 >> 4))) as u8,
                            ((((v1 & 15) << 4) | (v2 >> 2))) as u8,
                            ((((v2 & 3) << 6) | v3)) as u8,
                        ];
                        out.push((v0 << 2) | (v1 >> 4));
                        out.push(((v1 & 15) << 4) | (v2 >> 2));
                        out.push(((v2 & 3) << 6) | v3);
                        proof {
                            assert(t.skip(4) =~= Seq::<u8>::empty());
                            assert(b64_decode(t.skip(4)) == Some(Seq::<u8>::empty()));
                            assert(b64_decode(t) == opt_prepend(triple, b64_decode(t.skip(4))));
                            assert(triple + Seq::<u8>::empty() =~= triple);
                            assert(out@ =~= pre + triple);
                        }
                        Some(out)
                    },
                    _ => {
                        proof {
                            assert(b64_decode(t) is None);
                        }
                        None
                    },
                }
            }
        },
        _ => {
            proof {
                assert(b64_decode(t) is None);
            }
            None
        },
    }
}

fn hex_digit_ex(v: u8) -> (c: u8)
    requires
        v < 16,
    ensures
        c == hex_digit(v),
{
    if v < 10 {
        48 + v
    } else {
        97 + (v - 10)
    }
}

fn hex_val_ex(c: u8) -> (r: Option<u8>)
    ensures
        match r {
            Some(v) => hex_val(c) == v as int && v < 16,
            None => hex_val(c) < 0,
        },
{
    if 48 <= c && c <= 57 {
        Some(c - 48)
    } else if 97 <= c && c <= 102 {
        Some(c - 97 + 10)
    } else if 65 <= c && c <= 70 {
        Some(c - 65 + 10)
    } else {
        None
    }
}

proof fn lemma_json_escape_step(s: Seq<u8>, i: int)
    requires
        0 <= i < s.len(),
    ensures
        json_escape(s.skip(i)) == esc_byte(s[i]) + json_escape(s.skip(i + 1)),
{
    assert(s.skip(i)[0] == s[i]);
    assert(s.skip(i).skip(1) =~= s.skip(i + 1));
}

/// The escaped text of a string body.
pub fn json_escape_bytes(m: &[u8]) -> (r: Vec<u8>)
    ensures
        r@ == json_escape(m@),
{
    let n = m.len();
    let mut out: Vec<u8> = Vec::new();
    let mut i: usize = 0;
    proof {
        assert(m@.skip(0) =~= m@);
        assert(Seq::<u8>::empty() + json_escape(m@) =~= json_escape(m@));
    }
    while i < n
        invariant
            n == m@.len(),
            i <= n,
            out@ + json_escape(m@.skip(i as int)) == json_escape(m@),
        decreases n - i,
    {
        let b = m[i];
        let ghost pre = out@;
        proof {
            lemma_json_escape_step(m@, i as int);
        }
        if b == 34 {
            out.push(92);
            out.push(34);
        } else if b == 92 {
            out.push(92);
            out.push(92);
        } else if b == 8 {
            out.push(92);
            out.push(98);
        } else if b == 9 {
            out.push(92);
            out.push(116);
        } else if b == 10 {
            out.push(92);
            out.push(110);
        } else if b == 12 {
            out.push(92);
            out.push(102);
        } else if b == 13 {
            out.push(92);
            out.push(114);
        } else if b < 32 {
            proof {
                assert(b >> 4 < 16 && b & 15 < 16) by (bit_vector);
            }
            out.push(92);
            out.push(117);
            out.push(48);
            out.push(48);
            out.push(hex_digit_ex(b >> 4));
            out.push(hex_digit_ex(b & 15));
        } else {
            out.push(b);
        }
        i += 1;
        proof {
            assert(out@ =~= pre + esc_byte(m@[i - 1]));
            assert((pre + esc_byte(m@[i - 1])) + json_escape(m@.skip(i as int)) =~= pre + (esc_byte(
                m@[i - 1],
            ) + json_escape(m@.skip(i as int))));
        }
    }
    proof {
        assert(m@.skip(n as int) =~= Seq::<u8>::empty());
        assert(out@ + Seq::<u8>::empty() =~= out@);
    }
    out
}

/// The string body an escaped text denotes, where it has one.
pub fn json_unescape_bytes(m: &[u8]) -> (r: Option<Vec<u8>>)
    ensures
        match r {
            Some(v) => json_unescape(m@) == Some(v@),
            None => json_unescape(m@) is None,
        },
{
    let n = m.len();
    let mut out: Vec<u8> = Vec::new();
    let mut i: usize = 0;
    proof {
        assert(m@.skip(0) =~= m@);
        match json_unescape(m@) {
            Some(r0) => {
                assert(Seq::<u8>::empty() + r0 =~= r0);
            },
            None => {},
        }
    }
    while i < n
        invariant
            n == m@.len(),
            i <= n,
            opt_prepend(out@, json_unescape(m@.skip(i as int))) == json_unescape(m@),
        decreases n - i,
    {
        let ghost t = m@.skip(i as int);
        let ghost pre = out@;
        proof {
            assert(t[0] == m@[i as int]);
        }
        let b = m[i];
        if b == 34 {
            return None;
        } else if b == 92 {
            if n - i < 2 {
                proof {
                    assert(t.len() < 2);
                }
                return None;
            }
            let e = m[i + 1];
            proof {
                assert(t[1] == m@[i as int + 1]);
            }
            if e == 34 || e == 92 || e == 47 {
                out.push(e);
                i += 2;
            } else if e == 98 {
                out.push(8);
                i += 2;
            } else if e == 116 {
                out.push(9);
                i += 2;
            } else if e == 110 {
                out.push(10);
                i += 2;
            } else if e == 102 {
                out.push(12);
                i += 2;
            } else if e == 114 {
                out.push(13);
                i += 2;
            } else if e == 117 {
                if n - i < 6 {
                    proof {
                        assert(t.len() < 6);
                    }
                    return None;
                }
                proof {
                    assert(t[2] == m@[i as int + 2]);
                    assert(t[3] == m@[i as int + 3]);
                    assert(t[4] == m@[i as int + 4]);
                    assert(t[5] == m@[i as int + 5]);
                }
                match (
                    hex_val_ex(m[i + 2]),
                    hex_val_ex(m[i + 3]),
                    hex_val_ex(m[i + 4]),
                    hex_val_ex(m[i + 5]),
                ) {
                    (Some(h0), Some(h1), Some(h2), Some(h3)) => {
                        let v: u32 = (h0 as u32) * 4096 + (h1 as u32) * 256 + (h2 as u32) * 16 + (
                        h3 as u32);
                        if v < 128 {
                            out.push(v as u8);
                            i += 6;
                        } else {
                            return None;
                        }
                    },
                    _ => {
                        return None;
                    },
                }
            } else {
                return None;
            }
        } else if b < 32 {
            return None;
        } else {
            out.push(b);
            i += 1;
        }
        proof {
            let consumed = i - (n - t.len());
            assert(t.skip(consumed) =~= m@.skip(i as int));
            assert(out@ =~= pre + out@.skip(pre.len() as int));
            match json_unescape(m@.skip(i as int)) {
                Some(rest) => {
                    assert((pre + out@.skip(pre.len() as int)) + rest =~= pre + (out@.skip(
                        pre.len() as int,
                    ) + rest));
                },
                None => {},
            }
        }
    }
    proof {
        assert(m@.skip(n as int) =~= Seq::<u8>::empty());
        assert(out@ + Seq::<u8>::empty() =~= out@);
    }
    Some(out)
}

/// The wire bytes of an acknowledgement.
pub fn encode_ack(ack: &Ics20Ack) -> (r: Vec<u8>)
    ensures
        r@ == spec_encode_ack(ack@),
{
    let mut out: Vec<u8> = Vec::new();
    match ack {
        Ics20Ack::Result(p) => {
            out.push(123);
            out.push(34);
            out.push(114);
            out.push(101);
            out.push(115);
            out.push(117);
            out.push(108);
            out.push(116);
            out.push(34);
            out.push(58);
            out.push(34);
            proof {
                assert(out@ =~= result_prefix());
            }
            let mut body = base64_encode(p.as_slice());
            out.append(&mut body);
            out.push(34);
            out.push(125);
            proof {
                assert(out@ =~= result_prefix() + b64_encode(p@) + ack_suffix());
            }
        },
        Ics20Ack::Error(m) => {
            out.push(123);
            out.push(34);
            out.push(101);
            out.push(114);
            out.push(114);
            out.push(111);
            out.push(114);
            out.push(34);
            out.push(58);
            out.push(34);
            proof {
                assert(out@ =~= error_prefix());
            }
            let mut body = json_escape_bytes(m.as_slice());
            out.append(&mut body);
            out.push(34);
            out.push(125);
            proof {
                assert(out@ =~= error_prefix() + json_escape(m@) + ack_suffix());
            }
        },
    }
    out
}

/// The canonical success acknowledgement: the envelope around the
/// one-byte marker `1`.
pub fn ack_success() -> (r: Vec<u8>)
    ensures
        r@ == spec_encode_ack(AckV::Result(seq![49u8])),
{
    let mut p: Vec<u8> = Vec::new();
    p.push(49);
    proof {
        assert(p@ =~= seq![49u8]);
    }
    let ack = Ics20Ack::Result(p);
    encode_ack(&ack)
}

/// The concrete wire text of the canonical success acknowledgement,
/// `{"result":"MQ=="}`, derived from the codec alone.
pub proof fn lemma_success_ack_bytes()
    ensures
        spec_encode_ack(AckV::Result(seq![49u8])) == seq![
            123u8,
            34u8,
            114u8,
            101u8,
            115u8,
            117u8,
            108u8,
            116u8,
            34u8,
            58u8,
            34u8,
            77u8,
            81u8,
            61u8,
            61u8,
            34u8,
            125u8,
        ],
{
    assert(49u8 >> 2 == 12 && (49u8 & 3) << 4 == 16) by (bit_vector);
    assert(b64_encode(seq![49u8]) =~= seq![77u8, 81u8, 61u8, 61u8]);
    assert(spec_encode_ack(AckV::Result(seq![49u8])) =~= seq![
        123u8,
        34u8,
        114u8,
        101u8,
        115u8,
        117u8,
        108u8,
        116u8,
        34u8,
        58u8,
        34u8,
        77u8,
        81u8,
        61u8,
        61u8,
        34u8,
        125u8,
    ]);
}

/// Escaping leaves a body of plain bytes — no quote, no backslash, no
/// control byte — exactly as it is.
pub proof fn lemma_escape_plain(s: Seq<u8>)
    requires
        forall|i: int| 0 <= i < s.len() ==> s[i] >= 32 && s[i] != 34 && s[i] != 92,
    ensures
        json_escape(s) == s,
    decreases s.len(),
{
    if s.len() > 0 {
        assert(forall|i: int| 0 <= i < s.skip(1).len() ==> s.skip(1)[i] == s[i + 1]);
        lemma_escape_plain(s.skip(1));
        assert(esc_byte(s[0]) + s.skip(1) =~= s);
    }
}

/// The concrete wire text of the failure acknowledgement carrying the
/// reason `bad coin`: `{"error":"bad coin"}`, derived from the codec
/// alone.
pub proof fn lemma_error_ack_bytes()
    ensures
        spec_encode_ack(
            AckV::Error(seq![98u8, 97u8, 100u8, 32u8, 99u8, 111u8, 105u8, 110u8]),
        ) == seq![
            123u8,
            34u8,
            101u8,
            114u8,
            114u8,
            111u8,
            114u8,
            34u8,
            58u8,
            34u8,
            98u8,
            97u8,
            100u8,
            32u8,
            99u8,
            111u8,
            105u8,
            110u8,
            34u8,
            125u8,
        ],
{
    let m = seq![98u8, 97u8, 100u8, 32u8, 99u8, 111u8, 105u8, 110u8];
    lemma_escape_plain(m);
    assert(spec_encode_ack(AckV::Error(m)) =~= seq![
        123u8,
        34u8,
        101u8,
        114u8,
        114u8,
        111u8,
        114u8,
        34u8,
        58u8,
        34u8,
        98u8,
        97u8,
        100u8,
        32u8,
        99u8,
        111u8,
        105u8,
        110u8,
        34u8,
        125u8,
    ]);
}

fn is_result_framed(bytes: &[u8]) -> (r: bool)
    ensures
        r == (bytes@.len() >= 13 && bytes@.subrange(0, 11) == result_prefix() && bytes@.subrange(
            bytes@.len() - 2,
            bytes@.len() as int,
        ) == ack_suffix()),
{
    let n = bytes.len();
    if n < 13 {
        return false;
    }
    let ok = bytes[0] == 123 && bytes[1] == 34 && bytes[2] == 114 && bytes[3] == 101 && bytes[4]
        == 115 && bytes[5] == 117 && bytes[6] == 108 && bytes[7] == 116 && bytes[8] == 34
        && bytes[9] == 58 && bytes[10] == 34 && bytes[n - 2] == 34 && bytes[n - 1] == 125;
    proof {
        let s = bytes@;
        if ok {
            assert(s.subrange(0, 11) =~= result_prefix());
            assert(s.subrange(s.len() - 2, s.len() as int) =~= ack_suffix());
        }
        if s.subrange(0, 11) == result_prefix() && s.subrange(s.len() - 2, s.len() as int)
            == ack_suffix() {
            assert(forall|k: int| 0 <= k < 11 ==> s.subrange(0, 11)[k] == s[k]);
            assert(s.subrange(s.len() - 2, s.len() as int)[0] == s[s.len() - 2]);
            assert(s.subrange(s.len() - 2, s.len() as int)[1] == s[s.len() - 1]);
        }
    }
    ok
}

fn is_error_framed(bytes: &[u8]) -> (r: bool)
    ensures
        r == (bytes@.len() >= 12 && bytes@.subrange(0, 10) == error_prefix() && bytes@.subrange(
            bytes@.len() - 2,
            bytes@.len() as int,
        ) == ack_suffix()),
{
    let n = bytes.len();
    if n < 12 {
        return false;
    }
    let ok = bytes[0] == 123 && bytes[1] == 34 && bytes[2] == 101 && bytes[3] == 114 && bytes[4]
        == 114 && bytes[5] == 111 && bytes[6] == 114 && bytes[7] == 34 && bytes[8] == 58
        && bytes[9] == 34 && bytes[n - 2] == 34 && bytes[n - 1] == 125;
    proof {
        let s = bytes@;
        if ok {
            assert(s.subrange(0, 10) =~= error_prefix());
            assert(s.subrange(s.len() - 2, s.len() as int) =~= ack_suffix());
        }
        if s.subrange(0, 10) == error_prefix() && s.subrange(s.len() - 2, s.len() as int)
            == ack_suffix() {
            assert(forall|k: int| 0 <= k < 10 ==> s.subrange(0, 10)[k] == s[k]);
            assert(s.subrange(s.len() - 2, s.len() as int)[0] == s[s.len() - 2]);
            assert(s.subrange(s.len() - 2, s.len() as int)[1] == s[s.len() - 1]);
        }
    }
    ok
}

fn copy_range(b: &[u8], from: usize, to: usize) -> (r: Vec<u8>)
    requires
        from <= to <= b@.len(),
    ensures
        r@ == b@.subrange(from as int, to as int),
{
    let mut out: Vec<u8> = Vec::new();
    let mut i: usize = from;
    proof {
        assert(out@ =~= b@.subrange(from as int, from as int));
    }
    while i < to
        invariant
            from <= i <= to <= b@.len(),
            out@ == b@.subrange(from as int, i as int),
        decreases to - i,
    {
        out.push(b[i]);
        i += 1;
        proof {
            assert(out@ =~= b@.subrange(from as int, i as int));
        }
    }
    out
}

/// The acknowledgement a byte string denotes. Anything but the exact
/// envelope shape is rejected as malformed.
pub fn decode_ack(bytes: &[u8]) -> (r: Result<Ics20Ack, ContractError>)
    ensures
        match spec_decode_ack(bytes@) {
            Some(a) => r matches Ok(v) && v@ == a,
            None => r == Err::<Ics20Ack, ContractError>(ContractError::MalformedAck {}),
        },
{
    let n = bytes.len();
    if is_result_framed(bytes) {
        let mid = copy_range(bytes, 11, n - 2);
        match base64_decode(mid.as_slice()) {
            Some(p) => Ok(Ics20Ack::Result(p)),
            None => Err(ContractError::MalformedAck {}),
        }
    } else if is_error_framed(bytes) {
        let mid = copy_range(bytes, 10, n - 2);
        match json_unescape_bytes(mid.as_slice()) {
            Some(m) => Ok(Ics20Ack::Error(m)),
            None => Err(ContractError::MalformedAck {}),
        }
    } else {
        Err(ContractError::MalformedAck {})
    }
}

} // verus!
