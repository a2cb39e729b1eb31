//! The wire codec: the handshake messages and the profile payload travel
//! as compact JSON. Encoding is canonical (fixed key order, no extra
//! whitespace, control characters escaped); the parser accepts exactly the
//! canonical form and is proved to invert the encoder.

use crate::data::{CompactSlot, ShareData, ShareDataView, SlotView};
use vstd::prelude::*;
use vstd::utf8::{decode_utf8, encode_utf8, valid_utf8};

verus! {

pub const QUOTE: u8 = 34;

pub const BACKSLASH: u8 = 92;

/// Lower-case hex digit for a value below 16.
pub open spec fn hex_digit(n: u8) -> u8 {
    if n < 10 {
        (48 + n) as u8
    } else {
        (87 + n) as u8
    }
}

/// How one byte of string content appears inside a JSON string:
/// quote and backslash get a backslash escape, control bytes become
/// `\u00XX`, everything else stands as itself.
pub open spec fn esc_byte(b: u8) -> Seq<u8> {
    if b == QUOTE {
        seq![BACKSLASH, QUOTE]
    } else if b == BACKSLASH {
        seq![BACKSLASH, BACKSLASH]
    } else if b < 32 {
        seq![BACKSLASH, 117, 48, 48, hex_digit(b / 16), hex_digit(b % 16)]
    } else {
        seq![b]
    }
}

pub open spec fn esc_bytes(b: Seq<u8>) -> Seq<u8>
    decreases b.len(),
{
    if b.len() == 0 {
        seq![]
    } else {
        esc_byte(b[0]) + esc_bytes(b.drop_first())
    }
}

/// A JSON string literal: the UTF-8 bytes of the text, escaped, in quotes.
pub open spec fn json_string(s: Seq<char>) -> Seq<u8> {
    seq![QUOTE] + esc_bytes(encode_utf8(s)) + seq![QUOTE]
}

/// Decimal digits of `n`, most significant first, no leading zeros.
pub open spec fn dec_digits(n: nat) -> Seq<u8>
    decreases n,
{
    if n < 10 {
        seq![(48 + n) as u8]
    } else {
        dec_digits(n / 10) + seq![(48 + n % 10) as u8]
    }
}

pub open spec fn json_bool(v: bool) -> Seq<u8> {
    if v {
        seq![116u8, 114, 117, 101]
    } else {
        seq![102u8, 97, 108, 115, 101]
    }
}

// ---------------------------------------------------------------------------
// Parsing, specified over byte sequences. Each parser takes a start index
// and yields the parsed value and the index just past it, or nothing when
// the input does not match the canonical encoding there.
// ---------------------------------------------------------------------------

pub open spec fn is_digit(c: u8) -> bool {
    48 <= c <= 57
}

pub open spec fn is_hex_lower(c: u8) -> bool {
    is_digit(c) || (97 <= c <= 102)
}

pub open spec fn hex_val(c: u8) -> u8 {
    if c <= 57 {
        (c - 48) as u8
    } else {
        (c - 87) as u8
    }
}

/// A byte of string content that may stand unescaped.
pub open spec fn raw_content_byte(c: u8) -> bool {
    c != QUOTE && c != BACKSLASH && c >= 32
}

/// Scan the inside of a JSON string up to its closing quote, undoing
/// escapes; `acc` carries the content read so far.
pub open spec fn p_content(b: Seq<u8>, i: int, acc: Seq<u8>) -> Option<(Seq<u8>, int)>
    decreases b.len() - i,
{
    if i < 0 || i >= b.len() {
        None
    } else if b[i] == QUOTE {
        Some((acc, i + 1))
    } else if b[i] == BACKSLASH {
        if i + 1 < b.len() && (b[i + 1] == QUOTE || b[i + 1] == BACKSLASH) {
            p_content(b, i + 2, acc.push(b[i + 1]))
        } else if i + 5 < b.len() && b[i + 1] == 117 && b[i + 2] == 48 && b[i + 3] == 48
            && is_hex_lower(b[i + 4]) && is_hex_lower(b[i + 5]) && hex_val(b[i + 4]) * 16 + hex_val(
            b[i + 5],
        ) < 32 {
            p_content(b, i + 6, acc.push((hex_val(b[i + 4]) * 16 + hex_val(b[i + 5])) as u8))
        } else {
            None
        }
    } else if raw_content_byte(b[i]) {
        p_content(b, i + 1, acc.push(b[i]))
    } else {
        None
    }
}

/// Parse a JSON string literal starting at `i`: content bytes must be
/// valid UTF-8; the value is the decoded text.
pub open spec fn p_jstr(b: Seq<u8>, i: int) -> Option<(Seq<char>, int)> {
    if 0 <= i < b.len() && b[i] == QUOTE {
        match p_content(b, i + 1, seq![]) {
            Some((bytes, j)) => if valid_utf8(bytes) {
                Some((decode_utf8(bytes), j))
            } else {
                None
            },
            None => None,
        }
    } else {
        None
    }
}

/// First index at or after `i` holding no decimal digit.
pub open spec fn digits_end(b: Seq<u8>, i: int) -> int
    decreases b.len() - i,
{
    if 0 <= i < b.len() && is_digit(b[i]) {
        digits_end(b, i + 1)
    } else {
        i
    }
}

/// Value of the decimal digits `b[i..j]`.
pub open spec fn digits_val(b: Seq<u8>, i: int, j: int) -> int
    decreases j - i,
{
    if j <= i {
        0
    } else {
        digits_val(b, i, j - 1) * 10 + (b[j - 1] - 48)
    }
}

/// Parse a canonical decimal number that fits in a `u32`: at least one
/// digit, no leading zero, value in range.
pub open spec fn p_u32(b: Seq<u8>, i: int) -> Option<(u32, int)> {
    let e = digits_end(b, i);
    if !(0 <= i && i < e) {
        None
    } else if b[i] == 48 && e > i + 1 {
        None
    } else if digits_val(b, i, e) > u32::MAX {
        None
    } else {
        Some((digits_val(b, i, e) as u32, e))
    }
}

pub open spec fn p_bool(b: Seq<u8>, i: int) -> Option<(bool, int)> {
    if 0 <= i && i + 4 <= b.len() && b[i] == 116 && b[i + 1] == 114 && b[i + 2] == 117 && b[i + 3]
        == 101 {
        Some((true, i + 4))
    } else if 0 <= i && i + 5 <= b.len() && b[i] == 102 && b[i + 1] == 97 && b[i + 2] == 108 && b[i
        + 3] == 115 && b[i + 4] == 101 {
        Some((false, i + 5))
    } else {
        None
    }
}

// ---------------------------------------------------------------------------
// The wire messages.
//
// Request (stream 1, initiator to responder):  {"from":...,"name":...}
// Response (stream 1, responder to initiator): {"accepted":true|false}
// Profile payload (stream 2, both directions): the encoded profile
//   {"u":...,"r":...,"s":N,"h":[...],"q":[...],"t":...,"o":[{...},...]}
// ---------------------------------------------------------------------------

/// Canonical encoding of the request message `{"from":F,"name":N}`.
pub open spec fn enc_request(from: Seq<char>, name: Seq<char>) -> Seq<u8> {
    seq![123u8, 34, 102, 114, 111, 109, 34, 58] + json_string(from) + seq![
        44u8,
        34,
        110,
        97,
        109,
        101,
        34,
        58,
    ] + json_string(name) + seq![125u8]
}

/// Canonical encoding of the response message `{"accepted":B}`.
pub open spec fn enc_response(accepted: bool) -> Seq<u8> {
    seq![123u8, 34, 97, 99, 99, 101, 112, 116, 101, 100, 34, 58] + json_bool(accepted) + seq![
        125u8,
    ]
}

/// Canonical encoding of one schedule slot object.
pub open spec fn enc_slot(v: SlotView) -> Seq<u8> {
    seq![123u8, 34, 100, 34, 58] + dec_digits(v.d as nat) + seq![44u8, 34, 115, 34, 58]
        + json_string(v.s) + seq![44u8, 34, 112, 34, 58] + dec_digits(v.p as nat) + seq![
        44u8,
        34,
        102,
        34,
        58,
    ] + json_string(v.f) + seq![125u8]
}

/// Comma-separated string elements from index `k` on.
pub open spec fn enc_str_items(xs: Seq<Seq<char>>, k: int) -> Seq<u8>
    decreases xs.len() - k,
{
    if k < 0 || k >= xs.len() {
        seq![]
    } else if k + 1 < xs.len() {
        json_string(xs[k]) + seq![44u8] + enc_str_items(xs, k + 1)
    } else {
        json_string(xs[k])
    }
}

pub open spec fn enc_str_array(xs: Seq<Seq<char>>) -> Seq<u8> {
    seq![91u8] + enc_str_items(xs, 0) + seq![93u8]
}

/// Comma-separated slot objects from index `k` on.
pub open spec fn enc_slot_items(xs: Seq<SlotView>, k: int) -> Seq<u8>
    decreases xs.len() - k,
{
    if k < 0 || k >= xs.len() {
        seq![]
    } else if k + 1 < xs.len() {
        enc_slot(xs[k]) + seq![44u8] + enc_slot_items(xs, k + 1)
    } else {
        enc_slot(xs[k])
    }
}

pub open spec fn enc_slot_array(xs: Seq<SlotView>) -> Seq<u8> {
    seq![91u8] + enc_slot_items(xs, 0) + seq![93u8]
}

/// Canonical encoding of the full profile payload.
pub open spec fn enc_share(v: ShareDataView) -> Seq<u8> {
    seq![123u8, 34, 117, 34, 58] + json_string(v.u) + seq![44u8, 34, 114, 34, 58] + json_string(
        v.r,
    ) + seq![44u8, 34, 115, 34, 58] + dec_digits(v.s as nat) + seq![44u8, 34, 104, 34, 58]
        + enc_str_array(v.h) + seq![44u8, 34, 113, 34, 58] + enc_str_array(v.q) + seq![
        44u8,
        34,
        116,
        34,
        58,
    ] + json_string(v.t) + seq![44u8, 34, 111, 34, 58] + enc_slot_array(v.o) + seq![125u8]
}

/// Parse the request message; the whole input must be consumed.
pub open spec fn p_request(b: Seq<u8>) -> Option<(Seq<char>, Seq<char>)> {
    if b.len() >= 8 && b[0] == 123 && b[1] == 34 && b[2] == 102 && b[3] == 114 && b[4] == 111
        && b[5] == 109 && b[6] == 34 && b[7] == 58 {
        match p_jstr(b, 8) {
            Some((from, i)) => if i + 8 <= b.len() && b[i] == 44 && b[i + 1] == 34 && b[i + 2]
                == 110 && b[i + 3] == 97 && b[i + 4] == 109 && b[i + 5] == 101 && b[i + 6] == 34
                && b[i + 7] == 58 {
                match p_jstr(b, i + 8) {
                    Some((name, j)) => if j + 1 == b.len() && b[j] == 125 {
                        Some((from, name))
                    } else {
                        None
                    },
                    None => None,
                }
            } else {
                None
            },
            None => None,
        }
    } else {
        None
    }
}

/// Parse the response message; the whole input must be consumed.
pub open spec fn p_response(b: Seq<u8>) -> Option<bool> {
    if b.len() >= 12 && b[0] == 123 && b[1] == 34 && b[2] == 97 && b[3] == 99 && b[4] == 99 && b[5]
        == 101 && b[6] == 112 && b[7] == 116 && b[8] == 101 && b[9] == 100 && b[10] == 34 && b[11]
        == 58 {
        match p_bool(b, 12) {
            Some((v, j)) => if j + 1 == b.len() && b[j] == 125 {
                Some(v)
            } else {
                None
            },
            None => None,
        }
    } else {
        None
    }
}

/// Parse one schedule slot object starting at `i`.
pub open spec fn p_slot(b: Seq<u8>, i: int) -> Option<(SlotView, int)> {
    if 0 <= i && i + 5 <= b.len() && b[i] == 123 && b[i + 1] == 34 && b[i + 2] == 100 && b[i + 3]
        == 34 && b[i + 4] == 58 {
        match p_u32(b, i + 5) {
            Some((d, j1)) => if d <= 255 && j1 + 5 <= b.len() && b[j1] == 44 && b[j1 + 1] == 34
                && b[j1 + 2] == 115 && b[j1 + 3] == 34 && b[j1 + 4] == 58 {
                match p_jstr(b, j1 + 5) {
                    Some((sv, j2)) => if j2 + 5 <= b.len() && b[j2] == 44 && b[j2 + 1] == 34 && b[j2
                        + 2] == 112 && b[j2 + 3] == 34 && b[j2 + 4] == 58 {
                        match p_u32(b, j2 + 5) {
                            Some((p, j3)) => if p <= 255 && j3 + 5 <= b.len() && b[j3] == 44 && b[j3
                                + 1] == 34 && b[j3 + 2] == 102 && b[j3 + 3] == 34 && b[j3 + 4]
                                == 58 {
                                match p_jstr(b, j3 + 5) {
                                    Some((f, j4)) => if j4 < b.len() && b[j4] == 125 {
                                        Some(
                                            (
                                                SlotView { d: d as u8, s: sv, p: p as u8, f },
                                                j4 + 1,
                                            ),
                                        )
                                    } else {
                                        None
                                    },
                                    None => None,
                                }
                            } else {
                                None
                            },
                            None => None,
                        }
                    } else {
                        None
                    },
                    None => None,
                }
            } else {
                None
            },
            None => None,
        }
    } else {
        None
    }
}

/// Parse the comma-separated string elements of a non-empty array,
/// starting on the first element, up to and past the closing bracket.
pub open spec fn p_str_items(b: Seq<u8>, i: int, acc: Seq<Seq<char>>) -> Option<
    (Seq<Seq<char>>, int),
>
    decreases b.len() - i,
{
    match p_jstr(b, i) {
        Some((s, j)) => if i < j && j < b.len() && b[j] == 44 {
            p_str_items(b, j + 1, acc.push(s))
        } else if i < j && j < b.len() && b[j] == 93 {
            Some((acc.push(s), j + 1))
        } else {
            None
        },
        None => None,
    }
}

pub open spec fn p_str_array(b: Seq<u8>, i: int) -> Option<(Seq<Seq<char>>, int)> {
    if 0 <= i && i < b.len() && b[i] == 91 {
        if i + 1 < b.len() && b[i + 1] == 93 {
            Some((seq![], i + 2))
        } else {
            p_str_items(b, i + 1, seq![])
        }
    } else {
        None
    }
}

/// Parse the comma-separated slot objects of a non-empty array.
pub open spec fn p_slot_items(b: Seq<u8>, i: int, acc: Seq<SlotView>) -> Option<
    (Seq<SlotView>, int),
>
    decreases b.len() - i,
{
    match p_slot(b, i) {
        Some((s, j)) => if i < j && j < b.len() && b[j] == 44 {
            p_slot_items(b, j + 1, acc.push(s))
        } else if i < j && j < b.len() && b[j] == 93 {
            Some((acc.push(s), j + 1))
        } else {
            None
        },
        None => None,
    }
}

pub open spec fn p_slot_array(b: Seq<u8>, i: int) -> Option<(Seq<SlotView>, int)> {
    if 0 <= i && i < b.len() && b[i] == 91 {
        if i + 1 < b.len() && b[i + 1] == 93 {
            Some((seq![], i + 2))
        } else {
            p_slot_items(b, i + 1, seq![])
        }
    } else {
        None
    }
}

/// Parse the full profile payload; the whole input must be consumed.
pub open spec fn p_share(b: Seq<u8>) -> Option<ShareDataView> {
    if b.len() >= 5 && b[0] == 123 && b[1] == 34 && b[2] == 117 && b[3] == 34 && b[4] == 58 {
        match p_jstr(b, 5) {
            Some((u, i1)) => if i1 + 5 <= b.len() && b[i1] == 44 && b[i1 + 1] == 34 && b[i1 + 2]
                == 114 && b[i1 + 3] == 34 && b[i1 + 4] == 58 {
                match p_jstr(b, i1 + 5) {
                    Some((r, i2)) => if i2 + 5 <= b.len() && b[i2] == 44 && b[i2 + 1] == 34 && b[i2
                        + 2] == 115 && b[i2 + 3] == 34 && b[i2 + 4] == 58 {
                        match p_u32(b, i2 + 5) {
                            Some((s, i3)) => if i3 + 5 <= b.len() && b[i3] == 44 && b[i3 + 1] == 34
                                && b[i3 + 2] == 104 && b[i3 + 3] == 34 && b[i3 + 4] == 58 {
                                match p_str_array(b, i3 + 5) {
                                    Some((h, i4)) => if i4 + 5 <= b.len() && b[i4] == 44 && b[i4
                                        + 1] == 34 && b[i4 + 2] == 113 && b[i4 + 3] == 34 && b[i4
                                        + 4] == 58 {
                                        match p_str_array(b, i4 + 5) {
                                            Some((q, i5)) => if i5 + 5 <= b.len() && b[i5] == 44
                                                && b[i5 + 1] == 34 && b[i5 + 2] == 116 && b[i5 + 3]
                                                == 34 && b[i5 + 4] == 58 {
                                                match p_jstr(b, i5 + 5) {
                                                    Some((t, i6)) => if i6 + 5 <= b.len() && b[i6]
                                                        == 44 && b[i6 + 1] == 34 && b[i6 + 2]
                                                        == 111 && b[i6 + 3] == 34 && b[i6 + 4]
                                                        == 58 {
                                                        match p_slot_array(b, i6 + 5) {
                                                            Some((o, i7)) => if i7 + 1 == b.len()
                                                                && b[i7] == 125 {
                                                                Some(
                                                                    ShareDataView {
                                                                        u,
                                                                        r,
                                                                        s,
                                                                        h,
                                                                        q,
                                                                        t,
                                                                        o,
                                                                    },
                                                                )
                                                            } else {
                                                                None
                                                            },
                                                            None => None,
                                                        }
                                                    } else {
                                                        None
                                                    },
                                                    None => None,
                                                }
                                            } else {
                                                None
                                            },
                                            None => None,
                                        }
                                    } else {
                                        None
                                    },
                                    None => None,
                                }
                            } else {
                                None
                            },
                            None => None,
                        }
                    } else {
                        None
                    },
                    None => None,
                }
            } else {
                None
            },
            None => None,
        }
    } else {
        None
    }
}

// ---------------------------------------------------------------------------
// The canonical encodings invert under the parsers.
// ---------------------------------------------------------------------------

/// Inside a JSON string, content whose escape form sits at `i` and is
/// followed by the closing quote scans back to exactly that content.
pub proof fn lemma_p_content(b: Seq<u8>, i: int, c: Seq<u8>, acc: Seq<u8>)
    requires
        0 <= i,
        i + esc_bytes(c).len() + 1 <= b.len(),
        b.subrange(i, i + esc_bytes(c).len()) =~= esc_bytes(c),
        b[i + esc_bytes(c).len()] == QUOTE,
    ensures
        p_content(b, i, acc) == Some((acc + c, i + esc_bytes(c).len() + 1)),
    decreases c.len(),
{
    let m = esc_bytes(c).len() as int;
    assert forall|k: int| 0 <= k < m implies b[i + k] == esc_bytes(c)[k] by {
        assert(b.subrange(i, i + m)[k] == b[i + k]);
    }
    if c.len() == 0 {
        assert(b[i] == QUOTE);
        assert(acc + c =~= acc);
    } else {
        let c0 = c[0];
        let e0 = esc_byte(c0);
        let rest = c.drop_first();
        let erest = esc_bytes(rest);
        assert(esc_bytes(c) == e0 + erest);
        let n0 = e0.len() as int;
        assert forall|k: int| 0 <= k < n0 implies b[i + k] == e0[k] by {
            assert(esc_bytes(c)[k] == e0[k]);
        }
        let i2 = i + n0;
        assert forall|k: int| 0 <= k < erest.len() implies b[i2 + k] == erest[k] by {
            assert(esc_bytes(c)[n0 + k] == erest[k]);
            assert(b[i + (n0 + k)] == esc_bytes(c)[n0 + k]);
        }
        assert(b.subrange(i2, i2 + erest.len()) =~= erest);
        assert(b[i2 + erest.len()] == QUOTE);
        if c0 == QUOTE {
            assert(b[i] == BACKSLASH && b[i + 1] == QUOTE);
            lemma_p_content(b, i2, rest, acc.push(c0));
            assert(acc.push(c0) + rest =~= acc + c);
        } else if c0 == BACKSLASH {
            assert(b[i] == BACKSLASH && b[i + 1] == BACKSLASH);
            lemma_p_content(b, i2, rest, acc.push(c0));
            assert(acc.push(c0) + rest =~= acc + c);
        } else if c0 < 32 {
            assert(b[i] == BACKSLASH && b[i + 1] == 117 && b[i + 2] == 48 && b[i + 3] == 48);
            assert(b[i + 4] == hex_digit(c0 / 16) && b[i + 5] == hex_digit(c0 % 16));
            assert(is_hex_lower(hex_digit(c0 / 16)) && hex_val(hex_digit(c0 / 16)) == c0 / 16);
            assert(is_hex_lower(hex_digit(c0 % 16)) && hex_val(hex_digit(c0 % 16)) == c0 % 16);
            assert((c0 / 16) * 16 + c0 % 16 == c0) by {
                vstd::arithmetic::div_mod::lemma_fundamental_div_mod(c0 as int, 16);
            }
            lemma_p_content(b, i2, rest, acc.push(c0));
            assert(acc.push(c0) + rest =~= acc + c);
        } else {
            assert(raw_content_byte(c0));
            assert(b[i + 0] == e0[0]);
            assert(b[i] == c0);
            lemma_p_content(b, i2, rest, acc.push(c0));
            assert(acc.push(c0) + rest =~= acc + c);
        }
    }
}

/// A canonical JSON string sitting at `i` parses to exactly its text.
pub proof fn lemma_p_jstr(b: Seq<u8>, i: int, s: Seq<char>)
    requires
        0 <= i,
        i + json_string(s).len() <= b.len(),
        b.subrange(i, i + json_string(s).len()) =~= json_string(s),
    ensures
        p_jstr(b, i) == Some((s, i + json_string(s).len())),
{
    broadcast use vstd::utf8::encode_utf8_valid_utf8, vstd::utf8::encode_utf8_decode_utf8;

    let u = encode_utf8(s);
    let m = esc_bytes(u).len() as int;
    let w = json_string(s).len() as int;
    assert(w == m + 2);
    assert forall|k: int| 0 <= k < w implies b[i + k] == json_string(s)[k] by {
        assert(b.subrange(i, i + w)[k] == b[i + k]);
    }
    assert(b[i + 0] == json_string(s)[0]);
    assert(b[i] == QUOTE);
    assert forall|k: int| 0 <= k < m implies b[i + 1 + k] == esc_bytes(u)[k] by {
        assert(json_string(s)[1 + k] == esc_bytes(u)[k]);
        assert(b[i + (1 + k)] == json_string(s)[1 + k]);
    }
    assert(b.subrange(i + 1, i + 1 + m) =~= esc_bytes(u));
    assert(b[i + 1 + m] == QUOTE) by {
        assert(json_string(s)[1 + m] == QUOTE);
    }
    lemma_p_content(b, i + 1, u, seq![]);
    assert(seq![] + u =~= u);
}

/// Every digit of a canonical decimal rendering is a digit, and the
/// rendering is never empty.
pub proof fn lemma_dec_digits_are_digits(n: nat)
    ensures
        dec_digits(n).len() >= 1,
        forall|k: int| 0 <= k < dec_digits(n).len() ==> is_digit(#[trigger] dec_digits(n)[k]),
    decreases n,
{
    if n >= 10 {
        lemma_dec_digits_are_digits(n / 10);
    }
}

/// A canonical decimal rendering starts with `0` only for zero itself.
pub proof fn lemma_dec_digits_first(n: nat)
    ensures
        n == 0 <==> dec_digits(n).len() == 1 && dec_digits(n)[0] == 48,
        n > 0 ==> dec_digits(n)[0] != 48,
    decreases n,
{
    if n >= 10 {
        lemma_dec_digits_first(n / 10);
        assert(dec_digits(n)[0] == dec_digits(n / 10)[0]);
    }
}

/// Scanning digits stops exactly at the first non-digit.
pub proof fn lemma_digits_end(b: Seq<u8>, i: int, len: int)
    requires
        0 <= i,
        i + len <= b.len(),
        0 <= len,
        forall|k: int| i <= k < i + len ==> is_digit(#[trigger] b[k]),
        i + len == b.len() || !is_digit(b[i + len]),
    ensures
        digits_end(b, i) == i + len,
    decreases len,
{
    if len > 0 {
        lemma_digits_end(b, i + 1, len - 1);
    }
}

/// The digit run of a canonical rendering evaluates back to the number.
pub proof fn lemma_digits_val_of_dec(b: Seq<u8>, i: int, n: nat)
    requires
        0 <= i,
        i + dec_digits(n).len() <= b.len(),
        b.subrange(i, i + dec_digits(n).len()) =~= dec_digits(n),
    ensures
        digits_val(b, i, i + dec_digits(n).len()) == n,
    decreases n,
{
    let d = dec_digits(n);
    let m = d.len() as int;
    assert forall|k: int| 0 <= k < m implies b[i + k] == d[k] by {
        assert(b.subrange(i, i + m)[k] == b[i + k]);
    }
    if n < 10 {
        assert(b[i + 0] == d[0]);
        assert(b[i] == 48 + n);
        assert(digits_val(b, i, i + 1) == digits_val(b, i, i) * 10 + (b[i] - 48));
    } else {
        let dq = dec_digits(n / 10);
        let mq = dq.len() as int;
        assert(d == dq + seq![(48 + n % 10) as u8]);
        assert(m == mq + 1);
        assert forall|k: int| 0 <= k < mq implies b.subrange(i, i + mq)[k] == dq[k] by {
            assert(d[k] == dq[k]);
            assert(b[i + k] == d[k]);
        }
        assert(b.subrange(i, i + mq) =~= dq);
        lemma_digits_val_of_dec(b, i, n / 10);
        assert(b[i + mq] == d[mq]);
        assert(d[mq] == 48 + n % 10);
        assert(digits_val(b, i, i + m) == digits_val(b, i, i + mq) * 10 + (b[i + mq] - 48));
        assert((n / 10) * 10 + n % 10 == n) by {
            vstd::arithmetic::div_mod::lemma_fundamental_div_mod(n as int, 10);
        }
    }
}

/// Locate one piece of a concatenation: its bytes, pointwise and as a
/// subrange, sit at the offset the prefix dictates.
pub proof fn lemma_seq_at(b: Seq<u8>, pre: Seq<u8>, x: Seq<u8>, post: Seq<u8>)
    requires
        b =~= pre + x + post,
    ensures
        b.len() == pre.len() + x.len() + post.len(),
        b.subrange(pre.len() as int, pre.len() as int + x.len() as int) =~= x,
        forall|k: int| 0 <= k < x.len() ==> b[pre.len() as int + k] == #[trigger] x[k],
{
    assert forall|k: int| 0 <= k < x.len() implies b[pre.len() as int + k] == #[trigger] x[k] by {
        assert(b[pre.len() as int + k] == (pre + x + post)[pre.len() as int + k]);
    }
}

/// A canonical `u32` rendering at `i`, followed by a non-digit or the end
/// of the input, parses to exactly that number.
pub proof fn lemma_p_u32(b: Seq<u8>, i: int, n: u32)
    requires
        0 <= i,
        i + dec_digits(n as nat).len() <= b.len(),
        b.subrange(i, i + dec_digits(n as nat).len()) =~= dec_digits(n as nat),
        i + dec_digits(n as nat).len() == b.len() || !is_digit(
            b[i + dec_digits(n as nat).len()],
        ),
    ensures
        p_u32(b, i) == Some((n, i + dec_digits(n as nat).len())),
{
    let d = dec_digits(n as nat);
    let m = d.len() as int;
    lemma_dec_digits_are_digits(n as nat);
    assert forall|k: int| i <= k < i + m implies is_digit(b[k]) by {
        assert(b.subrange(i, i + m)[k - i] == b[k]);
    }
    lemma_digits_end(b, i, m);
    lemma_digits_val_of_dec(b, i, n as nat);
    lemma_dec_digits_first(n as nat);
    assert(b[i] == d[0]) by {
        assert(b.subrange(i, i + m)[0] == b[i]);
    }
}

/// Pointwise agreement over a window gives the subrange.
pub proof fn lemma_sub_at(b: Seq<u8>, i: int, x: Seq<u8>)
    requires
        0 <= i,
        i + x.len() <= b.len(),
        forall|k: int| 0 <= k < x.len() ==> b[i + k] == #[trigger] x[k],
    ensures
        b.subrange(i, i + x.len()) =~= x,
{
}

/// First half of [`lemma_p_slot`]: the day number and the kind tag.
#[verifier::rlimit(100)]
proof fn lemma_p_slot_head(b: Seq<u8>, i: int, v: SlotView)
    requires
        0 <= i,
        i + enc_slot(v).len() <= b.len(),
        b.subrange(i, i + enc_slot(v).len()) =~= enc_slot(v),
    ensures
        ({
            let dd = dec_digits(v.d as nat);
            let js = json_string(v.s);
            let o3 = 5 + dd.len() as int;
            &&& b[i + 0] == 123 && b[i + 1] == 34 && b[i + 2] == 100 && b[i + 3] == 34 && b[i + 4]
                == 58
            &&& p_u32(b, i + 5) == Some((v.d as u32, i + o3))
            &&& b[i + o3 + 0] == 44 && b[i + o3 + 1] == 34 && b[i + o3 + 2] == 115 && b[i + o3 + 3]
                == 34 && b[i + o3 + 4] == 58
            &&& p_jstr(b, i + o3 + 5) == Some((v.s, i + o3 + 5 + js.len()))
        }),
{
    let e = enc_slot(v);
    let m = e.len() as int;
    let k1 = seq![123u8, 34, 100, 34, 58];
    let dd = dec_digits(v.d as nat);
    let k2 = seq![44u8, 34, 115, 34, 58];
    let js = json_string(v.s);
    let k3 = seq![44u8, 34, 112, 34, 58];
    let dp = dec_digits(v.p as nat);
    let k4 = seq![44u8, 34, 102, 34, 58];
    let jf = json_string(v.f);
    let k5 = seq![125u8];
    lemma_dec_digits_are_digits(v.d as nat);
    lemma_dec_digits_are_digits(v.p as nat);
    assert forall|k: int| 0 <= k < m implies b[i + k] == e[k] by {
        assert(b.subrange(i, i + m)[k] == b[i + k]);
    }
    let o1: int = 0;
    assert(b[i + 0] == e[0] && b[i + 1] == e[1] && b[i + 2] == e[2] && b[i + 3] == e[3] && b[i + 4]
        == e[4]);
    // the day number, followed by a comma
    let o2: int = 5;
    assert(e =~= k1 + dd + (k2 + js + k3 + dp + k4 + jf + k5));
    lemma_seq_at(e, k1, dd, k2 + js + k3 + dp + k4 + jf + k5);
    assert forall|t: int| 0 <= t < dd.len() implies b[i + o2 + t] == dd[t] by {
        assert(b[i + (o2 + t)] == e[o2 + t]);
        assert(e[k1.len() as int + t] == dd[t]);
    }
    lemma_sub_at(b, i + o2, dd);
    let o3 = o2 + dd.len() as int;
    assert(e =~= (k1 + dd) + k2 + (js + k3 + dp + k4 + jf + k5));
    lemma_seq_at(e, k1 + dd, k2, js + k3 + dp + k4 + jf + k5);
    assert forall|t: int| 0 <= t < k2.len() implies b[i + o3 + t] == k2[t] by {
        assert(b[i + (o3 + t)] == e[o3 + t]);
        assert(e[(k1 + dd).len() as int + t] == k2[t]);
    }
    assert(b[i + o3 + 0] == 44);
    lemma_p_u32(b, i + o2, v.d as u32);
    assert(b[i + o3 + 1] == 34 && b[i + o3 + 2] == 115 && b[i + o3 + 3] == 34 && b[i + o3 + 4]
        == 58);
    // the kind tag string, followed by a comma
    let o4 = o3 + 5;
    assert(e =~= (k1 + dd + k2) + js + (k3 + dp + k4 + jf + k5));
    lemma_seq_at(e, k1 + dd + k2, js, k3 + dp + k4 + jf + k5);
    assert forall|t: int| 0 <= t < js.len() implies b[i + o4 + t] == js[t] by {
        assert(b[i + (o4 + t)] == e[o4 + t]);
        assert(e[(k1 + dd + k2).len() as int + t] == js[t]);
    }
    lemma_sub_at(b, i + o4, js);
    lemma_p_jstr(b, i + o4, v.s);
}

/// Second half of [`lemma_p_slot`]: the period number, the label and the
/// closing brace.
#[verifier::rlimit(100)]
proof fn lemma_p_slot_tail(b: Seq<u8>, i: int, v: SlotView)
    requires
        0 <= i,
        i + enc_slot(v).len() <= b.len(),
        b.subrange(i, i + enc_slot(v).len()) =~= enc_slot(v),
    ensures
        ({
            let dd = dec_digits(v.d as nat);
            let js = json_string(v.s);
            let dp = dec_digits(v.p as nat);
            let jf = json_string(v.f);
            let o5 = 5 + dd.len() as int + 5 + js.len() as int;
            let o7 = o5 + 5 + dp.len() as int;
            let o9 = o7 + 5 + jf.len() as int;
            &&& b[i + o5 + 0] == 44 && b[i + o5 + 1] == 34 && b[i + o5 + 2] == 112 && b[i + o5
                + 3] == 34 && b[i + o5 + 4] == 58
            &&& p_u32(b, i + o5 + 5) == Some((v.p as u32, i + o7))
            &&& b[i + o7 + 0] == 44 && b[i + o7 + 1] == 34 && b[i + o7 + 2] == 102 && b[i + o7
                + 3] == 34 && b[i + o7 + 4] == 58
            &&& p_jstr(b, i + o7 + 5) == Some((v.f, i + o9))
            &&& b[i + o9] == 125
            &&& i + o9 + 1 == i + enc_slot(v).len()
        }),
{
    let e = enc_slot(v);
    let m = e.len() as int;
    let k1 = seq![123u8, 34, 100, 34, 58];
    let dd = dec_digits(v.d as nat);
    let k2 = seq![44u8, 34, 115, 34, 58];
    let js = json_string(v.s);
    let k3 = seq![44u8, 34, 112, 34, 58];
    let dp = dec_digits(v.p as nat);
    let k4 = seq![44u8, 34, 102, 34, 58];
    let jf = json_string(v.f);
    let k5 = seq![125u8];
    lemma_dec_digits_are_digits(v.p as nat);
    assert forall|k: int| 0 <= k < m implies b[i + k] == e[k] by {
        assert(b.subrange(i, i + m)[k] == b[i + k]);
    }
    let o5 = 5 + dd.len() as int + 5 + js.len() as int;
    assert(e =~= (k1 + dd + k2 + js) + k3 + (dp + k4 + jf + k5));
    lemma_seq_at(e, k1 + dd + k2 + js, k3, dp + k4 + jf + k5);
    assert forall|t: int| 0 <= t < k3.len() implies b[i + o5 + t] == k3[t] by {
        assert(b[i + (o5 + t)] == e[o5 + t]);
        assert(e[(k1 + dd + k2 + js).len() as int + t] == k3[t]);
    }
    assert(b[i + o5 + 0] == 44 && b[i + o5 + 1] == 34 && b[i + o5 + 2] == 112 && b[i + o5 + 3]
        == 34 && b[i + o5 + 4] == 58);
    // the period number, followed by a comma
    let o6 = o5 + 5;
    assert(e =~= (k1 + dd + k2 + js + k3) + dp + (k4 + jf + k5));
    lemma_seq_at(e, k1 + dd + k2 + js + k3, dp, k4 + jf + k5);
    assert forall|t: int| 0 <= t < dp.len() implies b[i + o6 + t] == dp[t] by {
        assert(b[i + (o6 + t)] == e[o6 + t]);
        assert(e[(k1 + dd + k2 + js + k3).len() as int + t] == dp[t]);
    }
    lemma_sub_at(b, i + o6, dp);
    let o7 = o6 + dp.len() as int;
    assert(e =~= (k1 + dd + k2 + js + k3 + dp) + k4 + (jf + k5));
    lemma_seq_at(e, k1 + dd + k2 + js + k3 + dp, k4, jf + k5);
    assert forall|t: int| 0 <= t < k4.len() implies b[i + o7 + t] == k4[t] by {
        assert(b[i + (o7 + t)] == e[o7 + t]);
        assert(e[(k1 + dd + k2 + js + k3 + dp).len() as int + t] == k4[t]);
    }
    assert(b[i + o7 + 0] == 44);
    lemma_p_u32(b, i + o6, v.p as u32);
    assert(b[i + o7 + 1] == 34 && b[i + o7 + 2] == 102 && b[i + o7 + 3] == 34 && b[i + o7 + 4]
        == 58);
    // the label string, followed by the closing brace
    let o8 = o7 + 5;
    assert(e =~= (k1 + dd + k2 + js + k3 + dp + k4) + jf + k5);
    lemma_seq_at(e, k1 + dd + k2 + js + k3 + dp + k4, jf, k5);
    assert forall|t: int| 0 <= t < jf.len() implies b[i + o8 + t] == jf[t] by {
        assert(b[i + (o8 + t)] == e[o8 + t]);
        assert(e[(k1 + dd + k2 + js + k3 + dp + k4).len() as int + t] == jf[t]);
    }
    lemma_sub_at(b, i + o8, jf);
    lemma_p_jstr(b, i + o8, v.f);
    let o9 = o8 + jf.len() as int;
    assert(e =~= (k1 + dd + k2 + js + k3 + dp + k4 + jf) + k5 + seq![]);
    lemma_seq_at(e, k1 + dd + k2 + js + k3 + dp + k4 + jf, k5, seq![]);
    assert(b[i + o9 + 0] == 125) by {
        assert(b[i + (o9 + 0)] == e[o9 + 0]);
        assert(e[(k1 + dd + k2 + js + k3 + dp + k4 + jf).len() as int + 0] == k5[0]);
    }
    assert(i + o9 + 1 == i + m);
}

/// A canonically encoded slot object sitting at `i` parses to exactly
/// its fields.
pub proof fn lemma_p_slot(b: Seq<u8>, i: int, v: SlotView)
    requires
        0 <= i,
        i + enc_slot(v).len() <= b.len(),
        b.subrange(i, i + enc_slot(v).len()) =~= enc_slot(v),
    ensures
        p_slot(b, i) == Some((v, i + enc_slot(v).len())),
{
    lemma_p_slot_head(b, i, v);
    lemma_p_slot_tail(b, i, v);
    let parsed = SlotView { d: (v.d as u32) as u8, s: v.s, p: (v.p as u32) as u8, f: v.f };
    assert(parsed =~= v);
}

/// The element run of a non-empty string array, sitting at `i` and
/// followed by the closing bracket, parses to the remaining elements.
pub proof fn lemma_p_str_items(b: Seq<u8>, i: int, xs: Seq<Seq<char>>, k: int, acc: Seq<Seq<char>>)
    requires
        0 <= k < xs.len(),
        0 <= i,
        i + enc_str_items(xs, k).len() + 1 <= b.len(),
        b.subrange(i, i + enc_str_items(xs, k).len()) =~= enc_str_items(xs, k),
        b[i + enc_str_items(xs, k).len()] == 93,
    ensures
        p_str_items(b, i, acc) == Some((acc + xs.skip(k), i + enc_str_items(xs, k).len() + 1)),
    decreases xs.len() - k,
{
    let e = enc_str_items(xs, k);
    let m = e.len() as int;
    let js = json_string(xs[k]);
    assert forall|t: int| 0 <= t < m implies b[i + t] == e[t] by {
        assert(b.subrange(i, i + m)[t] == b[i + t]);
    }
    if k + 1 == xs.len() {
        assert(e == js);
        lemma_p_jstr(b, i, xs[k]);
        assert(acc.push(xs[k]) =~= acc + xs.skip(k));
    } else {
        let rest = enc_str_items(xs, k + 1);
        assert(e == js + seq![44u8] + rest);
        assert(e =~= seq![] + js + (seq![44u8] + rest));
        lemma_seq_at(e, seq![], js, seq![44u8] + rest);
        assert forall|t: int| 0 <= t < js.len() implies b[i + t] == js[t] by {
            assert(e[0 + t] == js[t]);
        }
        lemma_sub_at(b, i, js);
        lemma_p_jstr(b, i, xs[k]);
        let j = i + js.len() as int;
        assert(b[i + (js.len() as int)] == 44) by {
            assert(e[js.len() as int] == 44);
        }
        assert(b[j] == 44);
        assert(e =~= (js + seq![44u8]) + rest + seq![]);
        lemma_seq_at(e, js + seq![44u8], rest, seq![]);
        assert forall|t: int| 0 <= t < rest.len() implies b[j + 1 + t] == rest[t] by {
            assert(b[i + (js.len() as int + 1 + t)] == e[js.len() as int + 1 + t]);
            assert(e[(js + seq![44u8]).len() as int + t] == rest[t]);
        }
        lemma_sub_at(b, j + 1, rest);
        assert(b[j + 1 + rest.len()] == 93);
        lemma_p_str_items(b, j + 1, xs, k + 1, acc.push(xs[k]));
        assert(acc.push(xs[k]) + xs.skip(k + 1) =~= acc + xs.skip(k));
    }
}

/// A canonically encoded string array sitting at `i` parses to exactly
/// its elements.
pub proof fn lemma_p_str_array(b: Seq<u8>, i: int, xs: Seq<Seq<char>>)
    requires
        0 <= i,
        i + enc_str_array(xs).len() <= b.len(),
        b.subrange(i, i + enc_str_array(xs).len()) =~= enc_str_array(xs),
    ensures
        p_str_array(b, i) == Some((xs, i + enc_str_array(xs).len())),
{
    let e = enc_str_array(xs);
    let m = e.len() as int;
    let items = enc_str_items(xs, 0);
    assert forall|t: int| 0 <= t < m implies b[i + t] == e[t] by {
        assert(b.subrange(i, i + m)[t] == b[i + t]);
    }
    assert(b[i + 0] == e[0]);
    if xs.len() == 0 {
        assert(items == Seq::<u8>::empty());
        assert(b[i + 1] == e[1]);
        assert(xs =~= Seq::<Seq<char>>::empty());
    } else {
        assert(e =~= seq![91u8] + items + seq![93u8]);
        lemma_seq_at(e, seq![91u8], items, seq![93u8]);
        assert forall|t: int| 0 <= t < items.len() implies b[i + 1 + t] == items[t] by {
            assert(b[i + (1 + t)] == e[1 + t]);
            assert(e[seq![91u8].len() as int + t] == items[t]);
        }
        lemma_sub_at(b, i + 1, items);
        assert(b[i + 1 + items.len()] == 93) by {
            assert(e[seq![91u8].len() as int + items.len() as int] == 93) by {
                assert(e[1 + items.len() as int] == (seq![91u8] + items + seq![93u8])[1 + items.len() as int]);
            }
            assert(b[i + (1 + items.len() as int)] == e[1 + items.len() as int]);
        }
        assert(items[0] == json_string(xs[0])[0]) by {
            if 1 < xs.len() {
                assert(items == json_string(xs[0]) + seq![44u8] + enc_str_items(xs, 1));
            }
        }
        assert(b[i + 1] == 34);
        lemma_p_str_items(b, i + 1, xs, 0, seq![]);
        assert(seq![] + xs.skip(0) =~= xs);
    }
}

/// The element run of a non-empty slot array, sitting at `i` and
/// followed by the closing bracket, parses to the remaining elements.
pub proof fn lemma_p_slot_items(b: Seq<u8>, i: int, xs: Seq<SlotView>, k: int, acc: Seq<SlotView>)
    requires
        0 <= k < xs.len(),
        0 <= i,
        i + enc_slot_items(xs, k).len() + 1 <= b.len(),
        b.subrange(i, i + enc_slot_items(xs, k).len()) =~= enc_slot_items(xs, k),
        b[i + enc_slot_items(xs, k).len()] == 93,
    ensures
        p_slot_items(b, i, acc) == Some((acc + xs.skip(k), i + enc_slot_items(xs, k).len() + 1)),
    decreases xs.len() - k,
{
    let e = enc_slot_items(xs, k);
    let m = e.len() as int;
    let es = enc_slot(xs[k]);
    assert forall|t: int| 0 <= t < m implies b[i + t] == e[t] by {
        assert(b.subrange(i, i + m)[t] == b[i + t]);
    }
    if k + 1 == xs.len() {
        assert(e == es);
        lemma_p_slot(b, i, xs[k]);
        assert(acc.push(xs[k]) =~= acc + xs.skip(k));
    } else {
        let rest = enc_slot_items(xs, k + 1);
        assert(e == es + seq![44u8] + rest);
        assert(e =~= seq![] + es + (seq![44u8] + rest));
        lemma_seq_at(e, seq![], es, seq![44u8] + rest);
        assert forall|t: int| 0 <= t < es.len() implies b[i + t] == es[t] by {
            assert(e[0 + t] == es[t]);
        }
        lemma_sub_at(b, i, es);
        lemma_p_slot(b, i, xs[k]);
        let j = i + es.len() as int;
        assert(b[i + (es.len() as int)] == 44) by {
            assert(e[es.len() as int] == 44);
        }
        assert(b[j] == 44);
        assert(e =~= (es + seq![44u8]) + rest + seq![]);
        lemma_seq_at(e, es + seq![44u8], rest, seq![]);
        assert forall|t: int| 0 <= t < rest.len() implies b[j + 1 + t] == rest[t] by {
            assert(b[i + (es.len() as int + 1 + t)] == e[es.len() as int + 1 + t]);
            assert(e[(es + seq![44u8]).len() as int + t] == rest[t]);
        }
        lemma_sub_at(b, j + 1, rest);
        assert(b[j + 1 + rest.len()] == 93);
        lemma_p_slot_items(b, j + 1, xs, k + 1, acc.push(xs[k]));
        assert(acc.push(xs[k]) + xs.skip(k + 1) =~= acc + xs.skip(k));
    }
}

/// A canonically encoded slot array sitting at `i` parses to exactly
/// its elements.
pub proof fn lemma_p_slot_array(b: Seq<u8>, i: int, xs: Seq<SlotView>)
    requires
        0 <= i,
        i + enc_slot_array(xs).len() <= b.len(),
        b.subrange(i, i + enc_slot_array(xs).len()) =~= enc_slot_array(xs),
    ensures
        p_slot_array(b, i) == Some((xs, i + enc_slot_array(xs).len())),
{
    let e = enc_slot_array(xs);
    let m = e.len() as int;
    let items = enc_slot_items(xs, 0);
    assert forall|t: int| 0 <= t < m implies b[i + t] == e[t] by {
        assert(b.subrange(i, i + m)[t] == b[i + t]);
    }
    assert(b[i + 0] == e[0]);
    if xs.len() == 0 {
        assert(items == Seq::<u8>::empty());
        assert(b[i + 1] == e[1]);
        assert(xs =~= Seq::<SlotView>::empty());
    } else {
        assert(e =~= seq![91u8] + items + seq![93u8]);
        lemma_seq_at(e, seq![91u8], items, seq![93u8]);
        assert forall|t: int| 0 <= t < items.len() implies b[i + 1 + t] == items[t] by {
            assert(b[i + (1 + t)] == e[1 + t]);
            assert(e[seq![91u8].len() as int + t] == items[t]);
        }
        lemma_sub_at(b, i + 1, items);
        assert(b[i + 1 + items.len()] == 93) by {
            assert(e[seq![91u8].len() as int + items.len() as int] == 93) by {
                assert(e[1 + items.len() as int] == (seq![91u8] + items + seq![93u8])[1 + items.len() as int]);
            }
            assert(b[i + (1 + items.len() as int)] == e[1 + items.len() as int]);
        }
        assert(items[0] == enc_slot(xs[0])[0]) by {
            if 1 < xs.len() {
                assert(items == enc_slot(xs[0]) + seq![44u8] + enc_slot_items(xs, 1));
            }
        }
        assert(enc_slot(xs[0])[0] == 123);
        assert(b[i + 1] == 123);
        lemma_p_slot_items(b, i + 1, xs, 0, seq![]);
        assert(seq![] + xs.skip(0) =~= xs);
    }
}

// Offsets of the profile payload's fields inside its encoding: each is
// the index just past the named field's value.
pub open spec fn sh_i1(v: ShareDataView) -> int {
    5 + json_string(v.u).len() as int
}

pub open spec fn sh_i2(v: ShareDataView) -> int {
    sh_i1(v) + 5 + json_string(v.r).len() as int
}

pub open spec fn sh_i3(v: ShareDataView) -> int {
    sh_i2(v) + 5 + dec_digits(v.s as nat).len() as int
}

pub open spec fn sh_i4(v: ShareDataView) -> int {
    sh_i3(v) + 5 + enc_str_array(v.h).len() as int
}

pub open spec fn sh_i5(v: ShareDataView) -> int {
    sh_i4(v) + 5 + enc_str_array(v.q).len() as int
}

pub open spec fn sh_i6(v: ShareDataView) -> int {
    sh_i5(v) + 5 + json_string(v.t).len() as int
}

pub open spec fn sh_i7(v: ShareDataView) -> int {
    sh_i6(v) + 5 + enc_slot_array(v.o).len() as int
}

/// The owner field of an encoded profile parses back.
#[verifier::rlimit(100)]
proof fn lemma_share_u(v: ShareDataView)
    ensures
        ({
            let b = enc_share(v);
            &&& b.len() >= 5 && b[0] == 123 && b[1] == 34 && b[2] == 117 && b[3] == 34 && b[4]
                == 58
            &&& p_jstr(b, 5) == Some((v.u, sh_i1(v)))
        }),
{
    let b = enc_share(v);
    let a0 = seq![123u8, 34, 117, 34, 58];
    let x1 = json_string(v.u);
    let a1 = seq![44u8, 34, 114, 34, 58];
    let x2 = json_string(v.r);
    let a2 = seq![44u8, 34, 115, 34, 58];
    let x3 = dec_digits(v.s as nat);
    let a3 = seq![44u8, 34, 104, 34, 58];
    let x4 = enc_str_array(v.h);
    let a4 = seq![44u8, 34, 113, 34, 58];
    let x5 = enc_str_array(v.q);
    let a5 = seq![44u8, 34, 116, 34, 58];
    let x6 = json_string(v.t);
    let a6 = seq![44u8, 34, 111, 34, 58];
    let x7 = enc_slot_array(v.o);
    let a7 = seq![125u8];
    assert(b =~= seq![] + a0 + (x1 + a1 + x2 + a2 + x3 + a3 + x4 + a4 + x5 + a5 + x6 + a6 + x7
        + a7));
    lemma_seq_at(b, seq![], a0, x1 + a1 + x2 + a2 + x3 + a3 + x4 + a4 + x5 + a5 + x6 + a6 + x7
        + a7);
    let z: int = 0;
    assert(b[z + 0] == a0[0] && b[z + 1] == a0[1] && b[z + 2] == a0[2] && b[z + 3] == a0[3] && b[z
        + 4] == a0[4]);
    assert(b =~= a0 + x1 + (a1 + x2 + a2 + x3 + a3 + x4 + a4 + x5 + a5 + x6 + a6 + x7 + a7));
    lemma_seq_at(b, a0, x1, a1 + x2 + a2 + x3 + a3 + x4 + a4 + x5 + a5 + x6 + a6 + x7 + a7);
    lemma_p_jstr(b, 5, v.u);
}

/// The registration field of an encoded profile parses back.
#[verifier::rlimit(100)]
proof fn lemma_share_r(v: ShareDataView)
    ensures
        ({
            let b = enc_share(v);
            let i1 = sh_i1(v);
            &&& i1 + 5 <= b.len() && b[i1 + 0] == 44 && b[i1 + 1] == 34 && b[i1 + 2] == 114
                && b[i1 + 3] == 34 && b[i1 + 4] == 58
            &&& p_jstr(b, i1 + 5) == Some((v.r, sh_i2(v)))
        }),
{
    let b = enc_share(v);
    let a0 = seq![123u8, 34, 117, 34, 58];
    let x1 = json_string(v.u);
    let a1 = seq![44u8, 34, 114, 34, 58];
    let x2 = json_string(v.r);
    let a2 = seq![44u8, 34, 115, 34, 58];
    let x3 = dec_digits(v.s as nat);
    let a3 = seq![44u8, 34, 104, 34, 58];
    let x4 = enc_str_array(v.h);
    let a4 = seq![44u8, 34, 113, 34, 58];
    let x5 = enc_str_array(v.q);
    let a5 = seq![44u8, 34, 116, 34, 58];
    let x6 = json_string(v.t);
    let a6 = seq![44u8, 34, 111, 34, 58];
    let x7 = enc_slot_array(v.o);
    let a7 = seq![125u8];
    let i1 = sh_i1(v);
    assert(b =~= (a0 + x1) + a1 + (x2 + a2 + x3 + a3 + x4 + a4 + x5 + a5 + x6 + a6 + x7 + a7));
    lemma_seq_at(b, a0 + x1, a1, x2 + a2 + x3 + a3 + x4 + a4 + x5 + a5 + x6 + a6 + x7 + a7);
    assert(b[i1 + 0] == a1[0] && b[i1 + 1] == a1[1] && b[i1 + 2] == a1[2] && b[i1 + 3] == a1[3]
        && b[i1 + 4] == a1[4]);
    assert(b =~= (a0 + x1 + a1) + x2 + (a2 + x3 + a3 + x4 + a4 + x5 + a5 + x6 + a6 + x7 + a7));
    lemma_seq_at(b, a0 + x1 + a1, x2, a2 + x3 + a3 + x4 + a4 + x5 + a5 + x6 + a6 + x7 + a7);
    lemma_p_jstr(b, i1 + 5, v.r);
}

/// The term-number field of an encoded profile parses back.
#[verifier::rlimit(100)]
proof fn lemma_share_s(v: ShareDataView)
    ensures
        ({
            let b = enc_share(v);
            let i2 = sh_i2(v);
            &&& i2 + 5 <= b.len() && b[i2 + 0] == 44 && b[i2 + 1] == 34 && b[i2 + 2] == 115
                && b[i2 + 3] == 34 && b[i2 + 4] == 58
            &&& p_u32(b, i2 + 5) == Some((v.s, sh_i3(v)))
        }),
{
    let b = enc_share(v);
    let a0 = seq![123u8, 34, 117, 34, 58];
    let x1 = json_string(v.u);
    let a1 = seq![44u8, 34, 114, 34, 58];
    let x2 = json_string(v.r);
    let a2 = seq![44u8, 34, 115, 34, 58];
    let x3 = dec_digits(v.s as nat);
    let a3 = seq![44u8, 34, 104, 34, 58];
    let x4 = enc_str_array(v.h);
    let a4 = seq![44u8, 34, 113, 34, 58];
    let x5 = enc_str_array(v.q);
    let a5 = seq![44u8, 34, 116, 34, 58];
    let x6 = json_string(v.t);
    let a6 = seq![44u8, 34, 111, 34, 58];
    let x7 = enc_slot_array(v.o);
    let a7 = seq![125u8];
    let i2 = sh_i2(v);
    let i3 = sh_i3(v);
    lemma_dec_digits_are_digits(v.s as nat);
    assert(b =~= (a0 + x1 + a1 + x2) + a2 + (x3 + a3 + x4 + a4 + x5 + a5 + x6 + a6 + x7 + a7));
    lemma_seq_at(b, a0 + x1 + a1 + x2, a2, x3 + a3 + x4 + a4 + x5 + a5 + x6 + a6 + x7 + a7);
    assert(b[i2 + 0] == a2[0] && b[i2 + 1] == a2[1] && b[i2 + 2] == a2[2] && b[i2 + 3] == a2[3]
        && b[i2 + 4] == a2[4]);
    assert(b =~= (a0 + x1 + a1 + x2 + a2) + x3 + (a3 + x4 + a4 + x5 + a5 + x6 + a6 + x7 + a7));
    lemma_seq_at(b, a0 + x1 + a1 + x2 + a2, x3, a3 + x4 + a4 + x5 + a5 + x6 + a6 + x7 + a7);
    assert(b =~= (a0 + x1 + a1 + x2 + a2 + x3) + a3 + (x4 + a4 + x5 + a5 + x6 + a6 + x7 + a7));
    lemma_seq_at(b, a0 + x1 + a1 + x2 + a2 + x3, a3, x4 + a4 + x5 + a5 + x6 + a6 + x7 + a7);
    assert(b[i3 + 0] == a3[0]);
    assert(!is_digit(44));
    lemma_p_u32(b, i2 + 5, v.s);
}

/// The interest-tag array of an encoded profile parses back.
#[verifier::rlimit(100)]
proof fn lemma_share_h(v: ShareDataView)
    ensures
        ({
            let b = enc_share(v);
            let i3 = sh_i3(v);
            &&& i3 + 5 <= b.len() && b[i3 + 0] == 44 && b[i3 + 1] == 34 && b[i3 + 2] == 104
                && b[i3 + 3] == 34 && b[i3 + 4] == 58
            &&& p_str_array(b, i3 + 5) == Some((v.h, sh_i4(v)))
        }),
{
    let b = enc_share(v);
    let a0 = seq![123u8, 34, 117, 34, 58];
    let x1 = json_string(v.u);
    let a1 = seq![44u8, 34, 114, 34, 58];
    let x2 = json_string(v.r);
    let a2 = seq![44u8, 34, 115, 34, 58];
    let x3 = dec_digits(v.s as nat);
    let a3 = seq![44u8, 34, 104, 34, 58];
    let x4 = enc_str_array(v.h);
    let a4 = seq![44u8, 34, 113, 34, 58];
    let x5 = enc_str_array(v.q);
    let a5 = seq![44u8, 34, 116, 34, 58];
    let x6 = json_string(v.t);
    let a6 = seq![44u8, 34, 111, 34, 58];
    let x7 = enc_slot_array(v.o);
    let a7 = seq![125u8];
    let i3 = sh_i3(v);
    assert(b =~= (a0 + x1 + a1 + x2 + a2 + x3) + a3 + (x4 + a4 + x5 + a5 + x6 + a6 + x7 + a7));
    lemma_seq_at(b, a0 + x1 + a1 + x2 + a2 + x3, a3, x4 + a4 + x5 + a5 + x6 + a6 + x7 + a7);
    assert(b[i3 + 0] == a3[0] && b[i3 + 1] == a3[1] && b[i3 + 2] == a3[2] && b[i3 + 3] == a3[3]
        && b[i3 + 4] == a3[4]);
    assert(b =~= (a0 + x1 + a1 + x2 + a2 + x3 + a3) + x4 + (a4 + x5 + a5 + x6 + a6 + x7 + a7));
    lemma_seq_at(b, a0 + x1 + a1 + x2 + a2 + x3 + a3, x4, a4 + x5 + a5 + x6 + a6 + x7 + a7);
    lemma_p_str_array(b, i3 + 5, v.h);
}

/// The quote array of an encoded profile parses back.
#[verifier::rlimit(100)]
proof fn lemma_share_q(v: ShareDataView)
    ensures
        ({
            let b = enc_share(v);
            let i4 = sh_i4(v);
            &&& i4 + 5 <= b.len() && b[i4 + 0] == 44 && b[i4 + 1] == 34 && b[i4 + 2] == 113
                && b[i4 + 3] == 34 && b[i4 + 4] == 58
            &&& p_str_array(b, i4 + 5) == Some((v.q, sh_i5(v)))
        }),
{
    let b = enc_share(v);
    let a0 = seq![123u8, 34, 117, 34, 58];
    let x1 = json_string(v.u);
    let a1 = seq![44u8, 34, 114, 34, 58];
    let x2 = json_string(v.r);
    let a2 = seq![44u8, 34, 115, 34, 58];
    let x3 = dec_digits(v.s as nat);
    let a3 = seq![44u8, 34, 104, 34, 58];
    let x4 = enc_str_array(v.h);
    let a4 = seq![44u8, 34, 113, 34, 58];
    let x5 = enc_str_array(v.q);
    let a5 = seq![44u8, 34, 116, 34, 58];
    let x6 = json_string(v.t);
    let a6 = seq![44u8, 34, 111, 34, 58];
    let x7 = enc_slot_array(v.o);
    let a7 = seq![125u8];
    let i4 = sh_i4(v);
    assert(b =~= (a0 + x1 + a1 + x2 + a2 + x3 + a3 + x4) + a4 + (x5 + a5 + x6 + a6 + x7 + a7));
    lemma_seq_at(b, a0 + x1 + a1 + x2 + a2 + x3 + a3 + x4, a4, x5 + a5 + x6 + a6 + x7 + a7);
    assert(b[i4 + 0] == a4[0] && b[i4 + 1] == a4[1] && b[i4 + 2] == a4[2] && b[i4 + 3] == a4[3]
        && b[i4 + 4] == a4[4]);
    assert(b =~= (a0 + x1 + a1 + x2 + a2 + x3 + a3 + x4 + a4) + x5 + (a5 + x6 + a6 + x7 + a7));
    lemma_seq_at(b, a0 + x1 + a1 + x2 + a2 + x3 + a3 + x4 + a4, x5, a5 + x6 + a6 + x7 + a7);
    lemma_p_str_array(b, i4 + 5, v.q);
}

/// The timestamp field of an encoded profile parses back.
#[verifier::rlimit(100)]
proof fn lemma_share_t(v: ShareDataView)
    ensures
        ({
            let b = enc_share(v);
            let i5 = sh_i5(v);
            &&& i5 + 5 <= b.len() && b[i5 + 0] == 44 && b[i5 + 1] == 34 && b[i5 + 2] == 116
                && b[i5 + 3] == 34 && b[i5 + 4] == 58
            &&& p_jstr(b, i5 + 5) == Some((v.t, sh_i6(v)))
        }),
{
    let b = enc_share(v);
    let a0 = seq![123u8, 34, 117, 34, 58];
    let x1 = json_string(v.u);
    let a1 = seq![44u8, 34, 114, 34, 58];
    let x2 = json_string(v.r);
    let a2 = seq![44u8, 34, 115, 34, 58];
    let x3 = dec_digits(v.s as nat);
    let a3 = seq![44u8, 34, 104, 34, 58];
    let x4 = enc_str_array(v.h);
    let a4 = seq![44u8, 34, 113, 34, 58];
    let x5 = enc_str_array(v.q);
    let a5 = seq![44u8, 34, 116, 34, 58];
    let x6 = json_string(v.t);
    let a6 = seq![44u8, 34, 111, 34, 58];
    let x7 = enc_slot_array(v.o);
    let a7 = seq![125u8];
    let i5 = sh_i5(v);
    assert(b =~= (a0 + x1 + a1 + x2 + a2 + x3 + a3 + x4 + a4 + x5) + a5 + (x6 + a6 + x7 + a7));
    lemma_seq_at(b, a0 + x1 + a1 + x2 + a2 + x3 + a3 + x4 + a4 + x5, a5, x6 + a6 + x7 + a7);
    assert(b[i5 + 0] == a5[0] && b[i5 + 1] == a5[1] && b[i5 + 2] == a5[2] && b[i5 + 3] == a5[3]
        && b[i5 + 4] == a5[4]);
    assert(b =~= (a0 + x1 + a1 + x2 + a2 + x3 + a3 + x4 + a4 + x5 + a5) + x6 + (a6 + x7 + a7));
    lemma_seq_at(b, a0 + x1 + a1 + x2 + a2 + x3 + a3 + x4 + a4 + x5 + a5, x6, a6 + x7 + a7);
    lemma_p_jstr(b, i5 + 5, v.t);
}

/// The slot array and the closing brace of an encoded profile parse back.
#[verifier::rlimit(100)]
proof fn lemma_share_o(v: ShareDataView)
    ensures
        ({
            let b = enc_share(v);
            let i6 = sh_i6(v);
            let i7 = sh_i7(v);
            &&& i6 + 5 <= b.len() && b[i6 + 0] == 44 && b[i6 + 1] == 34 && b[i6 + 2] == 111
                && b[i6 + 3] == 34 && b[i6 + 4] == 58
            &&& p_slot_array(b, i6 + 5) == Some((v.o, i7))
            &&& b[i7] == 125 && i7 + 1 == b.len()
        }),
{
    let b = enc_share(v);
    let a0 = seq![123u8, 34, 117, 34, 58];
    let x1 = json_string(v.u);
    let a1 = seq![44u8, 34, 114, 34, 58];
    let x2 = json_string(v.r);
    let a2 = seq![44u8, 34, 115, 34, 58];
    let x3 = dec_digits(v.s as nat);
    let a3 = seq![44u8, 34, 104, 34, 58];
    let x4 = enc_str_array(v.h);
    let a4 = seq![44u8, 34, 113, 34, 58];
    let x5 = enc_str_array(v.q);
    let a5 = seq![44u8, 34, 116, 34, 58];
    let x6 = json_string(v.t);
    let a6 = seq![44u8, 34, 111, 34, 58];
    let x7 = enc_slot_array(v.o);
    let a7 = seq![125u8];
    let i6 = sh_i6(v);
    let i7 = sh_i7(v);
    assert(b =~= (a0 + x1 + a1 + x2 + a2 + x3 + a3 + x4 + a4 + x5 + a5 + x6) + a6 + (x7 + a7));
    lemma_seq_at(b, a0 + x1 + a1 + x2 + a2 + x3 + a3 + x4 + a4 + x5 + a5 + x6, a6, x7 + a7);
    assert(b[i6 + 0] == a6[0] && b[i6 + 1] == a6[1] && b[i6 + 2] == a6[2] && b[i6 + 3] == a6[3]
        && b[i6 + 4] == a6[4]);
    assert(b =~= (a0 + x1 + a1 + x2 + a2 + x3 + a3 + x4 + a4 + x5 + a5 + x6 + a6) + x7 + a7);
    lemma_seq_at(b, a0 + x1 + a1 + x2 + a2 + x3 + a3 + x4 + a4 + x5 + a5 + x6 + a6, x7, a7);
    lemma_p_slot_array(b, i6 + 5, v.o);
    assert(b =~= (a0 + x1 + a1 + x2 + a2 + x3 + a3 + x4 + a4 + x5 + a5 + x6 + a6 + x7) + a7
        + seq![]);
    lemma_seq_at(b, a0 + x1 + a1 + x2 + a2 + x3 + a3 + x4 + a4 + x5 + a5 + x6 + a6 + x7, a7,
        seq![]);
    assert(b[i7 + 0] == a7[0]);
}

/// Decoding a canonically encoded profile payload yields its fields back.
pub proof fn lemma_share_round_trip(v: ShareDataView)
    ensures
        p_share(enc_share(v)) == Some(v),
{
    lemma_share_u(v);
    lemma_share_r(v);
    lemma_share_s(v);
    lemma_share_h(v);
    lemma_share_q(v);
    lemma_share_t(v);
    lemma_share_o(v);
    let parsed = ShareDataView { u: v.u, r: v.r, s: v.s, h: v.h, q: v.q, t: v.t, o: v.o };
    assert(parsed =~= v);
}

/// Decoding a canonically encoded request yields its two fields back.
pub proof fn lemma_request_round_trip(from: Seq<char>, name: Seq<char>)
    ensures
        p_request(enc_request(from, name)) == Some((from, name)),
{
    let b = enc_request(from, name);
    let a = seq![123u8, 34, 102, 114, 111, 109, 34, 58];
    let c = seq![44u8, 34, 110, 97, 109, 101, 34, 58];
    let e = seq![125u8];
    let xf = json_string(from);
    let xn = json_string(name);
    assert(b =~= seq![] + a + (xf + c + xn + e));
    lemma_seq_at(b, seq![], a, xf + c + xn + e);
    let z: int = 0;
    assert(b[z + 0] == a[0] && b[z + 1] == a[1] && b[z + 2] == a[2] && b[z + 3] == a[3] && b[z + 4]
        == a[4] && b[z + 5] == a[5] && b[z + 6] == a[6] && b[z + 7] == a[7]);
    assert(b =~= a + xf + (c + xn + e));
    lemma_seq_at(b, a, xf, c + xn + e);
    lemma_p_jstr(b, 8, from);
    let i = 8 + xf.len() as int;
    assert(b =~= (a + xf) + c + (xn + e));
    lemma_seq_at(b, a + xf, c, xn + e);
    assert(b[i + 0] == c[0] && b[i + 1] == c[1] && b[i + 2] == c[2] && b[i + 3] == c[3] && b[i + 4]
        == c[4] && b[i + 5] == c[5] && b[i + 6] == c[6] && b[i + 7] == c[7]);
    assert(b =~= (a + xf + c) + xn + e);
    lemma_seq_at(b, a + xf + c, xn, e);
    lemma_p_jstr(b, i + 8, name);
    let j = i + 8 + xn.len() as int;
    assert(b =~= (a + xf + c + xn) + e + seq![]);
    lemma_seq_at(b, a + xf + c + xn, e, seq![]);
    assert(b[j + 0] == e[0]);
    assert(j + 1 == b.len());
}

/// Decoding a canonically encoded response yields its flag back.
pub proof fn lemma_response_round_trip(accepted: bool)
    ensures
        p_response(enc_response(accepted)) == Some(accepted),
{
    let b = enc_response(accepted);
    let a = seq![123u8, 34, 97, 99, 99, 101, 112, 116, 101, 100, 34, 58];
    let v = json_bool(accepted);
    let e = seq![125u8];
    assert(b =~= seq![] + a + (v + e));
    lemma_seq_at(b, seq![], a, v + e);
    let z: int = 0;
    assert(b[z + 0] == a[0] && b[z + 1] == a[1] && b[z + 2] == a[2] && b[z + 3] == a[3] && b[z + 4]
        == a[4] && b[z + 5] == a[5] && b[z + 6] == a[6] && b[z + 7] == a[7] && b[z + 8] == a[8]
        && b[z + 9] == a[9] && b[z + 10] == a[10] && b[z + 11] == a[11]);
    assert(b =~= a + v + e);
    lemma_seq_at(b, a, v, e);
    let m: int = 12;
    if accepted {
        assert(b[m + 0] == v[0] && b[m + 1] == v[1] && b[m + 2] == v[2] && b[m + 3] == v[3]);
        assert(p_bool(b, 12) == Some((true, 16int)));
    } else {
        assert(b[m + 0] == v[0] && b[m + 1] == v[1] && b[m + 2] == v[2] && b[m + 3] == v[3] && b[m
            + 4] == v[4]);
        assert(b[m] == 102 && 102 != 116);
        assert(p_bool(b, 12) == Some((false, 17int)));
    }
    let j = 12 + v.len() as int;
    assert(b =~= (a + v) + e + seq![]);
    lemma_seq_at(b, a + v, e, seq![]);
    assert(b[j + 0] == e[0]);
}


// ---------------------------------------------------------------------------
// Supporting facts about the spec parsers and encoders.
// ---------------------------------------------------------------------------

/// A successful string-content scan always moves forward and stays in
/// bounds.
pub proof fn lemma_p_content_bounds(b: Seq<u8>, i: int, acc: Seq<u8>)
    ensures
        p_content(b, i, acc) matches Some((c, j)) ==> i < j <= b.len(),
    decreases b.len() - i,
{
    if 0 <= i < b.len() {
        if b[i] == BACKSLASH {
            if i + 1 < b.len() && (b[i + 1] == QUOTE || b[i + 1] == BACKSLASH) {
                lemma_p_content_bounds(b, i + 2, acc.push(b[i + 1]));
            } else if i + 5 < b.len() && b[i + 1] == 117 && b[i + 2] == 48 && b[i + 3] == 48
                && is_hex_lower(b[i + 4]) && is_hex_lower(b[i + 5]) && hex_val(b[i + 4]) * 16
                + hex_val(b[i + 5]) < 32 {
                lemma_p_content_bounds(
                    b,
                    i + 6,
                    acc.push((hex_val(b[i + 4]) * 16 + hex_val(b[i + 5])) as u8),
                );
            }
        } else if b[i] != QUOTE && raw_content_byte(b[i]) {
            lemma_p_content_bounds(b, i + 1, acc.push(b[i]));
        }
    }
}

/// A successful string parse always moves forward and stays in bounds.
pub proof fn lemma_p_jstr_bounds(b: Seq<u8>, i: int)
    ensures
        p_jstr(b, i) matches Some((s, j)) ==> i < j <= b.len(),
{
    if 0 <= i < b.len() && b[i] == QUOTE {
        lemma_p_content_bounds(b, i + 1, seq![]);
    }
}

/// The value of a digit run is never negative.
pub proof fn lemma_digits_val_nonneg(b: Seq<u8>, i: int, j: int)
    requires
        0 <= i,
        j <= b.len(),
        forall|k: int| i <= k < j ==> is_digit(#[trigger] b[k]),
    ensures
        digits_val(b, i, j) >= 0,
    decreases j - i,
{
    if j > i {
        lemma_digits_val_nonneg(b, i, j - 1);
    }
}

/// Extending a digit run never shrinks its value.
pub proof fn lemma_digits_val_monotone(b: Seq<u8>, i: int, j: int, e: int)
    requires
        0 <= i,
        i <= j <= e,
        e <= b.len(),
        forall|k: int| i <= k < e ==> is_digit(#[trigger] b[k]),
    ensures
        digits_val(b, i, j) <= digits_val(b, i, e),
    decreases e - j,
{
    if j < e {
        lemma_digits_val_monotone(b, i, j + 1, e);
        lemma_digits_val_nonneg(b, i, j);
    }
}

/// Escaping distributes over concatenation.
pub proof fn lemma_esc_bytes_append(a: Seq<u8>, b: Seq<u8>)
    ensures
        esc_bytes(a + b) == esc_bytes(a) + esc_bytes(b),
    decreases a.len(),
{
    if a.len() == 0 {
        assert(a + b =~= b);
        assert(esc_bytes(a) + esc_bytes(b) =~= esc_bytes(b));
    } else {
        assert((a + b)[0] == a[0]);
        assert((a + b).drop_first() =~= a.drop_first() + b);
        lemma_esc_bytes_append(a.drop_first(), b);
        assert(esc_byte(a[0]) + (esc_bytes(a.drop_first()) + esc_bytes(b)) =~= (esc_byte(a[0])
            + esc_bytes(a.drop_first())) + esc_bytes(b));
    }
}

/// Escaping a single byte.
pub proof fn lemma_esc_bytes_one(x: u8)
    ensures
        esc_bytes(seq![x]) == esc_byte(x),
{
    assert(seq![x].drop_first() =~= Seq::<u8>::empty());
    assert(esc_byte(x) + esc_bytes(seq![x].drop_first()) =~= esc_byte(x));
}

// ---------------------------------------------------------------------------
// Executable encoders.
// ---------------------------------------------------------------------------

/// Exec mirror of the hex-digit table.
fn hex_digit_x(n: u8) -> (r: u8)
    requires
        n < 16,
    ensures
        r == hex_digit(n),
{
    if n < 10 {
        48 + n
    } else {
        87 + n
    }
}

/// Append a JSON string literal for `s` to `out`.
pub fn push_json_string(out: &mut Vec<u8>, s: &str)
    ensures
        final(out)@ == old(out)@ + json_string(s@),
{
    let ghost base = out@;
    out.push(QUOTE);
    let bs = s.as_bytes();
    let ghost content = bs@;
    let mut k: usize = 0;
    assert(esc_bytes(content.take(0)) =~= Seq::<u8>::empty());
    assert(out@ =~= base + seq![QUOTE] + esc_bytes(content.take(0)));
    while k < bs.len()
        invariant
            k <= bs.len(),
            bs@ == content,
            out@ == base + seq![QUOTE] + esc_bytes(content.take(k as int)),
        decreases bs.len() - k,
    {
        let c = bs[k];
        let ghost before = out@;
        if c == QUOTE {
            out.push(BACKSLASH);
            out.push(QUOTE);
            assert(out@ =~= before + esc_byte(c));
        } else if c == BACKSLASH {
            out.push(BACKSLASH);
            out.push(BACKSLASH);
            assert(out@ =~= before + esc_byte(c));
        } else if c < 32 {
            out.push(BACKSLASH);
            out.push(117);
            out.push(48);
            out.push(48);
            out.push(hex_digit_x(c / 16));
            out.push(hex_digit_x(c % 16));
            assert(out@ =~= before + esc_byte(c));
        } else {
            out.push(c);
            assert(out@ =~= before + esc_byte(c));
        }
        proof {
            lemma_esc_bytes_append(content.take(k as int), seq![content[k as int]]);
            lemma_esc_bytes_one(content[k as int]);
            assert(content.take(k + 1) =~= content.take(k as int) + seq![content[k as int]]);
            assert(out@ =~= base + seq![QUOTE] + esc_bytes(content.take(k + 1)));
        }
        k += 1;
    }
    assert(content.take(content.len() as int) =~= content);
    out.push(QUOTE);
    assert(out@ =~= base + json_string(s@));
}

/// Append the canonical decimal rendering of `n` to `out`.
pub fn push_u32(out: &mut Vec<u8>, n: u32)
    ensures
        final(out)@ == old(out)@ + dec_digits(n as nat),
    decreases n,
{
    if n < 10 {
        out.push(48 + n as u8);
        assert(out@ =~= old(out)@ + dec_digits(n as nat));
    } else {
        push_u32(out, n / 10);
        out.push(48 + (n % 10) as u8);
        assert((n / 10) as nat == (n as nat) / 10);
        assert((n % 10) as nat == (n as nat) % 10);
        assert(out@ =~= old(out)@ + dec_digits(n as nat));
    }
}

/// Encode the request message `{"from":F,"name":N}`.
pub fn encode_request(from: &str, name: &str) -> (r: Vec<u8>)
    ensures
        r@ == enc_request(from@, name@),
{
    let mut out: Vec<u8> = Vec::new();
    out.push(123);
    out.push(34);
    out.push(102);
    out.push(114);
    out.push(111);
    out.push(109);
    out.push(34);
    out.push(58);
    assert(out@ =~= seq![123u8, 34, 102, 114, 111, 109, 34, 58]);
    push_json_string(&mut out, from);
    let ghost mid = out@;
    out.push(44);
    out.push(34);
    out.push(110);
    out.push(97);
    out.push(109);
    out.push(101);
    out.push(34);
    out.push(58);
    assert(out@ =~= mid + seq![44u8, 34, 110, 97, 109, 101, 34, 58]);
    push_json_string(&mut out, name);
    out.push(125);
    assert(out@ =~= enc_request(from@, name@));
    out
}

/// Encode the response message `{"accepted":B}`.
pub fn encode_response(accepted: bool) -> (r: Vec<u8>)
    ensures
        r@ == enc_response(accepted),
{
    let mut out: Vec<u8> = Vec::new();
    out.push(123);
    out.push(34);
    out.push(97);
    out.push(99);
    out.push(99);
    out.push(101);
    out.push(112);
    out.push(116);
    out.push(101);
    out.push(100);
    out.push(34);
    out.push(58);
    assert(out@ =~= seq![123u8, 34, 97, 99, 99, 101, 112, 116, 101, 100, 34, 58]);
    let ghost mid = out@;
    if accepted {
        out.push(116);
        out.push(114);
        out.push(117);
        out.push(101);
    } else {
        out.push(102);
        out.push(97);
        out.push(108);
        out.push(115);
        out.push(101);
    }
    assert(out@ =~= mid + json_bool(accepted));
    out.push(125);
    assert(out@ =~= enc_response(accepted));
    out
}

/// Append one encoded slot object to `out`.
fn push_slot(out: &mut Vec<u8>, c: &CompactSlot)
    ensures
        final(out)@ == old(out)@ + enc_slot(c@),
{
    let ghost base = out@;
    out.push(123);
    out.push(34);
    out.push(100);
    out.push(34);
    out.push(58);
    assert(out@ =~= base + seq![123u8, 34, 100, 34, 58]);
    push_u32(out, c.d as u32);
    let ghost m1 = out@;
    out.push(44);
    out.push(34);
    out.push(115);
    out.push(34);
    out.push(58);
    assert(out@ =~= m1 + seq![44u8, 34, 115, 34, 58]);
    push_json_string(out, c.s.as_str());
    let ghost m2 = out@;
    out.push(44);
    out.push(34);
    out.push(112);
    out.push(34);
    out.push(58);
    assert(out@ =~= m2 + seq![44u8, 34, 112, 34, 58]);
    push_u32(out, c.p as u32);
    let ghost m3 = out@;
    out.push(44);
    out.push(34);
    out.push(102);
    out.push(34);
    out.push(58);
    assert(out@ =~= m3 + seq![44u8, 34, 102, 34, 58]);
    push_json_string(out, c.f.as_str());
    out.push(125);
    assert((c.d as u32) as nat == c.d as nat);
    assert((c.p as u32) as nat == c.p as nat);
    assert(out@ =~= base + enc_slot(c@));
}

/// Append an encoded string array to `out`.
fn push_str_array(out: &mut Vec<u8>, xs: &Vec<String>)
    ensures
        final(out)@ == old(out)@ + enc_str_array(xs.deep_view()),
{
    let ghost base = out@;
    let ghost vs = xs.deep_view();
    out.push(91);
    let mut k: usize = 0;
    while k < xs.len()
        invariant
            k <= xs.len(),
            xs.deep_view() == vs,
            vs.len() == xs.len(),
            base + seq![91u8] + enc_str_items(vs, 0) == out@ + enc_str_items(vs, k as int),
        decreases xs.len() - k,
    {
        let ghost before = out@;
        push_json_string(out, xs[k].as_str());
        assert(xs[k as int]@ == vs[k as int]);
        if k + 1 < xs.len() {
            out.push(44);
            assert(before + enc_str_items(vs, k as int) =~= out@ + enc_str_items(vs, k + 1));
        } else {
            assert(before + enc_str_items(vs, k as int) =~= out@ + enc_str_items(vs, k + 1));
        }
        k += 1;
    }
    assert(enc_str_items(vs, vs.len() as int) =~= Seq::<u8>::empty());
    assert(out@ =~= base + seq![91u8] + enc_str_items(vs, 0));
    out.push(93);
    assert(out@ =~= base + enc_str_array(vs));
}

/// Append an encoded slot array to `out`.
fn push_slot_array(out: &mut Vec<u8>, xs: &Vec<CompactSlot>)
    ensures
        final(out)@ == old(out)@ + enc_slot_array(xs@.map_values(|c: CompactSlot| c@)),
{
    let ghost base = out@;
    let ghost vs = xs@.map_values(|c: CompactSlot| c@);
    out.push(91);
    let mut k: usize = 0;
    while k < xs.len()
        invariant
            k <= xs.len(),
            xs@.map_values(|c: CompactSlot| c@) == vs,
            vs.len() == xs.len(),
            base + seq![91u8] + enc_slot_items(vs, 0) == out@ + enc_slot_items(vs, k as int),
        decreases xs.len() - k,
    {
        let ghost before = out@;
        push_slot(out, &xs[k]);
        assert(xs[k as int]@ == vs[k as int]);
        if k + 1 < xs.len() {
            out.push(44);
            assert(before + enc_slot_items(vs, k as int) =~= out@ + enc_slot_items(vs, k + 1));
        } else {
            assert(before + enc_slot_items(vs, k as int) =~= out@ + enc_slot_items(vs, k + 1));
        }
        k += 1;
    }
    assert(enc_slot_items(vs, vs.len() as int) =~= Seq::<u8>::empty());
    assert(out@ =~= base + seq![91u8] + enc_slot_items(vs, 0));
    out.push(93);
    assert(out@ =~= base + enc_slot_array(vs));
}

/// Encode the full profile payload.
#[verifier::rlimit(100)]
pub fn encode_share(d: &ShareData) -> (r: Vec<u8>)
    ensures
        r@ == enc_share(d@),
{
    let mut out: Vec<u8> = Vec::new();
    out.push(123);
    out.push(34);
    out.push(117);
    out.push(34);
    out.push(58);
    assert(out@ =~= seq![123u8, 34, 117, 34, 58]);
    push_json_string(&mut out, d.u.as_str());
    let ghost m1 = out@;
    out.push(44);
    out.push(34);
    out.push(114);
    out.push(34);
    out.push(58);
    assert(out@ =~= m1 + seq![44u8, 34, 114, 34, 58]);
    push_json_string(&mut out, d.r.as_str());
    let ghost m2 = out@;
    out.push(44);
    out.push(34);
    out.push(115);
    out.push(34);
    out.push(58);
    assert(out@ =~= m2 + seq![44u8, 34, 115, 34, 58]);
    push_u32(&mut out, d.s);
    let ghost m3 = out@;
    out.push(44);
    out.push(34);
    out.push(104);
    out.push(34);
    out.push(58);
    assert(out@ =~= m3 + seq![44u8, 34, 104, 34, 58]);
    push_str_array(&mut out, &d.h);
    let ghost m4 = out@;
    out.push(44);
    out.push(34);
    out.push(113);
    out.push(34);
    out.push(58);
    assert(out@ =~= m4 + seq![44u8, 34, 113, 34, 58]);
    push_str_array(&mut out, &d.q);
    let ghost m5 = out@;
    out.push(44);
    out.push(34);
    out.push(116);
    out.push(34);
    out.push(58);
    assert(out@ =~= m5 + seq![44u8, 34, 116, 34, 58]);
    push_json_string(&mut out, d.t.as_str());
    let ghost m6 = out@;
    out.push(44);
    out.push(34);
    out.push(111);
    out.push(34);
    out.push(58);
    assert(out@ =~= m6 + seq![44u8, 34, 111, 34, 58]);
    push_slot_array(&mut out, &d.o);
    out.push(125);
    assert(out@ =~= enc_share(d@));
    out
}


// ---------------------------------------------------------------------------
// Executable decoders. Each mirrors its spec parser; inputs are bounded
// as the protocol bounds its reads.
// ---------------------------------------------------------------------------

/// The largest payload the protocol ever reads (the profile bound).
pub const MAX_WIRE: usize = 102400;

/// Relies on `String::from_utf8`: it succeeds exactly on valid UTF-8 and
/// preserves the bytes, so the text is the decoding of the input.
#[verifier::external_body]
fn bytes_to_string(b: Vec<u8>) -> (r: Option<String>)
    ensures
        r is Some <==> valid_utf8(b@),
        r matches Some(s) ==> s@ == decode_utf8(b@),
{
    match String::from_utf8(b) {
        Ok(s) => Some(s),
        Err(_) => None,
    }
}

/// Exec mirror of [`is_hex_lower`].
fn hex_ok(c: u8) -> (r: bool)
    ensures
        r == is_hex_lower(c),
{
    (48 <= c && c <= 57) || (97 <= c && c <= 102)
}

/// Exec mirror of [`hex_val`].
fn hex_val_x(c: u8) -> (r: u8)
    requires
        is_hex_lower(c),
    ensures
        r == hex_val(c),
        r < 16,
{
    if c <= 57 {
        c - 48
    } else {
        c - 87
    }
}

/// Scan string content from `start` up to the closing quote, undoing
/// escapes.
fn scan_content(b: &[u8], start: usize) -> (r: Option<(Vec<u8>, usize)>)
    requires
        b@.len() <= MAX_WIRE,
        start <= b@.len(),
    ensures
        match r {
            Some((c, j)) => p_content(b@, start as int, Seq::empty()) == Some((c@, j as int))
                && j <= b@.len(),
            None => p_content(b@, start as int, Seq::empty()) is None,
        },
{
    let mut i: usize = start;
    let mut acc: Vec<u8> = Vec::new();
    assert(acc@ =~= Seq::<u8>::empty());
    loop
        invariant
            start <= i <= b@.len() <= MAX_WIRE,
            p_content(b@, start as int, Seq::empty()) == p_content(b@, i as int, acc@),
        decreases b@.len() - i,
    {
        if i >= b.len() {
            return None;
        }
        let c = b[i];
        if c == QUOTE {
            return Some((acc, i + 1));
        } else if c == BACKSLASH {
            if i + 1 < b.len() && (b[i + 1] == QUOTE || b[i + 1] == BACKSLASH) {
                let d = b[i + 1];
                acc.push(d);
                i = i + 2;
            } else if i + 5 < b.len() && b[i + 1] == 117 && b[i + 2] == 48 && b[i + 3] == 48
                && hex_ok(b[i + 4]) && hex_ok(b[i + 5]) && hex_val_x(b[i + 4]) * 16 + hex_val_x(
                b[i + 5],
            ) < 32 {
                let v = hex_val_x(b[i + 4]) * 16 + hex_val_x(b[i + 5]);
                acc.push(v);
                i = i + 6;
            } else {
                return None;
            }
        } else if c >= 32 {
            acc.push(c);
            i = i + 1;
        } else {
            return None;
        }
    }
}

/// Parse a JSON string literal at `i`.
fn parse_jstr_at(b: &[u8], i: usize) -> (r: Option<(String, usize)>)
    requires
        b@.len() <= MAX_WIRE,
        i <= b@.len(),
    ensures
        r is Some <==> p_jstr(b@, i as int) is Some,
        r matches Some((s, j)) ==> p_jstr(b@, i as int) == Some((s@, j as int)) && i < j
            <= b@.len(),
{
    proof {
        lemma_p_jstr_bounds(b@, i as int);
    }
    if i < b.len() && b[i] == QUOTE {
        match scan_content(b, i + 1) {
            Some((bytes, j)) => {
                match bytes_to_string(bytes) {
                    Some(s) => Some((s, j)),
                    None => None,
                }
            },
            None => None,
        }
    } else {
        None
    }
}

/// Parse a canonical `u32` at `i`.
fn parse_u32_at(b: &[u8], i: usize) -> (r: Option<(u32, usize)>)
    requires
        b@.len() <= MAX_WIRE,
        i <= b@.len(),
    ensures
        r is Some <==> p_u32(b@, i as int) is Some,
        r matches Some((v, j)) ==> p_u32(b@, i as int) == Some((v, j as int)) && i < j
            <= b@.len(),
{
    let mut e: usize = i;
    while e < b.len() && 48 <= b[e] && b[e] <= 57
        invariant
            i <= e <= b@.len() <= MAX_WIRE,
            forall|k: int| i <= k < e ==> is_digit(#[trigger] b@[k]),
            digits_end(b@, i as int) == digits_end(b@, e as int),
        decreases b@.len() - e,
    {
        e = e + 1;
    }
    assert(digits_end(b@, i as int) == e as int);
    if e == i {
        return None;
    }
    if b[i] == 48 && e > i + 1 {
        return None;
    }
    let mut val: u64 = 0;
    let mut k: usize = i;
    while k < e
        invariant
            i < e,
            i <= k <= e <= b@.len(),
            digits_end(b@, i as int) == e as int,
            !(b@[i as int] == 48 && e > i + 1),
            forall|t: int| i <= t < e ==> is_digit(#[trigger] b@[t]),
            val == digits_val(b@, i as int, k as int),
            val <= u32::MAX,
        decreases e - k,
    {
        let d = b[k] - 48;
        let nv = val * 10 + d as u64;
        assert(nv == digits_val(b@, i as int, k + 1));
        if nv > 0xFFFF_FFFFu64 {
            proof {
                lemma_digits_val_monotone(b@, i as int, k + 1, e as int);
            }
            return None;
        }
        val = nv;
        k = k + 1;
    }
    assert(val == digits_val(b@, i as int, e as int));
    Some((val as u32, e))
}

/// Decode the request message; the whole input must be consumed.
pub fn decode_request(b: &[u8]) -> (r: Option<(String, String)>)
    requires
        b@.len() <= MAX_WIRE,
    ensures
        r is Some <==> p_request(b@) is Some,
        r matches Some((f, n)) ==> p_request(b@) == Some((f@, n@)),
{
    if !(b.len() >= 8 && b[0] == 123 && b[1] == 34 && b[2] == 102 && b[3] == 114 && b[4] == 111
        && b[5] == 109 && b[6] == 34 && b[7] == 58) {
        return None;
    }
    let (from, i) = match parse_jstr_at(b, 8) {
        Some(x) => x,
        None => {
            return None;
        },
    };
    if !(i + 8 <= b.len() && b[i] == 44 && b[i + 1] == 34 && b[i + 2] == 110 && b[i + 3] == 97
        && b[i + 4] == 109 && b[i + 5] == 101 && b[i + 6] == 34 && b[i + 7] == 58) {
        return None;
    }
    let (name, j) = match parse_jstr_at(b, i + 8) {
        Some(x) => x,
        None => {
            return None;
        },
    };
    if j + 1 == b.len() && b[j] == 125 {
        Some((from, name))
    } else {
        None
    }
}

/// Decode the response message; the whole input must be consumed.
pub fn decode_response(b: &[u8]) -> (r: Option<bool>)
    requires
        b@.len() <= MAX_WIRE,
    ensures
        r == p_response(b@),
{
    if !(b.len() >= 12 && b[0] == 123 && b[1] == 34 && b[2] == 97 && b[3] == 99 && b[4] == 99
        && b[5] == 101 && b[6] == 112 && b[7] == 116 && b[8] == 101 && b[9] == 100 && b[10] == 34
        && b[11] == 58) {
        return None;
    }
    let (v, j): (bool, usize) = if 12 + 4 <= b.len() && b[12] == 116 && b[13] == 114 && b[14]
        == 117 && b[15] == 101 {
        (true, 16)
    } else if 12 + 5 <= b.len() && b[12] == 102 && b[13] == 97 && b[14] == 108 && b[15] == 115
        && b[16] == 101 {
        (false, 17)
    } else {
        return None;
    };
    if j + 1 == b.len() && b[j] == 125 {
        Some(v)
    } else {
        None
    }
}

/// Parse one slot object at `i`.
fn parse_slot_at(b: &[u8], i: usize) -> (r: Option<(CompactSlot, usize)>)
    requires
        b@.len() <= MAX_WIRE,
        i <= b@.len(),
    ensures
        r is Some <==> p_slot(b@, i as int) is Some,
        r matches Some((c, j)) ==> p_slot(b@, i as int) == Some((c@, j as int)) && i < j
            <= b@.len(),
{
    if !(i + 5 <= b.len() && b[i] == 123 && b[i + 1] == 34 && b[i + 2] == 100 && b[i + 3] == 34
        && b[i + 4] == 58) {
        return None;
    }
    let (d, j1) = match parse_u32_at(b, i + 5) {
        Some(x) => x,
        None => {
            return None;
        },
    };
    if !(d <= 255 && j1 + 5 <= b.len() && b[j1] == 44 && b[j1 + 1] == 34 && b[j1 + 2] == 115
        && b[j1 + 3] == 34 && b[j1 + 4] == 58) {
        return None;
    }
    let (sv, j2) = match parse_jstr_at(b, j1 + 5) {
        Some(x) => x,
        None => {
            return None;
        },
    };
    if !(j2 + 5 <= b.len() && b[j2] == 44 && b[j2 + 1] == 34 && b[j2 + 2] == 112 && b[j2 + 3]
        == 34 && b[j2 + 4] == 58) {
        return None;
    }
    let (p, j3) = match parse_u32_at(b, j2 + 5) {
        Some(x) => x,
        None => {
            return None;
        },
    };
    if !(p <= 255 && j3 + 5 <= b.len() && b[j3] == 44 && b[j3 + 1] == 34 && b[j3 + 2] == 102
        && b[j3 + 3] == 34 && b[j3 + 4] == 58) {
        return None;
    }
    let (f, j4) = match parse_jstr_at(b, j3 + 5) {
        Some(x) => x,
        None => {
            return None;
        },
    };
    if j4 < b.len() && b[j4] == 125 {
        let c = CompactSlot { d: d as u8, s: sv, p: p as u8, f };
        assert(c@ =~= (match p_slot(b@, i as int) {
            Some((v, _)) => v,
            None => c@,
        }));
        Some((c, j4 + 1))
    } else {
        None
    }
}

/// Parse the elements of a non-empty string array, then the bracket.
fn parse_str_items(b: &[u8], start: usize) -> (r: Option<(Vec<String>, usize)>)
    requires
        b@.len() <= MAX_WIRE,
        start <= b@.len(),
    ensures
        r is Some <==> p_str_items(b@, start as int, Seq::empty()) is Some,
        r matches Some((xs, j)) ==> p_str_items(b@, start as int, Seq::empty()) == Some(
            (xs.deep_view(), j as int),
        ) && j <= b@.len(),
{
    let mut acc: Vec<String> = Vec::new();
    let mut i: usize = start;
    assert(acc.deep_view() =~= Seq::<Seq<char>>::empty());
    loop
        invariant
            start <= i <= b@.len() <= MAX_WIRE,
            p_str_items(b@, start as int, Seq::empty()) == p_str_items(
                b@,
                i as int,
                acc.deep_view(),
            ),
        decreases b@.len() - i,
    {
        let ghost prev = acc.deep_view();
        let (sv, j) = match parse_jstr_at(b, i) {
            Some(x) => x,
            None => {
                return None;
            },
        };
        if j < b.len() && b[j] == 44 {
            acc.push(sv);
            assert(acc.deep_view() =~= prev.push(sv@));
            i = j + 1;
        } else if j < b.len() && b[j] == 93 {
            acc.push(sv);
            assert(acc.deep_view() =~= prev.push(sv@));
            return Some((acc, j + 1));
        } else {
            return None;
        }
    }
}

/// Parse a string array at `i`.
fn parse_str_array(b: &[u8], i: usize) -> (r: Option<(Vec<String>, usize)>)
    requires
        b@.len() <= MAX_WIRE,
        i <= b@.len(),
    ensures
        r is Some <==> p_str_array(b@, i as int) is Some,
        r matches Some((xs, j)) ==> p_str_array(b@, i as int) == Some(
            (xs.deep_view(), j as int),
        ) && j <= b@.len(),
{
    if !(i < b.len() && b[i] == 91) {
        return None;
    }
    if i + 1 < b.len() && b[i + 1] == 93 {
        let empty: Vec<String> = Vec::new();
        assert(empty.deep_view() =~= Seq::<Seq<char>>::empty());
        return Some((empty, i + 2));
    }
    parse_str_items(b, i + 1)
}

/// Parse the elements of a non-empty slot array, then the bracket.
fn parse_slot_items(b: &[u8], start: usize) -> (r: Option<(Vec<CompactSlot>, usize)>)
    requires
        b@.len() <= MAX_WIRE,
        start <= b@.len(),
    ensures
        r is Some <==> p_slot_items(b@, start as int, Seq::empty()) is Some,
        r matches Some((xs, j)) ==> p_slot_items(b@, start as int, Seq::empty()) == Some(
            (xs@.map_values(|c: CompactSlot| c@), j as int),
        ) && j <= b@.len(),
{
    let mut acc: Vec<CompactSlot> = Vec::new();
    let mut i: usize = start;
    assert(acc@.map_values(|c: CompactSlot| c@) =~= Seq::<SlotView>::empty());
    loop
        invariant
            start <= i <= b@.len() <= MAX_WIRE,
            p_slot_items(b@, start as int, Seq::empty()) == p_slot_items(
                b@,
                i as int,
                acc@.map_values(|c: CompactSlot| c@),
            ),
        decreases b@.len() - i,
    {
        let ghost prev = acc@.map_values(|c: CompactSlot| c@);
        let (sv, j) = match parse_slot_at(b, i) {
            Some(x) => x,
            None => {
                return None;
            },
        };
        if j < b.len() && b[j] == 44 {
            acc.push(sv);
            assert(acc@.map_values(|c: CompactSlot| c@) =~= prev.push(sv@));
            i = j + 1;
        } else if j < b.len() && b[j] == 93 {
            acc.push(sv);
            assert(acc@.map_values(|c: CompactSlot| c@) =~= prev.push(sv@));
            return Some((acc, j + 1));
        } else {
            return None;
        }
    }
}

/// Parse a slot array at `i`.
fn parse_slot_array(b: &[u8], i: usize) -> (r: Option<(Vec<CompactSlot>, usize)>)
    requires
        b@.len() <= MAX_WIRE,
        i <= b@.len(),
    ensures
        r is Some <==> p_slot_array(b@, i as int) is Some,
        r matches Some((xs, j)) ==> p_slot_array(b@, i as int) == Some(
            (xs@.map_values(|c: CompactSlot| c@), j as int),
        ) && j <= b@.len(),
{
    if !(i < b.len() && b[i] == 91) {
        return None;
    }
    if i + 1 < b.len() && b[i + 1] == 93 {
        let empty: Vec<CompactSlot> = Vec::new();
        assert(empty@.map_values(|c: CompactSlot| c@) =~= Seq::<SlotView>::empty());
        return Some((empty, i + 2));
    }
    parse_slot_items(b, i + 1)
}

/// Decode the full profile payload; the whole input must be consumed.
pub fn decode_share(b: &[u8]) -> (r: Option<ShareData>)
    requires
        b@.len() <= MAX_WIRE,
    ensures
        r is Some <==> p_share(b@) is Some,
        r matches Some(d) ==> p_share(b@) == Some(d@),
{
    if !(b.len() >= 5 && b[0] == 123 && b[1] == 34 && b[2] == 117 && b[3] == 34 && b[4] == 58) {
        return None;
    }
    let (u, i1) = match parse_jstr_at(b, 5) {
        Some(x) => x,
        None => {
            return None;
        },
    };
    if !(i1 + 5 <= b.len() && b[i1] == 44 && b[i1 + 1] == 34 && b[i1 + 2] == 114 && b[i1 + 3]
        == 34 && b[i1 + 4] == 58) {
        return None;
    }
    let (rg, i2) = match parse_jstr_at(b, i1 + 5) {
        Some(x) => x,
        None => {
            return None;
        },
    };
    if !(i2 + 5 <= b.len() && b[i2] == 44 && b[i2 + 1] == 34 && b[i2 + 2] == 115 && b[i2 + 3]
        == 34 && b[i2 + 4] == 58) {
        return None;
    }
    let (sm, i3) = match parse_u32_at(b, i2 + 5) {
        Some(x) => x,
        None => {
            return None;
        },
    };
    if !(i3 + 5 <= b.len() && b[i3] == 44 && b[i3 + 1] == 34 && b[i3 + 2] == 104 && b[i3 + 3]
        == 34 && b[i3 + 4] == 58) {
        return None;
    }
    let (h, i4) = match parse_str_array(b, i3 + 5) {
        Some(x) => x,
        None => {
            return None;
        },
    };
    if !(i4 + 5 <= b.len() && b[i4] == 44 && b[i4 + 1] == 34 && b[i4 + 2] == 113 && b[i4 + 3]
        == 34 && b[i4 + 4] == 58) {
        return None;
    }
    let (q, i5) = match parse_str_array(b, i4 + 5) {
        Some(x) => x,
        None => {
            return None;
        },
    };
    if !(i5 + 5 <= b.len() && b[i5] == 44 && b[i5 + 1] == 34 && b[i5 + 2] == 116 && b[i5 + 3]
        == 34 && b[i5 + 4] == 58) {
        return None;
    }
    let (t, i6) = match parse_jstr_at(b, i5 + 5) {
        Some(x) => x,
        None => {
            return None;
        },
    };
    if !(i6 + 5 <= b.len() && b[i6] == 44 && b[i6 + 1] == 34 && b[i6 + 2] == 111 && b[i6 + 3]
        == 34 && b[i6 + 4] == 58) {
        return None;
    }
    let (o, i7) = match parse_slot_array(b, i6 + 5) {
        Some(x) => x,
        None => {
            return None;
        },
    };
    if i7 + 1 == b.len() && b[i7] == 125 {
        let d = ShareData { u, r: rg, s: sm, h, q, t, o };
        assert(d@ =~= (match p_share(b@) {
            Some(v) => v,
            None => d@,
        }));
        Some(d)
    } else {
        None
    }
}

} // verus!



