//! Lowercase hexadecimal encoding and decoding.
use vstd::prelude::*;
use vstd::string::*;

verus! {

/// The lowercase hex digit for a value below 16.
pub open spec fn hex_char(v: int) -> char {
    if v < 10 {
        (48 + v) as char
    } else {
        (87 + v) as char
    }
}

/// The two hex digits of one byte.
pub open spec fn hex_pair(b: u8) -> Seq<char> {
    seq![hex_char((b / 16) as int), hex_char((b % 16) as int)]
}

/// Lowercase hex text of a byte sequence, two digits per byte.
pub open spec fn hex_of(bs: Seq<u8>) -> Seq<char>
    decreases bs.len(),
{
    if bs.len() == 0 {
        Seq::empty()
    } else {
        hex_of(bs.drop_last()) + hex_pair(bs.last())
    }
}

pub proof fn lemma_hex_of_len(bs: Seq<u8>)
    ensures
        hex_of(bs).len() == 2 * bs.len(),
    decreases bs.len(),
{
    if bs.len() > 0 {
        lemma_hex_of_len(bs.drop_last());
    }
}

/// The digits of byte `i` sit at positions `2i` and `2i + 1`.
pub proof fn lemma_hex_of_index(bs: Seq<u8>, i: int)
    requires
        0 <= i < bs.len(),
    ensures
        hex_of(bs).len() == 2 * bs.len(),
        hex_of(bs)[2 * i] == hex_char((bs[i] / 16) as int),
        hex_of(bs)[2 * i + 1] == hex_char((bs[i] % 16) as int),
    decreases bs.len(),
{
    lemma_hex_of_len(bs);
    lemma_hex_of_len(bs.drop_last());
    if i < bs.len() - 1 {
        lemma_hex_of_index(bs.drop_last(), i);
    }
}

/// Hex text is ASCII.
/// Whether text is lowercase hex digits only.
pub open spec fn is_lower_hex(s: Seq<char>) -> bool {
    forall|k: int| 0 <= k < s.len() ==> ('0' <= #[trigger] s[k] <= '9') || ('a' <= s[k] <= 'f')
}

/// Hex text is lowercase hex digits, two per byte.
pub proof fn lemma_hex_of_lower(bs: Seq<u8>)
    ensures
        hex_of(bs).len() == 2 * bs.len(),
        is_lower_hex(hex_of(bs)),
{
    lemma_hex_of_len(bs);
    assert forall|k: int| 0 <= k < hex_of(bs).len() implies ('0' <= #[trigger] hex_of(bs)[k] <= '9') || (
    'a' <= hex_of(bs)[k] <= 'f') by {
        let i = k / 2;
        lemma_hex_of_index(bs, i);
        assert(k == 2 * i || k == 2 * i + 1);
    }
}

pub proof fn lemma_hex_of_ascii(bs: Seq<u8>)
    ensures
        vstd::utf8::is_ascii_chars(hex_of(bs)),
{
    lemma_hex_of_len(bs);
    assert forall|k: int| 0 <= k < hex_of(bs).len() implies '\0' <= #[trigger] hex_of(bs)[k] <= '\u{7f}' by {
        let i = k / 2;
        lemma_hex_of_index(bs, i);
    }
}

/// Reading back a hex digit gives its value.
pub proof fn lemma_hex_value_of_char(v: int)
    requires
        0 <= v < 16,
    ensures
        hex_value(hex_char(v) as u8) == Some(v as u8),
{
}

/// Decoding the hex text of any bytes gives the bytes back: the text is
/// ASCII of even length, and its pair `i` reads as byte `i`.  With the
/// contracts of `hex_encode` and `hex_decode`, decoding an encoding is the
/// identity.
pub proof fn law_hex_roundtrip(bs: Seq<u8>)
    ensures
        hex_pairs_ok(hex_of(bs)),
        hex_of(bs).len() / 2 == bs.len(),
        forall|i: int|
            0 <= i < bs.len() ==> #[trigger] hex_byte_value(hex_of(bs)[2 * i] as u8, hex_of(bs)[2 * i + 1] as u8)
                == Some(bs[i]),
{
    let h = hex_of(bs);
    lemma_hex_of_len(bs);
    lemma_hex_of_ascii(bs);
    assert forall|i: int| 0 <= i < bs.len() implies #[trigger] hex_byte_value(h[2 * i] as u8, h[2 * i + 1] as u8)
        == Some(bs[i]) by {
        lemma_hex_of_index(bs, i);
        lemma_hex_value_of_char((bs[i] / 16) as int);
        lemma_hex_value_of_char((bs[i] % 16) as int);
        assert((bs[i] / 16) * 16 + bs[i] % 16 == bs[i]);
    }
    assert forall|k: int| 0 <= k < h.len() implies (#[trigger] h[k] as u32) < 128 by {
        assert('\0' <= h[k] <= '\u{7f}');
    }
    assert forall|i: int| 0 <= i < h.len() / 2 implies #[trigger] hex_byte_value(h[2 * i] as u8, h[2 * i + 1] as u8) is Some by {
        assert(hex_byte_value(h[2 * i] as u8, h[2 * i + 1] as u8) == Some(bs[i]));
    }
}

fn hex_char_exec(v: u8) -> (c: char)
    requires
        v < 16,
    ensures
        c == hex_char(v as int),
{
    if v < 10 {
        (48u8 + v) as char
    } else {
        (87u8 + v) as char
    }
}

/// Encodes bytes as lowercase hexadecimal text.
pub fn bytes_to_hex(bytes: &[u8]) -> (out: String)
    ensures
        out@ == hex_of(bytes@),
{
    let mut out = String::new();
    let mut i: usize = 0;
    while i < bytes.len()
        invariant
            i <= bytes@.len(),
            out@ == hex_of(bytes@.take(i as int)),
        decreases bytes@.len() - i,
    {
        let b = bytes[i];
        crate::text::push_char(&mut out, hex_char_exec(b / 16));
        crate::text::push_char(&mut out, hex_char_exec(b % 16));
        proof {
            let t = bytes@.take(i as int + 1);
            assert(t.drop_last() =~= bytes@.take(i as int));
            assert(hex_of(t) =~= hex_of(bytes@.take(i as int)) + hex_pair(b));
        }
        i = i + 1;
    }
    proof {
        assert(bytes@.take(bytes@.len() as int) =~= bytes@);
    }
    out
}

/// Value of an ASCII hex digit (either case), if it is one.
pub open spec fn hex_value(c: u8) -> Option<u8> {
    if 48 <= c <= 57 {
        Some((c - 48) as u8)
    } else if 97 <= c <= 102 {
        Some((c - 87) as u8)
    } else if 65 <= c <= 70 {
        Some((c - 55) as u8)
    } else {
        None
    }
}

pub fn hex_value_exec(c: u8) -> (r: Option<u8>)
    ensures
        r == hex_value(c),
{
    if 48 <= c && c <= 57 {
        Some(c - 48)
    } else if 97 <= c && c <= 102 {
        Some(c - 87)
    } else if 65 <= c && c <= 70 {
        Some(c - 55)
    } else {
        None
    }
}

/// Value of a two-byte field read as a base-16 integer the way the standard
/// integer parser reads it: two hex digits, or a `+` sign followed by one.
pub open spec fn hex_byte_value(a: u8, b: u8) -> Option<u8> {
    match (hex_value(a), hex_value(b)) {
        (Some(x), Some(y)) => Some((x * 16 + y) as u8),
        (None, Some(y)) => if a == 0x2b {
            Some(y)
        } else {
            None
        },
        _ => None,
    }
}

pub fn hex_byte_value_exec(a: u8, b: u8) -> (r: Option<u8>)
    ensures
        r == hex_byte_value(a, b),
{
    match (hex_value_exec(a), hex_value_exec(b)) {
        (Some(x), Some(y)) => Some(x * 16 + y),
        (None, Some(y)) => if a == 0x2b {
            Some(y)
        } else {
            None
        },
        _ => None,
    }
}

/// Whether ASCII text of even length reads, pair by pair, as base-16 bytes
/// (see [`hex_byte_value`]).
pub open spec fn hex_pairs_ok(s: Seq<char>) -> bool {
    &&& s.len() % 2 == 0
    &&& forall|i: int| 0 <= i < s.len() ==> (#[trigger] s[i] as u32) < 128
    &&& forall|i: int|
        0 <= i < s.len() / 2 ==> #[trigger] hex_byte_value(s[2 * i] as u8, s[2 * i + 1] as u8) is Some
}

/// Decodes text into bytes, reading each pair of characters as a base-16
/// number.
pub fn hex_decode(hex_str: &str) -> (out: Vec<u8>)
    requires
        hex_pairs_ok(hex_str@),
    ensures
        out@.len() == hex_str@.len() / 2,
        forall|i: int|
            0 <= i < out@.len() ==> Some(#[trigger] out@[i]) == hex_byte_value(
                hex_str@[2 * i] as u8,
                hex_str@[2 * i + 1] as u8,
            ),
{
    let cs = crate::text::chars_of(hex_str);
    let mut out: Vec<u8> = Vec::new();
    let mut i: usize = 0;
    while i + 1 < cs.len()
        invariant
            cs@ == hex_str@,
            hex_pairs_ok(cs@),
            i % 2 == 0,
            i <= cs@.len(),
            out@.len() == i / 2,
            forall|k: int|
                0 <= k < out@.len() ==> Some(#[trigger] out@[k]) == hex_byte_value(
                    cs@[2 * k] as u8,
                    cs@[2 * k + 1] as u8,
                ),
        decreases cs@.len() - i,
    {
        assert((cs@[i as int] as u32) < 128 && (cs@[i as int + 1] as u32) < 128);
        assert(hex_byte_value(cs@[2 * (i / 2) as int] as u8, cs@[2 * (i / 2) as int + 1] as u8) is Some);
        let a = cs[i] as u8;
        let b = cs[i + 1] as u8;
        let v = hex_byte_value_exec(a, b);
        out.push(v.unwrap());
        i = i + 2;
    }
    out
}

/// Encodes bytes as lowercase hexadecimal text (the same as [`bytes_to_hex`]).
pub fn encode(bytes: &[u8]) -> (out: String)
    ensures
        out@ == hex_of(bytes@),
{
    bytes_to_hex(bytes)
}

/// Encodes bytes as lowercase hexadecimal text (the same as [`bytes_to_hex`]).
pub fn hex_encode(bytes: &[u8]) -> (out: String)
    ensures
        out@ == hex_of(bytes@),
{
    bytes_to_hex(bytes)
}

} // verus!
