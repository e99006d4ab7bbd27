//! Byte-level encodings of the wire format: little-endian integers and
//! UTF-16 text, as mathematical functions and as the code that computes them.

use byteorder::{ByteOrder, LittleEndian};
use vstd::prelude::*;

verus! {

/// The two bytes of a 16-bit value, least significant first.
pub open spec fn u16_le_bytes(v: u16) -> Seq<u8> {
    seq![(v % 256) as u8, (v / 256) as u8]
}

/// The four bytes of a 32-bit two's complement value, least significant first.
pub open spec fn i32_le_bytes(v: i32) -> Seq<u8> {
    let u: int = if v >= 0 {
        v as int
    } else {
        v + 0x1_0000_0000
    };
    seq![
        (u % 256) as u8,
        ((u / 0x100) % 256) as u8,
        ((u / 0x1_0000) % 256) as u8,
        (u / 0x100_0000) as u8,
    ]
}

/// The 32-bit two's complement value whose little-endian bytes are the first
/// four of `b`.
pub open spec fn i32_from_le_bytes(b: Seq<u8>) -> i32
    recommends
        b.len() >= 4,
{
    let u: int = b[0] + 0x100 * b[1] + 0x1_0000 * b[2] + 0x100_0000 * b[3];
    if u < 0x8000_0000 {
        u as i32
    } else {
        (u - 0x1_0000_0000) as i32
    }
}

/// Reading back the bytes of a value gives the value.
pub proof fn lemma_i32_le_round_trip(v: i32)
    ensures
        i32_le_bytes(v).len() == 4,
        i32_from_le_bytes(i32_le_bytes(v)) == v,
{
}

/// `byteorder::LittleEndian::write_u16` on a buffer of two bytes: the buffer
/// then holds the value's low byte followed by its high byte.
#[verifier::external_body]
pub(crate) fn u16_to_le(n: u16) -> (b: [u8; 2])
    ensures
        b@ == u16_le_bytes(n),
{
    let mut b = [0u8; 2];
    LittleEndian::write_u16(&mut b, n);
    b
}

/// `byteorder::LittleEndian::write_i32` on a buffer of four bytes: the buffer
/// then holds the value's two's complement bytes, least significant first.
#[verifier::external_body]
pub(crate) fn i32_to_le(n: i32) -> (b: [u8; 4])
    ensures
        b@ == i32_le_bytes(n),
{
    let mut b = [0u8; 4];
    LittleEndian::write_i32(&mut b, n);
    b
}

/// `byteorder::LittleEndian::read_i32`: the value whose two's complement
/// bytes, least significant first, are the first four bytes of the slice.
/// It panics on a shorter slice.
#[verifier::external_body]
pub(crate) fn i32_from_le(b: &[u8]) -> (n: i32)
    requires
        b@.len() >= 4,
    ensures
        n == i32_from_le_bytes(b@),
{
    LittleEndian::read_i32(b)
}

/// The UTF-16 encoding of one character, each code unit as two bytes, low
/// byte first: one unit for a character below U+10000, a surrogate pair above.
pub open spec fn char_utf16_le(c: char) -> Seq<u8> {
    let v = c as u32;
    if v < 0x1_0000 {
        u16_le_bytes(v as u16)
    } else {
        u16_le_bytes((0xD800 + (v - 0x1_0000) / 0x400) as u16) + u16_le_bytes(
            (0xDC00 + (v - 0x1_0000) % 0x400) as u16,
        )
    }
}

/// The UTF-16 encoding of a text, each code unit as two bytes, low byte
/// first.
pub open spec fn utf16_le(s: Seq<char>) -> Seq<u8>
    decreases s.len(),
{
    if s.len() == 0 {
        Seq::empty()
    } else {
        utf16_le(s.drop_last()) + char_utf16_le(s.last())
    }
}

/// The number of UTF-16 code units of a text.
pub open spec fn utf16_units(s: Seq<char>) -> nat
    decreases s.len(),
{
    if s.len() == 0 {
        0
    } else {
        utf16_units(s.drop_last()) + if (s.last() as u32) < 0x1_0000 {
            1nat
        } else {
            2nat
        }
    }
}

/// The encoding of a text has two bytes for each of its code units.
pub proof fn lemma_utf16_le_len(s: Seq<char>)
    ensures
        utf16_le(s).len() == 2 * utf16_units(s),
        s.len() <= utf16_units(s) <= 2 * s.len(),
    decreases s.len(),
{
    if s.len() > 0 {
        lemma_utf16_le_len(s.drop_last());
    }
}

/// A text of characters below U+10000 has one code unit for each character.
pub proof fn lemma_utf16_units_bmp(s: Seq<char>)
    requires
        forall|i: int| 0 <= i < s.len() ==> (#[trigger] s[i] as u32) < 0x1_0000,
    ensures
        utf16_units(s) == s.len(),
    decreases s.len(),
{
    if s.len() > 0 {
        lemma_utf16_units_bmp(s.drop_last());
    }
}

/// The encoding of the first `k` characters of a text is the start of the
/// encoding of the text.
pub proof fn lemma_utf16_le_prefix(s: Seq<char>, k: int)
    requires
        0 <= k <= s.len(),
    ensures
        utf16_le(s.take(k)).len() <= utf16_le(s).len(),
        utf16_le(s.take(k)) == utf16_le(s).take(utf16_le(s.take(k)).len() as int),
    decreases s.len() - k,
{
    if k == s.len() {
        assert(s.take(k) =~= s);
    } else {
        lemma_utf16_le_prefix(s, k + 1);
        assert(s.take(k + 1).drop_last() =~= s.take(k));
        let longer = utf16_le(s.take(k + 1));
        let shorter = utf16_le(s.take(k));
        assert(longer == shorter + char_utf16_le(s[k]));
        assert(shorter =~= utf16_le(s).take(shorter.len() as int));
    }
}

/// The shape of a character's encoding: one code unit outside the range of
/// the surrogates, which is the character's number, or a high and a low
/// surrogate, which together hold that number less 0x10000.
pub proof fn lemma_char_utf16_le(c: char)
    ensures
        ({
            let e = char_utf16_le(c);
            let v = c as u32;
            if v < 0x1_0000 {
                &&& e.len() == 2
                &&& e[0] + 0x100 * e[1] == v
                &&& !(0xD800 <= v <= 0xDFFF)
            } else {
                &&& e.len() == 4
                &&& 0xD800 <= e[0] + 0x100 * e[1] <= 0xDBFF
                &&& 0xDC00 <= e[2] + 0x100 * e[3] <= 0xDFFF
                &&& v == 0x1_0000 + (e[0] + 0x100 * e[1] - 0xD800) * 0x400 + (e[2] + 0x100 * e[3]
                    - 0xDC00)
            }
        }),
{
}

/// Two characters with the same number are the same character.
proof fn lemma_char_by_number(c: char, d: char)
    requires
        c as u32 == d as u32,
    ensures
        c == d,
{
}

/// Two texts with the same encoding are the same text: the encoding tells
/// what was encoded.
pub proof fn lemma_utf16_le_injective(a: Seq<char>, b: Seq<char>)
    requires
        utf16_le(a) == utf16_le(b),
    ensures
        a == b,
    decreases a.len(),
{
    lemma_utf16_le_len(a);
    lemma_utf16_le_len(b);
    if a.len() == 0 {
        assert(a =~= b);
    } else {
        let all = utf16_le(a);
        let n = all.len() as int;
        let (head_a, last_a) = (utf16_le(a.drop_last()), char_utf16_le(a.last()));
        let (head_b, last_b) = (utf16_le(b.drop_last()), char_utf16_le(b.last()));
        lemma_char_utf16_le(a.last());
        lemma_char_utf16_le(b.last());
        assert(all == head_a + last_a);
        assert(all == head_b + last_b);
        // the last code unit tells how long the last character is
        assert(all[n - 2] == last_a[last_a.len() - 2] && all[n - 1] == last_a[last_a.len() - 1]);
        assert(all[n - 2] == last_b[last_b.len() - 2] && all[n - 1] == last_b[last_b.len() - 1]);
        assert(last_a.len() == last_b.len());
        assert(last_a =~= all.subrange(n - last_a.len(), n));
        assert(last_b =~= all.subrange(n - last_a.len(), n));
        assert(head_a =~= all.subrange(0, n - last_a.len()));
        assert(head_b =~= all.subrange(0, n - last_a.len()));
        lemma_char_by_number(a.last(), b.last());
        lemma_utf16_le_injective(a.drop_last(), b.drop_last());
        assert(a =~= a.drop_last().push(a.last()));
        assert(b =~= b.drop_last().push(b.last()));
    }
}

/// Appends the UTF-16 encoding of one character.
fn push_char_utf16_le(out: &mut Vec<u8>, c: char)
    ensures
        final(out)@ == old(out)@ + char_utf16_le(c),
{
    let v: u32 = c as u32;
    if v < 0x1_0000 {
        let unit = u16_to_le(v as u16);
        out.push(unit[0]);
        out.push(unit[1]);
    } else {
        let w: u32 = v - 0x1_0000;
        let high = u16_to_le((0xD800 + w / 0x400) as u16);
        let low = u16_to_le((0xDC00 + w % 0x400) as u16);
        out.push(high[0]);
        out.push(high[1]);
        out.push(low[0]);
        out.push(low[1]);
    }
    assert(out@ =~= old(out)@ + char_utf16_le(c));
}

/// The UTF-16 encoding of a text, each code unit as two bytes, low byte
/// first.
pub fn encode_utf16_le(s: &str) -> (out: Vec<u8>)
    ensures
        out@ == utf16_le(s@),
{
    let mut out: Vec<u8> = Vec::new();
    for c in it: s.chars()
        invariant
            it.seq() == s@,
            out@ == utf16_le(s@.take(it.index() as int)),
    {
        proof {
            let k = it.index() as int;
            assert(s@.take(k + 1).drop_last() =~= s@.take(k));
        }
        push_char_utf16_le(&mut out, c);
    }
    assert(s@.take(s@.len() as int) =~= s@);
    out
}

/// The length in bytes of the UTF-16 encoding of a text, if it is below
/// 0xFFFF and so fits a 16-bit length field.
pub fn utf16_le_len(s: &str) -> (r: Option<u16>)
    ensures
        r == (if utf16_le(s@).len() < 0xFFFF {
            Some(utf16_le(s@).len() as u16)
        } else {
            None
        }),
{
    let mut len: u32 = 0;
    for c in it: s.chars()
        invariant
            it.seq() == s@,
            len == utf16_le(s@.take(it.index() as int)).len(),
            len < 0xFFFF,
    {
        proof {
            let k = it.index() as int;
            assert(s@.take(k + 1).drop_last() =~= s@.take(k));
            lemma_utf16_le_prefix(s@, k + 1);
        }
        let v: u32 = c as u32;
        len = len + if v < 0x1_0000 {
            2
        } else {
            4
        };
        if len >= 0xFFFF {
            return None;
        }
    }
    assert(s@.take(s@.len() as int) =~= s@);
    Some(len as u16)
}

} // verus!
