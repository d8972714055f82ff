use vstd::prelude::*;

use crate::codec::{
    after_frame, first_newline, first_newline_at, frame_bytes, frame_content, has_newline,
    strip_cr, CARRIAGE_RETURN, NEWLINE,
};
use vstd::utf8::{
    char_u32_cast, decode_utf8, encode_scalar, encode_utf8, encode_utf8_decode_utf8,
    encode_utf8_valid_utf8, valid_utf8,
};

verus! {

proof fn lemma_high_bytes(x: u8)
    by (bit_vector)
    ensures
        (0x80u8 | x) >= 0x80u8,
        (0xC0u8 | x) >= 0x80u8,
        (0xE0u8 | x) >= 0x80u8,
        (0xF0u8 | x) >= 0x80u8,
{
}

proof fn lemma_low_byte(v: u32)
    by (bit_vector)
    requires
        v <= 0x7F,
    ensures
        ((v & 0x7F) as u8) as u32 == v,
{
}

/// In the UTF-8 encoding of a character, a byte below 0x80 is the whole
/// encoding, and equals the character's value.
proof fn lemma_scalar_ascii(c: char)
    ensures
        encode_scalar(c as u32).len() >= 1,
        forall|k: int|
            0 <= k < encode_scalar(c as u32).len() && #[trigger] encode_scalar(c as u32)[k] < 0x80
                ==> encode_scalar(c as u32).len() == 1 && encode_scalar(c as u32)[k] as u32 == c as u32,
{
    let v = c as u32;
    if v <= 0x7F {
        lemma_low_byte(v);
    } else if v <= 0x7FF {
        lemma_high_bytes(((v >> 6) & 0x1F) as u8);
        lemma_high_bytes((v & 0x3F) as u8);
    } else if 0x800 <= v <= 0xFFFF && !(0xD800 <= v <= 0xDFFF) {
        lemma_high_bytes(((v >> 12) & 0x0F) as u8);
        lemma_high_bytes(((v >> 6) & 0x3F) as u8);
        lemma_high_bytes((v & 0x3F) as u8);
    } else {
        lemma_high_bytes(((v >> 18) & 0x7) as u8);
        lemma_high_bytes(((v >> 12) & 0x3F) as u8);
        lemma_high_bytes(((v >> 6) & 0x3F) as u8);
        lemma_high_bytes((v & 0x3F) as u8);
    }
}

/// An ASCII byte occurs in the UTF-8 encoding of a text only where the text
/// holds that character.
proof fn lemma_encoding_avoids(chars: Seq<char>, b: u8, c: char)
    requires
        b < 0x80,
        c as u32 == b as u32,
        forall|i: int| 0 <= i < chars.len() ==> chars[i] != c,
    ensures
        forall|k: int| 0 <= k < encode_utf8(chars).len() ==> #[trigger] encode_utf8(chars)[k] != b,
    decreases chars.len(),
{
    if chars.len() > 0 {
        let head = encode_scalar(chars[0] as u32);
        let rest = chars.drop_first();
        lemma_encoding_avoids(rest, b, c);
        lemma_scalar_ascii(chars[0]);
        assert forall|k: int| 0 <= k < encode_utf8(chars).len() implies #[trigger] encode_utf8(
            chars,
        )[k] != b by {
            if k < head.len() {
                assert(encode_utf8(chars)[k] == head[k]);
                if head[k] == b {
                    char_u32_cast(chars[0], c as u32);
                    char_u32_cast(c, c as u32);
                }
            } else {
                assert(encode_utf8(chars)[k] == encode_utf8(rest)[k - head.len()]);
            }
        }
    }
}

/// The last byte of the encoding of a non-empty text is the last byte of the
/// encoding of its last character.
proof fn lemma_encoding_last(chars: Seq<char>)
    requires
        chars.len() > 0,
    ensures
        encode_utf8(chars).len() > 0,
        encode_utf8(chars).last() == encode_scalar(chars.last() as u32).last(),
    decreases chars.len(),
{
    lemma_scalar_ascii(chars[0]);
    let rest = chars.drop_first();
    if rest.len() == 0 {
        assert(encode_utf8(rest) =~= Seq::<u8>::empty());
        assert(encode_utf8(chars) =~= encode_scalar(chars[0] as u32));
    } else {
        lemma_encoding_last(rest);
        assert(rest.last() == chars.last());
    }
}

/// Reading what encoding a line produced gives back the line, and leaves
/// exactly what followed the frame: the wire format round-trips every line
/// that holds no newline and does not end with a carriage return.
pub proof fn law_frame_roundtrip(line: Seq<char>, rest: Seq<u8>)
    requires
        forall|i: int| 0 <= i < line.len() ==> line[i] != '\n',
        line.len() > 0 ==> line.last() != '\r',
    ensures
        has_newline(frame_bytes(line) + rest),
        valid_utf8(frame_content(frame_bytes(line) + rest)),
        decode_utf8(frame_content(frame_bytes(line) + rest)) == line,
        after_frame(frame_bytes(line) + rest) == rest,
{
    let enc = encode_utf8(line);
    let bytes = frame_bytes(line) + rest;
    let n = enc.len() as int;
    lemma_encoding_avoids(line, NEWLINE, '\n');
    assert(bytes[n] == NEWLINE);
    assert forall|k: int| 0 <= k < n implies bytes[k] != NEWLINE by {
        assert(bytes[k] == enc[k]);
    }
    assert(first_newline_at(bytes, n));
    assert(has_newline(bytes));
    let i = first_newline(bytes);
    assert(first_newline_at(bytes, i));
    if i < n {
        assert(bytes[i] == enc[i]);
    }
    assert(i == n);
    assert(bytes.take(n) =~= enc);
    if n > 0 {
        lemma_encoding_last(line);
        let last = line.last();
        lemma_scalar_ascii(last);
        let es = encode_scalar(last as u32);
        if es.last() == CARRIAGE_RETURN {
            assert(es[es.len() - 1] < 0x80);
            char_u32_cast(last, 13u32);
            char_u32_cast('\r', 13u32);
        }
    }
    assert(strip_cr(enc) == enc);
    encode_utf8_valid_utf8(line);
    encode_utf8_decode_utf8(line);
    assert(bytes.skip(n + 1) =~= rest);
}

} // verus!
