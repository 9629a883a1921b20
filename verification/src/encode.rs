//! Compact trigram encoding: three characters become a fixed 3-byte key.
//!
//! When the three characters together encode to exactly 3 UTF-8 bytes (one
//! byte per character), the key is those bytes verbatim. Otherwise the key is
//! the low-order 3 bytes, little-endian, of the legacy checksum of the full
//! UTF-8 encoding. Collisions between the two rules are a known, accepted
//! approximation inherited from the reference database.

use vstd::prelude::*;
use vstd::utf8::char_is_scalar;
use vstd::utf8::encode_scalar;
use vstd::utf8::has_width_1_encoding;
use vstd::utf8::has_width_2_encoding;
use vstd::utf8::has_width_3_encoding;
use vstd::utf8::has_width_4_encoding;
use vstd::utf8::is_scalar;
use vstd::utf8::last_continuation_byte;
use vstd::utf8::leading_byte_width_1;
use vstd::utf8::leading_byte_width_2;
use vstd::utf8::leading_byte_width_3;
use vstd::utf8::leading_byte_width_4;
use vstd::utf8::second_last_continuation_byte;
use vstd::utf8::third_last_continuation_byte;

use crate::crc::legacy_crc32;
use crate::crc::spec_legacy_crc32;

verus! {

/// The UTF-8 bytes of the three characters of a window, concatenated.
pub open spec fn utf8_of3(a: char, b: char, c: char) -> Seq<u8> {
    encode_scalar(a as u32) + encode_scalar(b as u32) + encode_scalar(c as u32)
}

/// The compact key of a 3-character window, as a 24-bit value: the 3 raw
/// bytes (little-endian) when the window is pure single-byte content, else
/// the low 3 bytes of the legacy checksum of the window's UTF-8 encoding.
pub open spec fn spec_trigram_key(a: char, b: char, c: char) -> u32 {
    let bs = utf8_of3(a, b, c);
    if bs.len() == 3 {
        bs[0] as u32 | ((bs[1] as u32) << 8) | ((bs[2] as u32) << 16)
    } else {
        spec_legacy_crc32(bs) & 0xFFFFFF
    }
}

/// The 3 bytes of a compact key, in little-endian order.
pub open spec fn spec_key_bytes(k: u32) -> Seq<u8> {
    seq![(k & 0xFF) as u8, ((k >> 8) & 0xFF) as u8, ((k >> 16) & 0xFF) as u8]
}

/// Appends the UTF-8 encoding of `c` to `out`.
fn push_utf8(out: &mut Vec<u8>, c: char)
    ensures
        final(out)@ == old(out)@ + encode_scalar(c as u32),
{
    let v = c as u32;
    proof {
        char_is_scalar(c);
        assert(is_scalar(v));
    }
    let ghost before = out@;
    if v <= 0x7F {
        out.push((v & 0x7F) as u8);
        proof {
            assert(encode_scalar(v) =~= seq![leading_byte_width_1(v)]);
            assert(out@ =~= before + encode_scalar(v));
        }
    } else if v <= 0x7FF {
        out.push(0xC0u8 | ((v >> 6) & 0x1F) as u8);
        out.push(0x80u8 | (v & 0x3F) as u8);
        proof {
            assert(has_width_2_encoding(v));
            assert(encode_scalar(v) =~= seq![
                leading_byte_width_2(v),
                last_continuation_byte(v),
            ]);
            assert(out@ =~= before + encode_scalar(v));
        }
    } else if v <= 0xFFFF {
        out.push(0xE0u8 | ((v >> 12) & 0x0F) as u8);
        out.push(0x80u8 | ((v >> 6) & 0x3F) as u8);
        out.push(0x80u8 | (v & 0x3F) as u8);
        proof {
            assert(has_width_3_encoding(v));
            assert(encode_scalar(v) =~= seq![
                leading_byte_width_3(v),
                second_last_continuation_byte(v),
                last_continuation_byte(v),
            ]);
            assert(out@ =~= before + encode_scalar(v));
        }
    } else {
        out.push(0xF0u8 | ((v >> 18) & 0x7) as u8);
        out.push(0x80u8 | ((v >> 12) & 0x3F) as u8);
        out.push(0x80u8 | ((v >> 6) & 0x3F) as u8);
        out.push(0x80u8 | (v & 0x3F) as u8);
        proof {
            assert(has_width_4_encoding(v));
            assert(encode_scalar(v) =~= seq![
                leading_byte_width_4(v),
                third_last_continuation_byte(v),
                second_last_continuation_byte(v),
                last_continuation_byte(v),
            ]);
            assert(out@ =~= before + encode_scalar(v));
        }
    }
}

/// The compact key of the window `(a, b, c)`, as a 24-bit value.
pub fn trigram_key(a: char, b: char, c: char) -> (r: u32)
    ensures
        r == spec_trigram_key(a, b, c),
        r < 0x1000000,
{
    let mut buf: Vec<u8> = Vec::new();
    push_utf8(&mut buf, a);
    push_utf8(&mut buf, b);
    push_utf8(&mut buf, c);
    proof {
        assert(buf@ =~= utf8_of3(a, b, c));
    }
    if buf.len() == 3 {
        let k = buf[0] as u32 | ((buf[1] as u32) << 8) | ((buf[2] as u32) << 16);
        proof {
            lemma_pack_bound(buf@[0], buf@[1], buf@[2]);
        }
        k
    } else {
        let crc = legacy_crc32(buf.as_slice());
        let k = crc & 0xFFFFFF;
        assert(k < 0x1000000) by (bit_vector)
            requires
                k == crc & 0xFFFFFF,
        ;
        k
    }
}

/// Packing three bytes little-endian gives a 24-bit value, and each byte can
/// be read back from its own position.
proof fn lemma_pack_bound(x: u8, y: u8, z: u8)
    by (bit_vector)
    ensures
        (x as u32 | ((y as u32) << 8) | ((z as u32) << 16)) < 0x1000000,
        ((x as u32 | ((y as u32) << 8) | ((z as u32) << 16)) & 0xFF) as u8 == x,
        (((x as u32 | ((y as u32) << 8) | ((z as u32) << 16)) >> 8) & 0xFF) as u8 == y,
        (((x as u32 | ((y as u32) << 8) | ((z as u32) << 16)) >> 16) & 0xFF) as u8 == z,
{
}

/// The compact trigram of the window `(a, b, c)`: its 3-byte key. For a pure
/// single-byte window these are the window's UTF-8 bytes verbatim; otherwise
/// they are the low 3 bytes, little-endian, of the legacy checksum of the
/// window's UTF-8 encoding.
pub fn compact_trigram(a: char, b: char, c: char) -> (r: [u8; 3])
    ensures
        r@ == spec_key_bytes(spec_trigram_key(a, b, c)),
        utf8_of3(a, b, c).len() == 3 ==> r@ == utf8_of3(a, b, c),
{
    let k = trigram_key(a, b, c);
    let r: [u8; 3] = [(k & 0xFF) as u8, ((k >> 8) & 0xFF) as u8, ((k >> 16) & 0xFF) as u8];
    proof {
        assert(r@ =~= spec_key_bytes(k));
        let bs = utf8_of3(a, b, c);
        if bs.len() == 3 {
            lemma_pack_bound(bs[0], bs[1], bs[2]);
            assert(r@ =~= bs);
        }
    }
    r
}

} // verus!
