//! UTF-8 encoding of the canonical character sequence, proved against the
//! encoding specification in `vstd::utf8`.
use vstd::prelude::*;

use vstd::utf8::encode_scalar;
use vstd::utf8::encode_utf8;

verus! {

/// Encodes the characters as their UTF-8 byte sequence.
pub fn utf8_encode(s: &Vec<char>) -> (r: Vec<u8>)
    ensures
        r@ == encode_utf8(s@),
{
    let mut out: Vec<u8> = Vec::new();
    let mut i: usize = 0;
    proof {
        assert(s@.skip(0) =~= s@);
        assert(out@ + encode_utf8(s@) =~= encode_utf8(s@));
    }
    while i < s.len()
        invariant
            i <= s@.len(),
            encode_utf8(s@) == out@ + encode_utf8(s@.skip(i as int)),
        decreases s@.len() - i,
    {
        proof {
            assert(s@.skip(i as int)[0] == s@[i as int]);
            assert(s@.skip(i as int).drop_first() =~= s@.skip(i as int + 1));
        }
        let ghost out0 = out@;
        let c = s[i];
        let n: u32 = c as u32;
        proof {
            vstd::utf8::char_is_scalar(c);
            assert((n & 0x7F) < 256 && ((n >> 6) & 0x1F) < 256 && (n & 0x3F) < 256 && ((n >> 12)
                & 0x0F) < 256 && ((n >> 18) & 0x7) < 256 && ((n >> 12) & 0x3F) < 256 && ((n >> 6)
                & 0x3F) < 256) by (bit_vector);
        }
        if n < 0x80 {
            out.push((n & 0x7F) as u8);
        } else if n < 0x800 {
            out.push(0xC0 | ((n >> 6) & 0x1F) as u8);
            out.push(0x80 | (n & 0x3F) as u8);
        } else if n < 0x10000 {
            out.push(0xE0 | ((n >> 12) & 0x0F) as u8);
            out.push(0x80 | ((n >> 6) & 0x3F) as u8);
            out.push(0x80 | (n & 0x3F) as u8);
        } else {
            out.push(0xF0 | ((n >> 18) & 0x7) as u8);
            out.push(0x80 | ((n >> 12) & 0x3F) as u8);
            out.push(0x80 | ((n >> 6) & 0x3F) as u8);
            out.push(0x80 | (n & 0x3F) as u8);
        }
        proof {
            assert(out@ =~= out0 + encode_scalar(n));
            assert(out0 + encode_utf8(s@.skip(i as int)) =~= out@ + encode_utf8(
                s@.skip(i as int + 1),
            ));
        }
        i += 1;
    }
    proof {
        assert(s@.skip(s@.len() as int) =~= Seq::<char>::empty());
        assert(out@ + Seq::<u8>::empty() =~= out@);
    }
    out
}

} // verus!
