//! The encoder: a specification of standard Base64 with `=` padding, and a
//! verified executable encoder that meets it.

use vstd::prelude::*;

use crate::alphabet::char_of_sextet;

verus! {

/// The four alphabet characters that encode a full group of three bytes:
/// the 24 bits of the group, read big-endian, split into four sextets.
pub open spec fn group3(b0: u8, b1: u8, b2: u8) -> Seq<char> {
    seq![
        char_of_sextet(b0 >> 2),
        char_of_sextet(((b0 & 0x03) << 4) | (b1 >> 4)),
        char_of_sextet(((b1 & 0x0F) << 2) | (b2 >> 6)),
        char_of_sextet(b2 & 0x3F),
    ]
}

/// The four characters that encode a trailing group of two bytes: the
/// missing bits are taken as zero, and one `=` pads the group to four
/// characters.
pub open spec fn group2(b0: u8, b1: u8) -> Seq<char> {
    seq![
        char_of_sextet(b0 >> 2),
        char_of_sextet(((b0 & 0x03) << 4) | (b1 >> 4)),
        char_of_sextet((b1 & 0x0F) << 2),
        '=',
    ]
}

/// The four characters that encode a trailing group of one byte: the
/// missing bits are taken as zero, and two `=` pad the group to four
/// characters.
pub open spec fn group1(b0: u8) -> Seq<char> {
    seq![char_of_sextet(b0 >> 2), char_of_sextet((b0 & 0x03) << 4), '=', '=']
}

/// The Base64 encoding of a byte sequence: the bytes are taken in
/// consecutive groups of three, and each group becomes four characters.
/// A trailing group of one or two bytes is padded with `=`.
pub open spec fn encoding(b: Seq<u8>) -> Seq<char>
    decreases b.len(),
{
    if b.len() == 0 {
        Seq::empty()
    } else if b.len() == 1 {
        group1(b[0])
    } else if b.len() == 2 {
        group2(b[0], b[1])
    } else {
        group3(b[0], b[1], b[2]) + encoding(b.skip(3))
    }
}

/// Relies on `String::push`: it appends the given character to the end of
/// the string.
pub assume_specification [ String::push ](s: &mut String, c: char)
    ensures
        final(s)@ == old(s)@.push(c),
;

/// Encodes a byte sequence as Base64 text with the standard alphabet and
/// `=` padding.
pub fn bytes_to_base64(bytes: &[u8]) -> (r: String)
    ensures
        r@ == encoding(bytes@),
{
    let mut out = String::new();
    let mut i: usize = 0;
    proof {
        assert(bytes@.skip(0) =~= bytes@);
        assert(out@ + encoding(bytes@) =~= encoding(bytes@));
    }
    while i < bytes.len() && bytes.len() - i >= 3
        invariant
            i % 3 == 0,
            i <= bytes.len(),
            out@ + encoding(bytes@.skip(i as int)) == encoding(bytes@),
        decreases bytes.len() - i,
    {
        let ghost out0 = out@;
        let b0 = bytes[i];
        let b1 = bytes[i + 1];
        let b2 = bytes[i + 2];
        proof {
            assert(b0 >> 2 < 64 && ((b0 & 0x03) << 4) | (b1 >> 4) < 64 && ((b1 & 0x0F) << 2) | (
            b2 >> 6) < 64 && b2 & 0x3F < 64) by (bit_vector);
            assert(bytes@.skip(i as int)[0] == b0);
            assert(bytes@.skip(i as int)[1] == b1);
            assert(bytes@.skip(i as int)[2] == b2);
            assert(bytes@.skip(i as int).skip(3) =~= bytes@.skip(i + 3));
        }
        out.push(crate::alphabet::sextet_to_char(b0 >> 2));
        out.push(crate::alphabet::sextet_to_char(((b0 & 0x03) << 4) | (b1 >> 4)));
        out.push(crate::alphabet::sextet_to_char(((b1 & 0x0F) << 2) | (b2 >> 6)));
        out.push(crate::alphabet::sextet_to_char(b2 & 0x3F));
        proof {
            assert(out@ =~= out0 + group3(b0, b1, b2));
            assert(encoding(bytes@.skip(i as int)) == group3(b0, b1, b2) + encoding(
                bytes@.skip(i + 3),
            ));
            assert(out@ + encoding(bytes@.skip(i + 3)) =~= out0 + encoding(bytes@.skip(i as int)));
        }
        i = i + 3;
    }
    let ghost out0 = out@;
    if bytes.len() - i == 1 {
        let b0 = bytes[i];
        proof {
            assert(b0 >> 2 < 64 && (b0 & 0x03) << 4 < 64) by (bit_vector);
            assert(bytes@.skip(i as int)[0] == b0);
            assert(encoding(bytes@.skip(i as int)) == group1(b0));
        }
        out.push(crate::alphabet::sextet_to_char(b0 >> 2));
        out.push(crate::alphabet::sextet_to_char((b0 & 0x03) << 4));
        out.push('=');
        out.push('=');
        proof {
            assert(out@ =~= out0 + group1(b0));
        }
    } else if bytes.len() - i == 2 {
        let b0 = bytes[i];
        let b1 = bytes[i + 1];
        proof {
            assert(b0 >> 2 < 64 && ((b0 & 0x03) << 4) | (b1 >> 4) < 64 && (b1 & 0x0F) << 2
                < 64) by (bit_vector);
            assert(bytes@.skip(i as int)[0] == b0);
            assert(bytes@.skip(i as int)[1] == b1);
            assert(encoding(bytes@.skip(i as int)) == group2(b0, b1));
        }
        out.push(crate::alphabet::sextet_to_char(b0 >> 2));
        out.push(crate::alphabet::sextet_to_char(((b0 & 0x03) << 4) | (b1 >> 4)));
        out.push(crate::alphabet::sextet_to_char((b1 & 0x0F) << 2));
        out.push('=');
        proof {
            assert(out@ =~= out0 + group2(b0, b1));
        }
    } else {
        proof {
            assert(bytes@.skip(i as int) =~= Seq::<u8>::empty());
            assert(out@ + encoding(bytes@.skip(i as int)) =~= out@);
        }
    }
    out
}

} // verus!
