//! Properties of the encoding: a standard-compliant decoder reading an
//! encoding back gives the original bytes; the output length is
//! `4 * ceil(n / 3)`; every output character is in the alphabet; and the
//! number of `=` characters is fixed by `n % 3`.

use vstd::prelude::*;

use crate::alphabet::char_of_sextet;
use crate::alphabet::is_base64_char;
use crate::alphabet::lemma_alphabet_inverse;
use crate::alphabet::sextet_of_char;
use crate::encode::encoding;
use crate::encode::group1;
use crate::encode::group2;
use crate::encode::group3;

verus! {

/// What a standard-compliant decoder makes of a well-formed encoding: each
/// group of four characters gives back three bytes, except a final padded
/// group, which gives back two bytes (one `=`) or one byte (two `=`).
pub open spec fn decoding(s: Seq<char>) -> Seq<u8>
    decreases s.len(),
{
    if s.len() < 4 {
        Seq::empty()
    } else {
        let s0 = sextet_of_char(s[0]);
        let s1 = sextet_of_char(s[1]);
        let s2 = sextet_of_char(s[2]);
        let s3 = sextet_of_char(s[3]);
        if s[2] == '=' {
            seq![(s0 << 2) | (s1 >> 4)]
        } else if s[3] == '=' {
            seq![(s0 << 2) | (s1 >> 4), ((s1 & 0x0F) << 4) | (s2 >> 2)]
        } else {
            seq![
                (s0 << 2) | (s1 >> 4),
                ((s1 & 0x0F) << 4) | (s2 >> 2),
                ((s2 & 0x03) << 6) | s3,
            ] + decoding(s.skip(4))
        }
    }
}

/// Round trip: decoding an encoding gives back exactly the bytes that were
/// encoded, for every byte sequence.
pub proof fn lemma_round_trip(b: Seq<u8>)
    ensures
        decoding(encoding(b)) == b,
    decreases b.len(),
{
    if b.len() == 0 {
        assert(decoding(encoding(b)) =~= b);
    } else if b.len() == 1 {
        let b0 = b[0];
        let s0 = b0 >> 2;
        let s1 = (b0 & 0x03) << 4;
        assert(b0 >> 2 < 64 && (b0 & 0x03) << 4 < 64) by (bit_vector);
        lemma_alphabet_inverse(s0);
        lemma_alphabet_inverse(s1);
        let s = encoding(b);
        assert(s == group1(b0));
        assert(s.len() == 4 && s[0] == char_of_sextet(s0) && s[1] == char_of_sextet(s1) && s[2]
            == '=');
        assert(((s0 << 2) | (s1 >> 4)) == b0) by (bit_vector)
            requires
                s0 == b0 >> 2 && s1 == (b0 & 0x03) << 4,
        ;
        assert(decoding(s) =~= b);
    } else if b.len() == 2 {
        let b0 = b[0];
        let b1 = b[1];
        let s0 = b0 >> 2;
        let s1 = ((b0 & 0x03) << 4) | (b1 >> 4);
        let s2 = (b1 & 0x0F) << 2;
        assert(b0 >> 2 < 64 && ((b0 & 0x03) << 4) | (b1 >> 4) < 64 && (b1 & 0x0F) << 2
            < 64) by (bit_vector);
        lemma_alphabet_inverse(s0);
        lemma_alphabet_inverse(s1);
        lemma_alphabet_inverse(s2);
        let s = encoding(b);
        assert(s == group2(b0, b1));
        assert(s.len() == 4 && s[0] == char_of_sextet(s0) && s[1] == char_of_sextet(s1) && s[2]
            == char_of_sextet(s2) && s[3] == '=');
        assert(((s0 << 2) | (s1 >> 4)) == b0 && (((s1 & 0x0F) << 4) | (s2 >> 2))
            == b1) by (bit_vector)
            requires
                s0 == b0 >> 2 && s1 == ((b0 & 0x03) << 4) | (b1 >> 4) && s2 == (b1 & 0x0F) << 2,
        ;
        assert(decoding(s) =~= b);
    } else {
        let b0 = b[0];
        let b1 = b[1];
        let b2 = b[2];
        let s0 = b0 >> 2;
        let s1 = ((b0 & 0x03) << 4) | (b1 >> 4);
        let s2 = ((b1 & 0x0F) << 2) | (b2 >> 6);
        let s3 = b2 & 0x3F;
        assert(b0 >> 2 < 64 && ((b0 & 0x03) << 4) | (b1 >> 4) < 64 && ((b1 & 0x0F) << 2) | (b2
            >> 6) < 64 && b2 & 0x3F < 64) by (bit_vector);
        lemma_alphabet_inverse(s0);
        lemma_alphabet_inverse(s1);
        lemma_alphabet_inverse(s2);
        lemma_alphabet_inverse(s3);
        let s = encoding(b);
        assert(s == group3(b0, b1, b2) + encoding(b.skip(3)));
        assert(s.len() >= 4);
        assert(s[0] == char_of_sextet(s0) && s[1] == char_of_sextet(s1) && s[2] == char_of_sextet(
            s2,
        ) && s[3] == char_of_sextet(s3));
        assert(((s0 << 2) | (s1 >> 4)) == b0 && (((s1 & 0x0F) << 4) | (s2 >> 2)) == b1 && (((s2
            & 0x03) << 6) | s3) == b2) by (bit_vector)
            requires
                s0 == b0 >> 2 && s1 == ((b0 & 0x03) << 4) | (b1 >> 4) && s2 == ((b1 & 0x0F) << 2)
                    | (b2 >> 6) && s3 == b2 & 0x3F,
        ;
        assert(s.skip(4) =~= encoding(b.skip(3)));
        lemma_round_trip(b.skip(3));
        assert(decoding(s) =~= b);
    }
}

/// The length of an encoding: four characters for every started group of
/// three bytes, that is `4 * ceil(n / 3)`.
pub proof fn lemma_encoding_len(b: Seq<u8>)
    ensures
        encoding(b).len() == 4 * ((b.len() + 2) / 3),
    decreases b.len(),
{
    if b.len() >= 3 {
        lemma_encoding_len(b.skip(3));
    }
}

/// Every character of an encoding is one of the 65 symbols of the Base64
/// alphabet: a data symbol or the padding character `=`.
pub proof fn lemma_encoding_alphabet(b: Seq<u8>)
    ensures
        forall|j: int|
            0 <= j < encoding(b).len() ==> is_base64_char(#[trigger] encoding(b)[j]),
    decreases b.len(),
{
    if b.len() == 0 {
    } else if b.len() == 1 {
        let b0 = b[0];
        assert(b0 >> 2 < 64 && (b0 & 0x03) << 4 < 64) by (bit_vector);
        lemma_alphabet_inverse(b0 >> 2);
        lemma_alphabet_inverse((b0 & 0x03) << 4);
    } else if b.len() == 2 {
        let b0 = b[0];
        let b1 = b[1];
        assert(b0 >> 2 < 64 && ((b0 & 0x03) << 4) | (b1 >> 4) < 64 && (b1 & 0x0F) << 2
            < 64) by (bit_vector);
        lemma_alphabet_inverse(b0 >> 2);
        lemma_alphabet_inverse(((b0 & 0x03) << 4) | (b1 >> 4));
        lemma_alphabet_inverse((b1 & 0x0F) << 2);
    } else {
        let b0 = b[0];
        let b1 = b[1];
        let b2 = b[2];
        assert(b0 >> 2 < 64 && ((b0 & 0x03) << 4) | (b1 >> 4) < 64 && ((b1 & 0x0F) << 2) | (b2
            >> 6) < 64 && b2 & 0x3F < 64) by (bit_vector);
        lemma_alphabet_inverse(b0 >> 2);
        lemma_alphabet_inverse(((b0 & 0x03) << 4) | (b1 >> 4));
        lemma_alphabet_inverse(((b1 & 0x0F) << 2) | (b2 >> 6));
        lemma_alphabet_inverse(b2 & 0x3F);
        lemma_encoding_alphabet(b.skip(3));
        assert forall|j: int| 0 <= j < encoding(b).len() implies is_base64_char(
            #[trigger] encoding(b)[j],
        ) by {
            if j >= 4 {
                assert(encoding(b)[j] == encoding(b.skip(3))[j - 4]);
            }
        }
    }
}

/// How many characters of `s` are the padding character `=`.
pub open spec fn pad_count(s: Seq<char>) -> nat
    decreases s.len(),
{
    if s.len() == 0 {
        0
    } else {
        (if s[0] == '=' {
            1nat
        } else {
            0nat
        }) + pad_count(s.skip(1))
    }
}

proof fn lemma_pad_count4(c0: char, c1: char, c2: char, c3: char)
    ensures
        pad_count(seq![c0, c1, c2, c3]) == (if c0 == '=' {
            1int
        } else {
            0int
        }) + (if c1 == '=' {
            1int
        } else {
            0int
        }) + (if c2 == '=' {
            1int
        } else {
            0int
        }) + (if c3 == '=' {
            1int
        } else {
            0int
        }),
{
    let t1 = seq![c3];
    let t2 = seq![c2, c3];
    let t3 = seq![c1, c2, c3];
    let t4 = seq![c0, c1, c2, c3];
    assert(t1.skip(1) =~= Seq::<char>::empty());
    assert(t2.skip(1) =~= t1);
    assert(t3.skip(1) =~= t2);
    assert(t4.skip(1) =~= t3);
    assert(pad_count(Seq::<char>::empty()) == 0);
    assert(pad_count(t1) == (if c3 == '=' {
        1int
    } else {
        0int
    }));
    assert(pad_count(t2) == pad_count(t1) + (if c2 == '=' {
        1int
    } else {
        0int
    }));
    assert(pad_count(t3) == pad_count(t2) + (if c1 == '=' {
        1int
    } else {
        0int
    }));
    assert(pad_count(t4) == pad_count(t3) + (if c0 == '=' {
        1int
    } else {
        0int
    }));
}

proof fn lemma_pad_count_add(a: Seq<char>, b: Seq<char>)
    ensures
        pad_count(a + b) == pad_count(a) + pad_count(b),
    decreases a.len(),
{
    if a.len() == 0 {
        assert(a + b =~= b);
    } else {
        assert((a + b).skip(1) =~= a.skip(1) + b);
        lemma_pad_count_add(a.skip(1), b);
    }
}

/// How many `=` characters an encoding holds: none when the byte count is a
/// multiple of three, two when it exceeds one by a multiple of three, one
/// when it exceeds two.
pub proof fn lemma_padding(b: Seq<u8>)
    ensures
        pad_count(encoding(b)) == (if b.len() % 3 == 0 {
            0int
        } else if b.len() % 3 == 1 {
            2int
        } else {
            1int
        }),
    decreases b.len(),
{
    if b.len() == 0 {
    } else if b.len() == 1 {
        let b0 = b[0];
        assert(b0 >> 2 < 64 && (b0 & 0x03) << 4 < 64) by (bit_vector);
        lemma_alphabet_inverse(b0 >> 2);
        lemma_alphabet_inverse((b0 & 0x03) << 4);
        lemma_pad_count4(char_of_sextet(b0 >> 2), char_of_sextet((b0 & 0x03) << 4), '=', '=');
    } else if b.len() == 2 {
        let b0 = b[0];
        let b1 = b[1];
        assert(b0 >> 2 < 64 && ((b0 & 0x03) << 4) | (b1 >> 4) < 64 && (b1 & 0x0F) << 2
            < 64) by (bit_vector);
        lemma_alphabet_inverse(b0 >> 2);
        lemma_alphabet_inverse(((b0 & 0x03) << 4) | (b1 >> 4));
        lemma_alphabet_inverse((b1 & 0x0F) << 2);
        lemma_pad_count4(
            char_of_sextet(b0 >> 2),
            char_of_sextet(((b0 & 0x03) << 4) | (b1 >> 4)),
            char_of_sextet((b1 & 0x0F) << 2),
            '=',
        );
    } else {
        let b0 = b[0];
        let b1 = b[1];
        let b2 = b[2];
        assert(b0 >> 2 < 64 && ((b0 & 0x03) << 4) | (b1 >> 4) < 64 && ((b1 & 0x0F) << 2) | (b2
            >> 6) < 64 && b2 & 0x3F < 64) by (bit_vector);
        lemma_alphabet_inverse(b0 >> 2);
        lemma_alphabet_inverse(((b0 & 0x03) << 4) | (b1 >> 4));
        lemma_alphabet_inverse(((b1 & 0x0F) << 2) | (b2 >> 6));
        lemma_alphabet_inverse(b2 & 0x3F);
        lemma_pad_count4(
            char_of_sextet(b0 >> 2),
            char_of_sextet(((b0 & 0x03) << 4) | (b1 >> 4)),
            char_of_sextet(((b1 & 0x0F) << 2) | (b2 >> 6)),
            char_of_sextet(b2 & 0x3F),
        );
        lemma_pad_count_add(group3(b0, b1, b2), encoding(b.skip(3)));
        lemma_padding(b.skip(3));
        assert(b.skip(3).len() % 3 == b.len() % 3);
    }
}

} // verus!
