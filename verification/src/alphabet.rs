//! The 64-symbol Base64 alphabet: the mapping between six-bit values
//! (sextets) and their characters, and its inverse.

use vstd::prelude::*;

verus! {

/// The character that stands for the six-bit value `s` in the standard
/// Base64 alphabet: `A`-`Z` for 0..26, `a`-`z` for 26..52, `0`-`9` for
/// 52..62, then `+` and `/`.
pub open spec fn char_of_sextet(s: u8) -> char
    recommends
        s < 64,
{
    if s < 26 {
        (s + 65) as char
    } else if s < 52 {
        (s + 71) as char
    } else if s < 62 {
        (s - 4) as char
    } else if s == 62 {
        '+'
    } else {
        '/'
    }
}

/// The six-bit value that the character `c` stands for; meaningful only on
/// the 64 data symbols of the alphabet.
pub open spec fn sextet_of_char(c: char) -> u8
    recommends
        is_data_char(c),
{
    let x = c as int;
    if 65 <= x && x <= 90 {
        (x - 65) as u8
    } else if 97 <= x && x <= 122 {
        (x - 71) as u8
    } else if 48 <= x && x <= 57 {
        (x + 4) as u8
    } else if c == '+' {
        62
    } else {
        63
    }
}

/// Holds of the 64 data symbols of the alphabet (everything but the padding
/// character `=`).
pub open spec fn is_data_char(c: char) -> bool {
    let x = c as int;
    (65 <= x && x <= 90) || (97 <= x && x <= 122) || (48 <= x && x <= 57) || c == '+' || c == '/'
}

/// Holds of the 65 characters that may occur in an encoding: the data
/// symbols and the padding character `=`.
pub open spec fn is_base64_char(c: char) -> bool {
    is_data_char(c) || c == '='
}

/// The alphabet is one-to-one: reading a data symbol back gives the sextet
/// it was written for, and no data symbol is the padding character.
pub proof fn lemma_alphabet_inverse(s: u8)
    requires
        s < 64,
    ensures
        is_data_char(char_of_sextet(s)),
        sextet_of_char(char_of_sextet(s)) == s,
        char_of_sextet(s) != '=',
{
}

/// Maps a six-bit value to its alphabet character.
pub fn sextet_to_char(s: u8) -> (c: char)
    requires
        s < 64,
    ensures
        c == char_of_sextet(s),
{
    if s < 26 {
        (s + 65) as char
    } else if s < 52 {
        (s + 71) as char
    } else if s < 62 {
        (s - 4) as char
    } else if s == 62 {
        '+'
    } else {
        '/'
    }
}

} // verus!
