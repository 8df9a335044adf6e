//! Glyphs: the single character rendered for one slot.
//!
//! A slot renders as one of four kinds of glyph. A measured value renders
//! as a base-36 digit capped at 33 (`0`-`9` then `A`-`X`), with `?` for any
//! value outside that display range; the other three kinds are fixed
//! characters.

use vstd::prelude::*;

verus! {

/// The state of one slot, decided by the renderer before it is turned
/// into a character.
#[derive(Clone, Copy, PartialEq, Eq, Structural, Debug)]
pub enum Glyph {
    /// A measured reading, already rounded to an integer.
    Value(i64),
    /// A timeline marker on an even full hour with no reading.
    HourTick,
    /// A slot not yet elapsed (or no reading recorded anywhere yet).
    WaitPlaceholder,
    /// An elapsed slot with no reading.
    Blank,
}

/// The fixed display table for a rounded reading: 0-9 render as digits,
/// 10-33 as the uppercase letters `A`-`X`, and everything else as `?`.
/// The cap at 33 is a deliberate display-range choice: `Y` and `Z` are
/// reserved as always out of range.
pub open spec fn value_char(v: int) -> char {
    if v == 0 {
        '0'
    } else if v == 1 {
        '1'
    } else if v == 2 {
        '2'
    } else if v == 3 {
        '3'
    } else if v == 4 {
        '4'
    } else if v == 5 {
        '5'
    } else if v == 6 {
        '6'
    } else if v == 7 {
        '7'
    } else if v == 8 {
        '8'
    } else if v == 9 {
        '9'
    } else if v == 10 {
        'A'
    } else if v == 11 {
        'B'
    } else if v == 12 {
        'C'
    } else if v == 13 {
        'D'
    } else if v == 14 {
        'E'
    } else if v == 15 {
        'F'
    } else if v == 16 {
        'G'
    } else if v == 17 {
        'H'
    } else if v == 18 {
        'I'
    } else if v == 19 {
        'J'
    } else if v == 20 {
        'K'
    } else if v == 21 {
        'L'
    } else if v == 22 {
        'M'
    } else if v == 23 {
        'N'
    } else if v == 24 {
        'O'
    } else if v == 25 {
        'P'
    } else if v == 26 {
        'Q'
    } else if v == 27 {
        'R'
    } else if v == 28 {
        'S'
    } else if v == 29 {
        'T'
    } else if v == 30 {
        'U'
    } else if v == 31 {
        'V'
    } else if v == 32 {
        'W'
    } else if v == 33 {
        'X'
    } else {
        '?'
    }
}

/// The character a glyph renders as.
pub open spec fn glyph_char(g: Glyph) -> char {
    match g {
        Glyph::Value(v) => value_char(v as int),
        Glyph::HourTick => '|',
        Glyph::WaitPlaceholder => '-',
        Glyph::Blank => ' ',
    }
}

/// The one-character text of a glyph, ready to be appended to a rendered
/// strip.
pub fn glyph_str(g: Glyph) -> (r: &'static str)
    ensures
        r@.len() == 1,
        r@[0] == glyph_char(g),
{
    proof {
        reveal_strlit("0");
        reveal_strlit("1");
        reveal_strlit("2");
        reveal_strlit("3");
        reveal_strlit("4");
        reveal_strlit("5");
        reveal_strlit("6");
        reveal_strlit("7");
        reveal_strlit("8");
        reveal_strlit("9");
        reveal_strlit("A");
        reveal_strlit("B");
        reveal_strlit("C");
        reveal_strlit("D");
        reveal_strlit("E");
        reveal_strlit("F");
        reveal_strlit("G");
        reveal_strlit("H");
        reveal_strlit("I");
        reveal_strlit("J");
        reveal_strlit("K");
        reveal_strlit("L");
        reveal_strlit("M");
        reveal_strlit("N");
        reveal_strlit("O");
        reveal_strlit("P");
        reveal_strlit("Q");
        reveal_strlit("R");
        reveal_strlit("S");
        reveal_strlit("T");
        reveal_strlit("U");
        reveal_strlit("V");
        reveal_strlit("W");
        reveal_strlit("X");
        reveal_strlit("?");
        reveal_strlit("|");
        reveal_strlit("-");
        reveal_strlit(" ");
    }
    match g {
        Glyph::HourTick => "|",
        Glyph::WaitPlaceholder => "-",
        Glyph::Blank => " ",
        Glyph::Value(v) => {
            if v == 0 {
                "0"
            } else if v == 1 {
                "1"
            } else if v == 2 {
                "2"
            } else if v == 3 {
                "3"
            } else if v == 4 {
                "4"
            } else if v == 5 {
                "5"
            } else if v == 6 {
                "6"
            } else if v == 7 {
                "7"
            } else if v == 8 {
                "8"
            } else if v == 9 {
                "9"
            } else if v == 10 {
                "A"
            } else if v == 11 {
                "B"
            } else if v == 12 {
                "C"
            } else if v == 13 {
                "D"
            } else if v == 14 {
                "E"
            } else if v == 15 {
                "F"
            } else if v == 16 {
                "G"
            } else if v == 17 {
                "H"
            } else if v == 18 {
                "I"
            } else if v == 19 {
                "J"
            } else if v == 20 {
                "K"
            } else if v == 21 {
                "L"
            } else if v == 22 {
                "M"
            } else if v == 23 {
                "N"
            } else if v == 24 {
                "O"
            } else if v == 25 {
                "P"
            } else if v == 26 {
                "Q"
            } else if v == 27 {
                "R"
            } else if v == 28 {
                "S"
            } else if v == 29 {
                "T"
            } else if v == 30 {
                "U"
            } else if v == 31 {
                "V"
            } else if v == 32 {
                "W"
            } else if v == 33 {
                "X"
            } else {
                "?"
            }
        },
    }
}

/// The display table is exactly base-36 uppercase on the in-range values:
/// a digit character for 0-9 and a letter from `A` on for 10-33.
pub proof fn lemma_value_char_in_range(v: int)
    requires
        0 <= v <= 33,
    ensures
        v < 10 ==> value_char(v) as int == '0' as int + v,
        v >= 10 ==> value_char(v) as int == 'A' as int + (v - 10),
{
}

/// Every value whose rounded integer falls outside 0 to 33 renders as the
/// out-of-range sentinel, never as a letter or digit.
pub proof fn lemma_value_char_out_of_range(v: int)
    requires
        v < 0 || v > 33,
    ensures
        value_char(v) == '?',
{
}

} // verus!
