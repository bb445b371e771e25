//! Reading a byte written in hexadecimal, as `u8::from_str_radix(s, 16)` reads it.
use vstd::prelude::*;

verus! {

/// Why a text is not a byte in hexadecimal.
#[derive(Clone, Copy, Debug, PartialEq, Eq, Structural)]
pub enum HexError {
    /// The text is empty.
    Empty,
    /// A character is not a hexadecimal digit.
    InvalidDigit,
    /// The number is larger than 255.
    PosOverflow,
}

/// The value of a hexadecimal digit, of either case.
pub open spec fn hex_digit(c: char) -> Option<nat> {
    if '0' <= c && c <= '9' {
        Some((c as u32 - '0' as u32) as nat)
    } else if 'a' <= c && c <= 'f' {
        Some((c as u32 - 'a' as u32 + 10) as nat)
    } else if 'A' <= c && c <= 'F' {
        Some((c as u32 - 'A' as u32 + 10) as nat)
    } else {
        None
    }
}

/// Reads the digits of `s` after the value `acc` read so far, from the left: the first
/// character that is no digit, or the first digit that takes the value past 255, decides.
pub open spec fn hex_scan(s: Seq<char>, acc: nat) -> Result<nat, HexError>
    decreases s.len(),
{
    if s.len() == 0 {
        Ok(acc)
    } else {
        match hex_digit(s[0]) {
            None => Err(HexError::InvalidDigit),
            Some(d) => if acc * 16 + d > 255 {
                Err(HexError::PosOverflow)
            } else {
                hex_scan(s.drop_first(), acc * 16 + d)
            },
        }
    }
}

/// The byte that `s` writes in hexadecimal: an optional `+` and then digits.
pub open spec fn hex_byte(s: Seq<char>) -> Result<nat, HexError> {
    if s.len() == 0 {
        Err(HexError::Empty)
    } else if s[0] == '+' {
        if s.len() == 1 {
            Err(HexError::InvalidDigit)
        } else {
            hex_scan(s.drop_first(), 0)
        }
    } else {
        hex_scan(s, 0)
    }
}

fn digit_value(c: char) -> (r: Option<u32>)
    ensures
        r matches Some(d) ==> hex_digit(c) == Some(d as nat) && d < 16,
        r is None ==> hex_digit(c) is None,
{
    if '0' <= c && c <= '9' {
        Some(c as u32 - '0' as u32)
    } else if 'a' <= c && c <= 'f' {
        Some(c as u32 - 'a' as u32 + 10)
    } else if 'A' <= c && c <= 'F' {
        Some(c as u32 - 'A' as u32 + 10)
    } else {
        None
    }
}

/// Reads a byte written in hexadecimal.
pub fn parse_hex_byte(s: &Vec<char>) -> (r: Result<u8, HexError>)
    ensures
        r matches Ok(b) ==> hex_byte(s@) == Ok::<nat, HexError>(b as nat),
        r matches Err(e) ==> hex_byte(s@) == Err::<nat, HexError>(e),
{
    if s.len() == 0 {
        return Err(HexError::Empty);
    }
    let mut i: usize = 0;
    if s[0] == '+' {
        if s.len() == 1 {
            return Err(HexError::InvalidDigit);
        }
        i = 1;
    }
    let ghost digits = s@.subrange(i as int, s@.len() as int);
    assert(s[0] == '+' ==> digits =~= s@.drop_first());
    assert(s[0] != '+' ==> digits =~= s@);
    let mut acc: u32 = 0;
    while i < s.len()
        invariant
            i <= s.len(),
            acc <= 255,
            hex_byte(s@) == hex_scan(digits, 0),
            hex_scan(digits, 0) == hex_scan(s@.subrange(i as int, s@.len() as int), acc as nat),
        decreases s.len() - i,
    {
        let ghost rest = s@.subrange(i as int, s@.len() as int);
        assert(rest.drop_first() =~= s@.subrange(i + 1, s@.len() as int));
        assert(rest[0] == s@[i as int]);
        match digit_value(s[i]) {
            None => return Err(HexError::InvalidDigit),
            Some(d) => {
                if acc * 16 + d > 255 {
                    return Err(HexError::PosOverflow);
                }
                acc = acc * 16 + d;
            },
        }
        i = i + 1;
    }
    assert(s@.subrange(i as int, s@.len() as int) =~= Seq::<char>::empty());
    Ok(acc as u8)
}

/// The character whose code is the byte `b`.
pub fn byte_char(b: u8) -> (c: char)
    ensures
        c == b as char,
{
    b as char
}

} // verus!
