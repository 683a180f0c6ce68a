//! Reading decimal numbers.

use vstd::prelude::*;
use vstd::utf8::encode_utf8;

verus! {

/// The byte `+`.
pub const PLUS: u8 = 0x2b;

/// The byte `-`.
pub const MINUS: u8 = 0x2d;

/// The terminal's width where none is given.
pub const DEFAULT_WIDTH: usize = 80;

/// Whether a byte is a decimal digit.
pub open spec fn is_digit(b: u8) -> bool {
    0x30 <= b <= 0x39
}

/// Whether all bytes are decimal digits.
pub open spec fn all_digits(s: Seq<u8>) -> bool {
    forall|i: int| 0 <= i < s.len() ==> is_digit(#[trigger] s[i])
}

/// The number that a string of digits stands for.
pub open spec fn digits_value(s: Seq<u8>) -> nat
    decreases s.len(),
{
    if s.len() == 0 {
        0
    } else {
        digits_value(s.drop_last()) * 10 + (s.last() - 0x30) as nat
    }
}

/// The number that a text stands for: one digit or more, and before them
/// at most one sign. Anything else stands for no number.
pub open spec fn parse_int(s: Seq<u8>) -> Option<int> {
    let signed = s.len() > 0 && (s[0] == PLUS || s[0] == MINUS);
    let digits = if signed {
        s.skip(1)
    } else {
        s
    };
    if digits.len() == 0 || !all_digits(digits) {
        None
    } else if signed && s[0] == MINUS {
        Some(-(digits_value(digits) as int))
    } else {
        Some(digits_value(digits) as int)
    }
}

/// The number that a text without a minus sign stands for.
pub open spec fn parse_unsigned(s: Seq<u8>) -> Option<nat> {
    if s.len() > 0 && s[0] == MINUS {
        None
    } else {
        match parse_int(s) {
            Some(v) => Some(v as nat),
            None => None,
        }
    }
}

/// The width of the terminal as the environment gives it: the number of
/// columns where it gives one that fits, else 80.
pub open spec fn width_of(columns: Option<Seq<u8>>) -> usize {
    match columns {
        Some(text) => match parse_unsigned(text) {
            Some(v) => if v <= usize::MAX {
                v as usize
            } else {
                DEFAULT_WIDTH
            },
            None => DEFAULT_WIDTH,
        },
        None => DEFAULT_WIDTH,
    }
}

/// Numbers above this bound are only known to be too large.
pub const BOUND: u128 = 0x1_0000_0000_0000_0000;

/// A number as far as the reader follows it: itself up to the bound, and
/// one more than the bound for all that is larger.
pub open spec fn capped(v: nat) -> nat {
    if v <= BOUND {
        v
    } else {
        (BOUND + 1) as nat
    }
}

/// Reads the digits from `from` to the end of `bytes`: `None` where a byte
/// is no digit, else their number, capped.
pub fn read_digits(bytes: &[u8], from: usize) -> (value: Option<u128>)
    requires
        from <= bytes.len(),
    ensures
        match value {
            Some(v) => all_digits(bytes@.skip(from as int)) && v == capped(
                digits_value(bytes@.skip(from as int)),
            ),
            None => !all_digits(bytes@.skip(from as int)),
        },
{
    let n = bytes.len();
    let ghost digits = bytes@.skip(from as int);
    let mut v: u128 = 0;
    let mut k: usize = from;
    assert(digits.take(0) =~= Seq::<u8>::empty());
    while k < n
        invariant
            from <= k <= n,
            n == bytes.len(),
            digits == bytes@.skip(from as int),
            all_digits(digits.take(k - from)),
            v == capped(digits_value(digits.take(k - from))),
        decreases n - k,
    {
        let b = bytes[k];
        assert(digits[k - from] == b);
        if b < 0x30 || b > 0x39 {
            return None;
        }
        let ghost next = digits.take(k - from + 1);
        proof {
            assert(next.drop_last() =~= digits.take(k - from));
            assert(next.last() == b);
            assert forall|i: int| 0 <= i < next.len() implies is_digit(#[trigger] next[i]) by {
                if i < next.len() - 1 {
                    assert(next[i] == digits.take(k - from)[i]);
                }
            }
        }
        if v <= BOUND {
            v = v * 10 + (b - 0x30) as u128;
            if v > BOUND {
                v = BOUND + 1;
            }
        }
        k += 1;
    }
    assert(digits.take(n - from) =~= digits);
    Some(v)
}

/// The width of the terminal from the text that the environment gives for
/// the number of columns, if it gives one.
pub fn terminal_width(columns: Option<&str>) -> (width: usize)
    ensures
        width == width_of(
            match columns {
                Some(text) => Some(encode_utf8(text@)),
                None => None,
            },
        ),
{
    match columns {
        Some(text) => {
            let bytes = text.as_bytes();
            let n = bytes.len();
            if n > 0 && bytes[0] == MINUS {
                return DEFAULT_WIDTH;
            }
            let from: usize = if n > 0 && bytes[0] == PLUS {
                1
            } else {
                0
            };
            assert(bytes@.skip(0) =~= bytes@);
            if from == n {
                return DEFAULT_WIDTH;
            }
            match read_digits(bytes, from) {
                Some(v) => if v <= usize::MAX as u128 {
                    v as usize
                } else {
                    DEFAULT_WIDTH
                },
                None => DEFAULT_WIDTH,
            }
        },
        None => DEFAULT_WIDTH,
    }
}

} // verus!
