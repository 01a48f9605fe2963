//! Verified decimal formatting for the diagnostic summary and the byte-range
//! request line.

use vstd::prelude::*;
use vstd::string::StringExecFns;

verus! {

/// The character for decimal digit `d`.
pub open spec fn spec_digit_char(d: int) -> char {
    if d == 0 {
        '0'
    } else if d == 1 {
        '1'
    } else if d == 2 {
        '2'
    } else if d == 3 {
        '3'
    } else if d == 4 {
        '4'
    } else if d == 5 {
        '5'
    } else if d == 6 {
        '6'
    } else if d == 7 {
        '7'
    } else if d == 8 {
        '8'
    } else {
        '9'
    }
}

/// The decimal digits of `n`, most significant first, without leading zeros
/// (zero itself is a single '0').
pub open spec fn spec_decimal(n: int) -> Seq<char>
    decreases n,
{
    if n < 10 {
        seq![spec_digit_char(n)]
    } else {
        spec_decimal(n / 10).push(spec_digit_char(n % 10))
    }
}

/// Appends the character of decimal digit `d` to `s`.
fn push_digit(s: &mut String, d: u8)
    requires
        d < 10,
    ensures
        final(s)@ == old(s)@ + seq![spec_digit_char(d as int)],
{
    if d == 0 {
        s.append("0");
        proof {
            reveal_strlit("0");
            assert(old(s)@ + "0"@ =~= old(s)@ + seq![spec_digit_char(d as int)]);
        }
    } else if d == 1 {
        s.append("1");
        proof {
            reveal_strlit("1");
            assert(old(s)@ + "1"@ =~= old(s)@ + seq![spec_digit_char(d as int)]);
        }
    } else if d == 2 {
        s.append("2");
        proof {
            reveal_strlit("2");
            assert(old(s)@ + "2"@ =~= old(s)@ + seq![spec_digit_char(d as int)]);
        }
    } else if d == 3 {
        s.append("3");
        proof {
            reveal_strlit("3");
            assert(old(s)@ + "3"@ =~= old(s)@ + seq![spec_digit_char(d as int)]);
        }
    } else if d == 4 {
        s.append("4");
        proof {
            reveal_strlit("4");
            assert(old(s)@ + "4"@ =~= old(s)@ + seq![spec_digit_char(d as int)]);
        }
    } else if d == 5 {
        s.append("5");
        proof {
            reveal_strlit("5");
            assert(old(s)@ + "5"@ =~= old(s)@ + seq![spec_digit_char(d as int)]);
        }
    } else if d == 6 {
        s.append("6");
        proof {
            reveal_strlit("6");
            assert(old(s)@ + "6"@ =~= old(s)@ + seq![spec_digit_char(d as int)]);
        }
    } else if d == 7 {
        s.append("7");
        proof {
            reveal_strlit("7");
            assert(old(s)@ + "7"@ =~= old(s)@ + seq![spec_digit_char(d as int)]);
        }
    } else if d == 8 {
        s.append("8");
        proof {
            reveal_strlit("8");
            assert(old(s)@ + "8"@ =~= old(s)@ + seq![spec_digit_char(d as int)]);
        }
    } else {
        s.append("9");
        proof {
            reveal_strlit("9");
            assert(old(s)@ + "9"@ =~= old(s)@ + seq![spec_digit_char(d as int)]);
        }
    }
}

/// Appends the decimal digits of `n` to `s`.
pub fn push_decimal(s: &mut String, n: u64)
    ensures
        final(s)@ == old(s)@ + spec_decimal(n as int),
    decreases n,
{
    if n >= 10 {
        push_decimal(s, n / 10);
        push_digit(s, (n % 10) as u8);
        proof {
            assert(old(s)@ + spec_decimal(n as int / 10) + seq![
                spec_digit_char(n as int % 10),
            ] =~= old(s)@ + spec_decimal(n as int));
        }
    } else {
        push_digit(s, n as u8);
        proof {
            assert(old(s)@ + seq![spec_digit_char(n as int)] =~= old(s)@ + spec_decimal(n as int));
        }
    }
}

} // verus!
