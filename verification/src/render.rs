use vstd::prelude::*;
use vstd::string::StringExecFns;

use crate::ast::ParseError;
use crate::ast::ParseErrorType;
use crate::ast::ParseErrorView;

verus! {

/// Relies on std's `String::push`: it appends the given character to the end
/// of the string.
pub assume_specification[ String::push ](s: &mut String, c: char)
    ensures
        final(s)@ == old(s)@.push(c),
;

/// The character of one decimal digit.
pub open spec fn digit_char(d: nat) -> char {
    if d == 0 {
        '0'
    } else if d == 1 {
        '1'
    } else if d == 2 {
        '2'
    } else if d == 3 {
        '3'
    } else if d == 4 {
        '4'
    } else if d == 5 {
        '5'
    } else if d == 6 {
        '6'
    } else if d == 7 {
        '7'
    } else if d == 8 {
        '8'
    } else {
        '9'
    }
}

/// The decimal digits of `n`, most significant first, without leading
/// zeroes (a single `'0'` for zero).
pub open spec fn dec_digits(n: nat) -> Seq<char>
    decreases n,
{
    if n < 10 {
        seq![digit_char(n)]
    } else {
        dec_digits(n / 10).push(digit_char(n % 10))
    }
}

/// Appends the character of one decimal digit.
fn push_digit(s: &mut String, d: u8)
    requires
        d < 10,
    ensures
        final(s)@ == old(s)@.push(digit_char(d as nat)),
{
    match d {
        0 => s.push('0'),
        1 => s.push('1'),
        2 => s.push('2'),
        3 => s.push('3'),
        4 => s.push('4'),
        5 => s.push('5'),
        6 => s.push('6'),
        7 => s.push('7'),
        8 => s.push('8'),
        _ => s.push('9'),
    }
}

/// Appends the decimal digits of `n`.
fn append_decimal(s: &mut String, n: usize)
    ensures
        final(s)@ == old(s)@ + dec_digits(n as nat),
    decreases n,
{
    if n < 10 {
        push_digit(s, n as u8);
        proof {
            assert(s@ =~= old(s)@ + dec_digits(n as nat));
        }
    } else {
        append_decimal(s, n / 10);
        push_digit(s, (n % 10) as u8);
        proof {
            assert(s@ =~= old(s)@ + dec_digits(n as nat));
        }
    }
}

/// The diagnostic line a parse failure is rendered as.
pub open spec fn error_text(e: ParseErrorView) -> Seq<char> {
    let msg = match e.err_type {
        ParseErrorType::TrailingLoopEnd => "Trailing Loop End."@,
    };
    "Parse error in line "@ + dec_digits(e.line as nat) + " at "@ + dec_digits(e.col as nat)
        + " (near '"@ + seq![e.near] + "'): "@ + msg
}

impl ParseError {
    /// Renders the failure as its one-line diagnostic, exactly
    /// [`error_text`] of the failure's model.
    pub fn to_string(&self) -> (s: String)
        ensures
            s@ == error_text(self@),
    {
        let mut s = String::new();
        s.append("Parse error in line ");
        append_decimal(&mut s, self.line);
        s.append(" at ");
        append_decimal(&mut s, self.col);
        s.append(" (near '");
        s.push(self.near);
        s.append("'): ");
        let msg = match self.err_type {
            ParseErrorType::TrailingLoopEnd => "Trailing Loop End.",
        };
        s.append(msg);
        proof {
            assert(s@ =~= error_text(self@));
        }
        s
    }
}

} // verus!
