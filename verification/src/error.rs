//! The error reported when parsing an identifier from a byte sequence,
//! and the verified rendering of its diagnostic message.

use vstd::prelude::*;
use vstd::string::StringExecFns;

verus! {

/// The length check failed while parsing an identifier: the input did not
/// hold exactly the `N` bytes the kind calls for. Carries both lengths so
/// callers can produce a precise diagnostic.
#[derive(Debug, Clone, Copy, Hash, PartialEq, Eq, PartialOrd, Ord, Structural)]
pub struct ParseIDError {
    /// The total length `N` of the identifier kind.
    pub expected: usize,
    /// The length of the byte sequence that was supplied.
    pub actual: usize,
}

/// The decimal digit character for `d`.
pub open spec fn dec_digit(d: nat) -> char
    recommends
        d < 10,
{
    if d == 0 {
        '0'
    } else if d == 1 {
        '1'
    } else if d == 2 {
        '2'
    } else if d == 3 {
        '3'
    } else if d == 4 {
        '4'
    } else if d == 5 {
        '5'
    } else if d == 6 {
        '6'
    } else if d == 7 {
        '7'
    } else if d == 8 {
        '8'
    } else {
        '9'
    }
}

/// The decimal rendering of `n`: most significant digit first, with no
/// leading zeros (`0` itself renders as the single digit `0`).
pub open spec fn dec_rep(n: nat) -> Seq<char>
    decreases n,
{
    if n < 10 {
        seq![dec_digit(n)]
    } else {
        dec_rep(n / 10) + seq![dec_digit(n % 10)]
    }
}

/// The rendered diagnostic for a length mismatch: the library's name, the
/// expected byte count, and the observed byte count.
pub open spec fn spec_message(expected: nat, actual: nat) -> Seq<char> {
    "buid: expected "@ + dec_rep(expected) + " bytes, got "@ + dec_rep(actual)
}

/// The one-character string slice for the decimal digit `d`.
fn dec_digit_str(d: u8) -> (s: &'static str)
    requires
        d < 10,
    ensures
        s@ == seq![dec_digit(d as nat)],
{
    let s = match d {
        0 => "0",
        1 => "1",
        2 => "2",
        3 => "3",
        4 => "4",
        5 => "5",
        6 => "6",
        7 => "7",
        8 => "8",
        _ => "9",
    };
    proof {
        reveal_strlit("0");
        reveal_strlit("1");
        reveal_strlit("2");
        reveal_strlit("3");
        reveal_strlit("4");
        reveal_strlit("5");
        reveal_strlit("6");
        reveal_strlit("7");
        reveal_strlit("8");
        reveal_strlit("9");
        assert(s@ =~= seq![dec_digit(d as nat)]);
    }
    s
}

/// Append the decimal rendering of `n` to `out`.
fn push_dec_rep(n: usize, out: &mut String)
    ensures
        final(out)@ == old(out)@ + dec_rep(n as nat),
    decreases n,
{
    if n < 10 {
        out.append(dec_digit_str(n as u8));
        proof {
            assert(out@ =~= old(out)@ + dec_rep(n as nat));
        }
    } else {
        push_dec_rep(n / 10, out);
        out.append(dec_digit_str((n % 10) as u8));
        proof {
            assert(out@ =~= old(out)@ + dec_rep(n as nat));
        }
    }
}

impl ParseIDError {
    /// Render the diagnostic message, for example
    /// `buid: expected 43 bytes, got 40`.
    pub fn message(&self) -> (msg: String)
        ensures
            msg@ == spec_message(self.expected as nat, self.actual as nat),
    {
        let mut msg = String::new();
        msg.append("buid: expected ");
        push_dec_rep(self.expected, &mut msg);
        msg.append(" bytes, got ");
        push_dec_rep(self.actual, &mut msg);
        proof {
            assert(msg@ =~= spec_message(self.expected as nat, self.actual as nat));
        }
        msg
    }
}

} // verus!
