//! The library's error type.
use vstd::prelude::*;

verus! {

/// Errors raised by the library.
#[derive(Debug, Clone, Copy, PartialEq, Eq, Structural)]
pub enum Error {
    /// `length` (or `n`, for the raw sampling seam) was `0` or exceeded the
    /// upper bound.
    InvalidLength {
        /// The rejected value.
        got: usize,
        /// The largest accepted value (inclusive).
        max: usize,
    },
    /// The platform has no secure random source available.
    NoSecureRandom,
}

/// The decimal digits, one string each.
const DIGITS: [&'static str; 10] = ["0", "1", "2", "3", "4", "5", "6", "7", "8", "9"];

/// The character of the decimal digit `d`.
pub open spec fn digit_char(d: nat) -> char {
    ('0' as u32 + d) as char
}

/// The decimal representation of `n`, without leading zeros.
pub open spec fn decimal(n: nat) -> Seq<char>
    decreases n,
{
    if n < 10 {
        seq![digit_char(n)]
    } else {
        decimal(n / 10).push(digit_char(n % 10))
    }
}

/// The human-readable description of `e`.
pub open spec fn error_text(e: Error) -> Seq<char> {
    match e {
        Error::InvalidLength { got, max } => "elemtok: length must be an integer in [1, "@ + decimal(
            max as nat,
        ) + "], got "@ + decimal(got as nat),
        Error::NoSecureRandom => "elemtok: no secure random source available"@,
    }
}

proof fn lemma_digits()
    ensures
        forall|d: int| 0 <= d < 10 ==> (#[trigger] DIGITS@[d])@ == seq![digit_char(d as nat)],
{
    reveal_strlit("0");
    reveal_strlit("1");
    reveal_strlit("2");
    reveal_strlit("3");
    reveal_strlit("4");
    reveal_strlit("5");
    reveal_strlit("6");
    reveal_strlit("7");
    reveal_strlit("8");
    reveal_strlit("9");
    assert(DIGITS@ == seq!["0", "1", "2", "3", "4", "5", "6", "7", "8", "9"]);
}

/// Appends the decimal representation of `n` to `s`.
fn push_decimal(s: &mut String, n: usize)
    ensures
        final(s)@ == old(s)@ + decimal(n as nat),
    decreases n,
{
    proof {
        lemma_digits();
    }
    if n >= 10 {
        push_decimal(s, n / 10);
    }
    let d: usize = n % 10;
    s.append(DIGITS[d]);
    assert(DIGITS@[d as int]@ == seq![digit_char(d as nat)]);
    if n >= 10 {
        assert(decimal(n as nat) == decimal((n / 10) as nat).push(digit_char((n % 10) as nat)));
        assert(old(s)@ + decimal((n / 10) as nat) + seq![digit_char(d as nat)] =~= old(s)@ + decimal(
            n as nat,
        ));
    } else {
        assert(old(s)@ + seq![digit_char(d as nat)] =~= old(s)@ + decimal(n as nat));
    }
}

impl Error {
    /// Describes the error in words, for display.
    pub fn to_string(&self) -> (r: String)
        ensures
            r@ == error_text(*self),
    {
        match self {
            Error::InvalidLength { got, max } => {
                let mut s = String::new();
                s.append("elemtok: length must be an integer in [1, ");
                push_decimal(&mut s, *max);
                s.append("], got ");
                push_decimal(&mut s, *got);
                assert(s@ =~= error_text(*self));
                s
            },
            Error::NoSecureRandom => {
                let mut s = String::new();
                s.append("elemtok: no secure random source available");
                assert(s@ =~= error_text(*self));
                s
            },
        }
    }
}

} // verus!
