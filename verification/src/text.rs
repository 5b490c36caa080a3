//! Rendering of the values that occur in error messages.

use vstd::prelude::*;

verus! {

/// The decimal digit of value `d`.
pub open spec fn digit_char(d: nat) -> char {
    ((48 + d) as u8) as char
}

/// The decimal numeral of `n`, without leading zeros.
pub open spec fn decimal(n: nat) -> Seq<char>
    decreases n,
{
    if n < 10 {
        seq![digit_char(n)]
    } else {
        decimal(n / 10).push(digit_char(n % 10))
    }
}

/// The number that a numeral stands for.
pub open spec fn numeral_value(numeral: Seq<char>) -> int
    decreases numeral.len(),
{
    if numeral.len() == 0 {
        0
    } else {
        10 * numeral_value(numeral.drop_last()) + (numeral.last() as int - '0' as int)
    }
}

/// A number is written in decimal digits without leading zeros, and is read back from them.
pub proof fn decimals_are_read_back(n: nat)
    ensures
        numeral_value(decimal(n)) == n,
        decimal(n).len() > 0,
        forall|i: int| 0 <= i < decimal(n).len() ==> '0' <= #[trigger] decimal(n)[i] <= '9',
        decimal(n)[0] == '0' ==> n == 0,
    decreases n,
{
    let numeral = decimal(n);
    if n >= 10 {
        decimals_are_read_back(n / 10);
        assert(numeral.drop_last() =~= decimal(n / 10));
        assert(numeral[0] == decimal(n / 10)[0]);
        assert forall|i: int| 0 <= i < numeral.len() implies '0' <= #[trigger] numeral[i]
            <= '9' by {
            if i < numeral.len() - 1 {
                assert(numeral[i] == decimal(n / 10)[i]);
            }
        }
    } else {
        assert(numeral.drop_last() =~= Seq::empty());
        assert(numeral_value(Seq::empty()) == 0);
    }
}

/// The one-character string for a decimal digit.
fn digit_str(d: u64) -> (r: &'static str)
    requires
        d < 10,
    ensures
        r@ == seq![digit_char(d as nat)],
{
    proof {
        reveal_strlit("0");
        reveal_strlit("1");
        reveal_strlit("2");
        reveal_strlit("3");
        reveal_strlit("4");
        reveal_strlit("5");
        reveal_strlit("6");
        reveal_strlit("7");
        reveal_strlit("8");
        reveal_strlit("9");
    }
    let r = if d == 0 {
        "0"
    } else if d == 1 {
        "1"
    } else if d == 2 {
        "2"
    } else if d == 3 {
        "3"
    } else if d == 4 {
        "4"
    } else if d == 5 {
        "5"
    } else if d == 6 {
        "6"
    } else if d == 7 {
        "7"
    } else if d == 8 {
        "8"
    } else {
        "9"
    };
    assert(r@ =~= seq![digit_char(d as nat)]);
    r
}

/// Renders `n` in decimal.
pub fn decimal_text(n: u64) -> (r: String)
    ensures
        r@ == decimal(n as nat),
    decreases n,
{
    if n < 10 {
        let s = digit_str(n).to_owned();
        s
    } else {
        let mut s = decimal_text(n / 10);
        s.append(digit_str(n % 10));
        assert(s@ =~= decimal(n as nat));
        s
    }
}

/// How the standard library renders a string between quotes, with its special characters
/// escaped.
pub uninterp spec fn quoted(s: Seq<char>) -> Seq<char>;

/// Renders `s` between quotes, by the `Debug` of [`str`] through [`std::fmt::format`].
///
/// The contract names the result: it is the same for the same characters. Which characters are
/// escaped, and how, is not stated.
#[verifier::external_body]
pub(crate) fn quoted_text(s: &str) -> (r: String)
    ensures
        r@ == quoted(s@),
{
    format!("{:?}", s)
}

} // verus!
