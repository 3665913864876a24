//! The decimal numeral of an index.

use vstd::prelude::*;

verus! {

/// The character of one decimal digit.
pub open spec fn digit_char(d: nat) -> char {
    if d == 0 {
        '0'
    } else if d == 1 {
        '1'
    } else if d == 2 {
        '2'
    } else if d == 3 {
        '3'
    } else if d == 4 {
        '4'
    } else if d == 5 {
        '5'
    } else if d == 6 {
        '6'
    } else if d == 7 {
        '7'
    } else if d == 8 {
        '8'
    } else {
        '9'
    }
}

/// The decimal representation of `n`: most significant digit first, no leading zero,
/// no sign and no suffix.
pub open spec fn decimal(n: nat) -> Seq<char>
    decreases n,
{
    if n < 10 {
        seq![digit_char(n)]
    } else {
        decimal(n / 10).push(digit_char(n % 10))
    }
}

/// The text of the unsuffixed integer literal for `n`.
///
/// Trusted: calls `proc_macro2::Literal::usize_unsuffixed` and reads the token's text back.
/// The contract claims that this text is the plain decimal numeral of `n`.
#[verifier::external_body]
pub(crate) fn numeral(n: usize) -> (s: String)
    ensures
        s@ == decimal(n as nat),
{
    proc_macro2::Literal::usize_unsuffixed(n).to_string()
}

/// Different numbers have different numerals.
pub proof fn lemma_decimal_injective(a: nat, b: nat)
    ensures
        decimal(a) == decimal(b) ==> a == b,
    decreases a,
{
    if decimal(a) == decimal(b) {
        lemma_decimal_nonempty(a);
        lemma_decimal_nonempty(b);
        if a < 10 && b < 10 {
            assert(decimal(a)[0] == decimal(b)[0]);
        } else if a >= 10 && b >= 10 {
            let x = decimal(a / 10);
            let y = decimal(b / 10);
            assert(x.push(digit_char(a % 10)).len() == y.push(digit_char(b % 10)).len());
            assert(x.push(digit_char(a % 10)).last() == y.push(digit_char(b % 10)).last());
            assert(x =~= x.push(digit_char(a % 10)).drop_last());
            assert(y =~= y.push(digit_char(b % 10)).drop_last());
            lemma_decimal_injective(a / 10, b / 10);
        } else if a < 10 {
            lemma_decimal_nonempty(b / 10);
        } else {
            lemma_decimal_nonempty(a / 10);
        }
    }
}

/// A numeral has at least one digit.
pub proof fn lemma_decimal_nonempty(n: nat)
    ensures
        decimal(n).len() >= 1,
    decreases n,
{
    if n >= 10 {
        lemma_decimal_nonempty(n / 10);
    }
}

} // verus!
