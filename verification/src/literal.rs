//! Reading the text of a literal token as an integer.
//!
//! Whether a text is an integer literal, and which digits it has in base ten, is decided
//! by syn. What syn answers can depend on more than the text: inside a macro expansion
//! the compiler lexes it, elsewhere the lexer of proc-macro2 does. So the result has no
//! name, and only two things are stated of it. A text with an opening bracket is never
//! handed to syn and is no integer. A text of decimal digits alone is read as the number
//! it writes. Of every other text the reading is open, and every function that rests on
//! a reading is stated for all readings that a text admits.

use vstd::prelude::*;
use vstd::string::StrSliceExecFns;

verus! {

/// What the text of a literal token was read as.
#[derive(Clone, Copy, Debug, PartialEq, Eq, Structural)]
pub enum Reading {
    /// The text is no integer literal.
    NotInteger,
    /// The text is an integer literal whose value is no index: negative, or too large.
    OutOfRange,
    /// The text is an integer literal with this value.
    Value(usize),
}

impl Reading {
    /// The index that was read, if one was read.
    pub open spec fn index(self) -> Option<usize> {
        match self {
            Reading::Value(v) => Some(v),
            _ => None,
        }
    }
}

/// One of the three opening brackets.
pub open spec fn is_opening_bracket(c: char) -> bool {
    c == '(' || c == '[' || c == '{'
}

/// The text holds no opening bracket. The text of an integer literal never holds one.
pub open spec fn bracket_free(text: Seq<char>) -> bool {
    forall|i: int| 0 <= i < text.len() ==> !is_opening_bracket(#[trigger] text[i])
}

/// The value of a decimal digit; `None` for any other character.
pub open spec fn digit_value(c: char) -> Option<nat> {
    if c == '0' {
        Some(0)
    } else if c == '1' {
        Some(1)
    } else if c == '2' {
        Some(2)
    } else if c == '3' {
        Some(3)
    } else if c == '4' {
        Some(4)
    } else if c == '5' {
        Some(5)
    } else if c == '6' {
        Some(6)
    } else if c == '7' {
        Some(7)
    } else if c == '8' {
        Some(8)
    } else if c == '9' {
        Some(9)
    } else {
        None
    }
}

/// The text is one or more decimal digits and nothing else.
pub open spec fn is_decimal(text: Seq<char>) -> bool {
    &&& text.len() > 0
    &&& forall|i: int| 0 <= i < text.len() ==> digit_value(#[trigger] text[i]) is Some
}

/// The number that a text of decimal digits writes, most significant digit first.
pub open spec fn number(text: Seq<char>) -> nat
    decreases text.len(),
{
    if text.len() == 0 {
        0
    } else {
        number(text.drop_last()) * 10 + match digit_value(text.last()) {
            Some(d) => d,
            None => 0,
        }
    }
}

/// The reading of a number: its value where it is an index on this machine.
pub open spec fn reading_of_number(n: nat) -> Reading {
    if n <= usize::MAX {
        Reading::Value(n as usize)
    } else {
        Reading::OutOfRange
    }
}

/// What is known of the reading of a text: with an opening bracket it is no integer, and
/// decimal digits alone are read as the number they write. Any other text admits every
/// reading.
pub open spec fn admits(text: Seq<char>, reading: Reading) -> bool {
    &&& !bracket_free(text) ==> reading is NotInteger
    &&& is_decimal(text) ==> reading == reading_of_number(number(text))
}

/// The base-ten digits of `text` read as one integer literal; `None` where it is none.
///
/// Trusted: calls `syn::parse_str::<syn::LitInt>` and hands out the literal's
/// `base10_digits`. The contract claims one thing: a text of decimal digits alone is an
/// integer literal, and its digits write the same number, leading zeros apart. A text
/// with brackets is kept out, because syn walks nested brackets by recursion.
#[verifier::external_body]
fn literal_digits(text: &str) -> (r: Option<String>)
    requires
        bracket_free(text@),
    ensures
        is_decimal(text@) ==> r is Some && is_decimal(r->Some_0@) && number(r->Some_0@) == number(
            text@,
        ),
{
    match syn::parse_str::<syn::LitInt>(text) {
        Ok(literal) => Some(literal.base10_digits().to_string()),
        Err(_) => None,
    }
}

/// Whether `text` holds no opening bracket.
pub fn is_bracket_free(text: &str) -> (b: bool)
    ensures
        b == bracket_free(text@),
{
    let n = text.unicode_len();
    let mut i: usize = 0;
    while i < n
        invariant
            i <= n,
            n == text@.len(),
            forall|k: int| 0 <= k < i ==> !is_opening_bracket(#[trigger] text@[k]),
        decreases n - i,
    {
        let c = text.get_char(i);
        if c == '(' || c == '[' || c == '{' {
            return false;
        }
        i += 1;
    }
    true
}

/// The value of the decimal digit `c`.
fn digit_of(c: char) -> (r: Option<u8>)
    ensures
        match r {
            Some(d) => digit_value(c) == Some(d as nat),
            None => digit_value(c) is None,
        },
{
    if c == '0' {
        Some(0)
    } else if c == '1' {
        Some(1)
    } else if c == '2' {
        Some(2)
    } else if c == '3' {
        Some(3)
    } else if c == '4' {
        Some(4)
    } else if c == '5' {
        Some(5)
    } else if c == '6' {
        Some(6)
    } else if c == '7' {
        Some(7)
    } else if c == '8' {
        Some(8)
    } else if c == '9' {
        Some(9)
    } else {
        None
    }
}

/// A longer start of a text writes no smaller number.
pub proof fn lemma_number_grows(text: Seq<char>, i: int, j: int)
    requires
        0 <= i <= j <= text.len(),
    ensures
        number(text.take(i)) <= number(text.take(j)),
    decreases j - i,
{
    if i < j {
        lemma_number_grows(text, i, j - 1);
        assert(text.take(j).drop_last() =~= text.take(j - 1));
    }
}

/// The index that base-ten digits write.
///
/// `None` where the text is not decimal digits alone - such as the digits of a negative
/// literal, which start with `-` - or where the number is too large for an index.
pub fn digits_index(digits: &str) -> (r: Option<usize>)
    ensures
        r == if is_decimal(digits@) && number(digits@) <= usize::MAX {
            Some(number(digits@) as usize)
        } else {
            None
        },
{
    let n = digits.unicode_len();
    if n == 0 {
        return None;
    }
    let mut acc: usize = 0;
    let mut i: usize = 0;
    while i < n
        invariant
            i <= n,
            n == digits@.len(),
            forall|k: int| 0 <= k < i ==> digit_value(#[trigger] digits@[k]) is Some,
            acc == number(digits@.take(i as int)),
        decreases n - i,
    {
        let c = digits.get_char(i);
        proof {
            assert(digits@.take(i + 1).drop_last() =~= digits@.take(i as int));
            assert(digits@.take(i + 1).last() == c);
        }
        match digit_of(c) {
            None => {
                return None;
            },
            Some(d) => {
                let d: usize = d as usize;
                if acc > (usize::MAX - d) / 10 {
                    proof {
                        lemma_number_grows(digits@, i + 1, n as int);
                        assert(digits@.take(n as int) =~= digits@);
                    }
                    return None;
                }
                acc = acc * 10 + d;
            },
        }
        i += 1;
    }
    assert(digits@.take(n as int) =~= digits@);
    Some(acc)
}

/// Reads the text of a literal token as an index.
///
/// A text with an opening bracket is no integer literal. Of any other text syn decides
/// whether it is one and which digits it has; digits that write no index on this machine
/// are out of range. A text of decimal digits alone is read as the number it writes.
pub fn read_integer(text: &str) -> (r: Reading)
    ensures
        admits(text@, r),
{
    if !is_bracket_free(text) {
        return Reading::NotInteger;
    }
    match literal_digits(text) {
        None => Reading::NotInteger,
        Some(digits) => match digits_index(digits.as_str()) {
            Some(v) => Reading::Value(v),
            None => Reading::OutOfRange,
        },
    }
}

} // verus!
