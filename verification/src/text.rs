//! Text forms: an identity in hexadecimal, a number in decimal, and blank
//! strings.

use vstd::prelude::*;
use vstd::arithmetic::power::pow;
use crate::types::Identity;

verus! {

/// The sixteen hexadecimal digits, lower case.
pub open spec fn hex_digits() -> Seq<char> {
    seq!['0', '1', '2', '3', '4', '5', '6', '7', '8', '9', 'a', 'b', 'c', 'd', 'e', 'f']
}

/// The `k`-th of the 32 hexadecimal digits of a 128-bit word, counted from
/// the most significant one.
pub open spec fn nibble(word: u128, k: int) -> int {
    (word as int / pow(16, (31 - k) as nat)) % 16
}

/// An identity as 64 lower-case hexadecimal digits, most significant first.
pub open spec fn identity_hex(id: Identity) -> Seq<char> {
    Seq::new(
        64,
        |k: int|
            hex_digits()[if k < 32 {
                nibble(id.hi, k)
            } else {
                nibble(id.lo, k - 32)
            }],
    )
}

/// The hexadecimal text of an identity, from `spacetimedb::Identity::to_hex`
/// on the identity with this 256-bit value. Trusted: that the text is the 64
/// lower-case hexadecimal digits of the value in big-endian order.
#[verifier::external_body]
pub(crate) fn identity_to_hex(id: Identity) -> (text: String)
    ensures
        text@ == identity_hex(id),
{
    let value = spacetimedb::sats::u256::from_words(id.hi, id.lo);
    spacetimedb::Identity::from_u256(value).to_hex().as_str().to_string()
}

/// The ten decimal digits.
pub open spec fn decimal_digits() -> Seq<char> {
    seq!['0', '1', '2', '3', '4', '5', '6', '7', '8', '9']
}

/// A number in decimal, without leading zeros.
pub open spec fn decimal_text(n: nat) -> Seq<char>
    decreases n,
{
    if n < 10 {
        seq![decimal_digits()[n as int]]
    } else {
        decimal_text(n / 10).push(decimal_digits()[(n % 10) as int])
    }
}

/// The number a decimal digit stands for.
pub open spec fn digit_value(c: char) -> nat {
    if c == '1' {
        1
    } else if c == '2' {
        2
    } else if c == '3' {
        3
    } else if c == '4' {
        4
    } else if c == '5' {
        5
    } else if c == '6' {
        6
    } else if c == '7' {
        7
    } else if c == '8' {
        8
    } else if c == '9' {
        9
    } else {
        0
    }
}

/// The number a text of decimal digits stands for.
pub open spec fn decimal_value(text: Seq<char>) -> nat
    decreases text.len(),
{
    if text.len() == 0 {
        0
    } else {
        decimal_value(text.drop_last()) * 10 + digit_value(text.last())
    }
}

/// Reading the decimal text of a number gives the number back, so different
/// numbers have different texts. The text is never empty.
pub proof fn lemma_decimal_round_trip(n: nat)
    ensures
        decimal_value(decimal_text(n)) == n,
        decimal_text(n).len() >= 1,
    decreases n,
{
    let digit = decimal_digits()[(n % 10) as int];
    assert(digit_value(digit) == n % 10);
    if n < 10 {
        let text = seq![digit];
        assert(text.drop_last() =~= Seq::<char>::empty());
        assert(decimal_value(text.drop_last()) == 0);
        assert(text.last() == digit);
    } else {
        lemma_decimal_round_trip(n / 10);
        let text = decimal_text(n / 10).push(digit);
        assert(text.drop_last() =~= decimal_text(n / 10));
        assert(text.last() == digit);
    }
}

fn digit_text(d: u64) -> (text: &'static str)
    requires
        d < 10,
    ensures
        text@ == seq![decimal_digits()[d as int]],
{
    proof {
        reveal_strlit("0");
        reveal_strlit("1");
        reveal_strlit("2");
        reveal_strlit("3");
        reveal_strlit("4");
        reveal_strlit("5");
        reveal_strlit("6");
        reveal_strlit("7");
        reveal_strlit("8");
        reveal_strlit("9");
    }
    let text = if d == 0 {
        "0"
    } else if d == 1 {
        "1"
    } else if d == 2 {
        "2"
    } else if d == 3 {
        "3"
    } else if d == 4 {
        "4"
    } else if d == 5 {
        "5"
    } else if d == 6 {
        "6"
    } else if d == 7 {
        "7"
    } else if d == 8 {
        "8"
    } else {
        "9"
    };
    assert(text@ =~= seq![decimal_digits()[d as int]]);
    text
}

/// Writes a number in decimal.
pub fn decimal(n: u64) -> (text: String)
    ensures
        text@ == decimal_text(n as nat),
    decreases n,
{
    if n < 10 {
        String::from_str(digit_text(n))
    } else {
        let text = decimal(n / 10).concat(digit_text(n % 10));
        assert(text@ =~= decimal_text(n as nat));
        text
    }
}

/// What is left of a text once the white space at both ends is taken off.
pub uninterp spec fn trimmed(text: Seq<char>) -> Seq<char>;

/// A text is blank when nothing but white space is in it.
pub open spec fn blank(text: Seq<char>) -> bool {
    trimmed(text).len() == 0
}

/// `str::trim`: the slice without leading and trailing white space. Trusted:
/// that the result depends on the text alone and is not longer than it.
#[verifier::external_body]
pub(crate) fn trim(text: &str) -> (inner: &str)
    ensures
        inner@ == trimmed(text@),
        inner@.len() <= text@.len(),
{
    text.trim()
}

/// Whether a text is empty or holds white space only.
pub fn is_blank(text: &str) -> (b: bool)
    ensures
        b == blank(text@),
        text@.len() == 0 ==> b,
{
    trim(text).is_empty()
}

} // verus!
