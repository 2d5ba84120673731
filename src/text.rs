use vstd::prelude::*;

verus! {

/// The decimal digit `d` (0 to 9) as a character.
pub open spec fn digit_char(d: nat) -> char {
    seq!['0', '1', '2', '3', '4', '5', '6', '7', '8', '9'][d as int]
}

/// `n` in decimal, without leading zeros.
pub open spec fn decimal(n: nat) -> Seq<char>
    decreases n,
{
    if n < 10 {
        seq![digit_char(n)]
    } else {
        decimal(n / 10).push(digit_char(n % 10))
    }
}

/// `n` in decimal, with a leading `-` when negative.
pub open spec fn int_text(n: int) -> Seq<char> {
    if n < 0 {
        seq!['-'] + decimal((-n) as nat)
    } else {
        decimal(n as nat)
    }
}

/// Relies on `format!` and the `Display` impl of `i128`: the prefix followed by
/// the number in decimal, `-` first when negative.
#[verifier::external_body]
pub(crate) fn numbered(prefix: &str, n: i128) -> (r: String)
    ensures
        r@ == prefix@ + int_text(n as int),
{
    format!("{}{}", prefix, n)
}

} // verus!
