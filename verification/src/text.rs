//! Text the library produces: numerals, and the comparisons it needs on strings.

use vstd::prelude::*;
use vstd::string::*;

verus! {

/// One decimal digit.
pub open spec fn digit_text(digit: nat) -> Seq<char> {
    if digit == 0 {
        "0"@
    } else if digit == 1 {
        "1"@
    } else if digit == 2 {
        "2"@
    } else if digit == 3 {
        "3"@
    } else if digit == 4 {
        "4"@
    } else if digit == 5 {
        "5"@
    } else if digit == 6 {
        "6"@
    } else if digit == 7 {
        "7"@
    } else if digit == 8 {
        "8"@
    } else {
        "9"@
    }
}

/// The decimal numeral of a natural number, without leading zeroes.
pub open spec fn nat_text(n: nat) -> Seq<char>
    decreases n,
{
    if n < 10 {
        digit_text(n)
    } else {
        nat_text(n / 10) + digit_text(n % 10)
    }
}

/// The decimal numeral of an integer.
pub open spec fn int_text(n: int) -> Seq<char> {
    if n < 0 {
        "-"@ + nat_text((-n) as nat)
    } else {
        nat_text(n as nat)
    }
}

/// How a truth value is written.
pub open spec fn bool_text(b: bool) -> Seq<char> {
    if b {
        "true"@
    } else {
        "false"@
    }
}

fn digit_str(digit: u128) -> (r: &'static str)
    requires
        digit < 10,
    ensures
        r@ == digit_text(digit as nat),
{
    match digit {
        0 => "0",
        1 => "1",
        2 => "2",
        3 => "3",
        4 => "4",
        5 => "5",
        6 => "6",
        7 => "7",
        8 => "8",
        _ => "9",
    }
}

/// The decimal numeral of a non-negative number.
pub fn wide_text(n: u128) -> (r: String)
    ensures
        r@ == nat_text(n as nat),
    decreases n,
{
    if n < 10 {
        digit_str(n).to_owned()
    } else {
        wide_text(n / 10).concat(digit_str(n % 10))
    }
}

/// The decimal numeral of a `u64`.
pub fn number_text(n: u64) -> (r: String)
    ensures
        r@ == nat_text(n as nat),
{
    wide_text(n as u128)
}

/// The decimal numeral of a `usize`.
pub fn count_text(n: usize) -> (r: String)
    ensures
        r@ == nat_text(n as nat),
{
    wide_text(n as u128)
}

/// The decimal numeral of an `i64`.
pub fn signed_text(n: i64) -> (r: String)
    ensures
        r@ == int_text(n as int),
{
    if n < 0 {
        "-".to_owned().concat(wide_text((-(n as i128)) as u128).as_str())
    } else {
        wide_text(n as u128)
    }
}

/// How a truth value is written.
pub fn flag_text(b: bool) -> (r: &'static str)
    ensures
        r@ == bool_text(b),
{
    if b {
        "true"
    } else {
        "false"
    }
}

/// Whether two strings hold the same characters.
pub fn same_text(a: &str, b: &str) -> (r: bool)
    ensures
        r == (a@ == b@),
{
    a.to_owned() == b.to_owned()
}

/// What `Debug` prints for a string: the characters in quotes, escaped.
pub uninterp spec fn quoted_text(s: Seq<char>) -> Seq<char>;

/// Calls `std`'s `Debug` for `str`. The contract names the result, which is a
/// function of the characters alone, and says nothing of how it escapes them.
#[verifier::external_body]
pub(crate) fn quoted(s: &str) -> (r: String)
    ensures
        r@ == quoted_text(s@),
{
    format!("{s:?}")
}

/// How `Debug` prints a list of bytes from position `from` on, after the bracket.
pub open spec fn bytes_tail_text(bytes: Seq<u8>, from: int) -> Seq<char>
    decreases bytes.len() - from,
{
    if from >= bytes.len() {
        "]"@
    } else if from == 0 {
        nat_text(bytes[0] as nat) + bytes_tail_text(bytes, 1)
    } else {
        ", "@ + nat_text(bytes[from] as nat) + bytes_tail_text(bytes, from + 1)
    }
}

/// How `Debug` prints a list of bytes: `[1, 2, 3]`.
pub open spec fn bytes_text(bytes: Seq<u8>) -> Seq<char> {
    "["@ + bytes_tail_text(bytes, 0)
}

/// A list of bytes in brackets, the way `Debug` prints it.
pub fn byte_list(bytes: &[u8]) -> (r: String)
    ensures
        r@ == bytes_text(bytes@),
{
    let mut i: usize = bytes.len();
    let mut tail = "]".to_owned();
    while i > 0
        invariant
            i <= bytes.len(),
            tail@ == bytes_tail_text(bytes@, i as int),
        decreases i,
    {
        i = i - 1;
        let numeral = wide_text(bytes[i] as u128);
        if i == 0 {
            tail = numeral.concat(tail.as_str());
        } else {
            tail = ", ".to_owned().concat(numeral.as_str()).concat(tail.as_str());
        }
    }
    "[".to_owned().concat(tail.as_str())
}

} // verus!
