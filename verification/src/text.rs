//! Text forms of numbers and byte strings, for labels.

use vstd::prelude::*;
use vstd::string::StringExecFns;

verus! {

/// The sixteen digits of lower-case hexadecimal, in order. The first ten
/// are the decimal digits.
pub open spec fn digit_chars() -> Seq<char> {
    seq!['0', '1', '2', '3', '4', '5', '6', '7', '8', '9', 'a', 'b', 'c', 'd', 'e', 'f']
}

/// The lower-case hexadecimal form of a byte string: two digits per byte,
/// the high half first.
pub open spec fn hex_encoding(bytes: Seq<u8>) -> Seq<char> {
    Seq::new(
        2 * bytes.len(),
        |i: int|
            if i % 2 == 0 {
                digit_chars()[bytes[i / 2] as int / 16]
            } else {
                digit_chars()[bytes[i / 2] as int % 16]
            },
    )
}

/// The decimal form of a number below 256, without leading zeros.
pub open spec fn decimal(n: u8) -> Seq<char> {
    if n < 10 {
        seq![digit_chars()[n as int]]
    } else if n < 100 {
        seq![digit_chars()[n as int / 10], digit_chars()[n as int % 10]]
    } else {
        seq![
            digit_chars()[n as int / 100],
            digit_chars()[n as int / 10 % 10],
            digit_chars()[n as int % 10],
        ]
    }
}

/// Encodes bytes as hexadecimal text with `hex::encode`.
///
/// Trusted: the result has two lower-case hexadecimal digits for every byte,
/// in the order of the bytes and with the high half of each byte first. The
/// text is built in one piece, so twice the input's length has to fit an
/// allocation.
#[verifier::external_body]
pub(crate) fn hex_encode(data: &[u8]) -> (text: String)
    requires
        2 * data@.len() <= isize::MAX,
    ensures
        text@ == hex_encoding(data@),
{
    hex::encode(data)
}

/// The text of one decimal digit.
fn digit_text(digit: u8) -> (text: &'static str)
    requires
        digit < 10,
    ensures
        text@ == seq![digit_chars()[digit as int]],
{
    proof {
        reveal_strlit("0");
        reveal_strlit("1");
        reveal_strlit("2");
        reveal_strlit("3");
        reveal_strlit("4");
        reveal_strlit("5");
        reveal_strlit("6");
        reveal_strlit("7");
        reveal_strlit("8");
        reveal_strlit("9");
    }
    let text = match digit {
        0 => "0",
        1 => "1",
        2 => "2",
        3 => "3",
        4 => "4",
        5 => "5",
        6 => "6",
        7 => "7",
        8 => "8",
        _ => "9",
    };
    assert(text@ =~= seq![digit_chars()[digit as int]]);
    text
}

/// Appends the decimal form of `n` to `text`.
pub(crate) fn append_decimal(text: &mut String, n: u8)
    ensures
        final(text)@ == old(text)@ + decimal(n),
{
    if n >= 100 {
        text.append(digit_text(n / 100));
    }
    if n >= 10 {
        text.append(digit_text(n / 10 % 10));
    }
    text.append(digit_text(n % 10));
    assert(text@ =~= old(text)@ + decimal(n));
}

} // verus!
