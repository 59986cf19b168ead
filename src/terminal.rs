use vstd::prelude::*;

verus! {

/// The decimal digit with value `d`.
pub open spec fn digit_char(d: nat) -> char {
    seq!['0', '1', '2', '3', '4', '5', '6', '7', '8', '9'][d as int]
}

/// The decimal representation of `n`, without leading zeros.
pub open spec fn decimal(n: nat) -> Seq<char>
    decreases n,
{
    if n < 10 {
        seq![digit_char(n)]
    } else {
        decimal(n / 10).push(digit_char(n % 10))
    }
}

/// The escape sequence that moves the cursor to column `col` and row `row`
/// (both one-based): ESC `[` row `;` col `H`.
pub open spec fn goto_text(col: u16, row: u16) -> Seq<char> {
    seq!['\x1b', '['] + decimal(row as nat) + seq![';'] + decimal(col as nat) + seq!['H']
}

/// The escape sequence that clears the whole screen.
pub open spec fn clear_text() -> Seq<char> {
    seq!['\x1b', '[', '2', 'J']
}

/// The lossy UTF-8 decoding of `b`: invalid sequences become U+FFFD.
pub uninterp spec fn lossy_text(b: Seq<u8>) -> Seq<char>;

/// Relies on the `Display` impl of termion's `cursor::Goto`, which writes
/// `"\x1B[{row};{col}H"` and debug-asserts that the position is not (0, 0).
#[verifier::external_body]
pub(crate) fn goto(col: u16, row: u16) -> (r: Vec<char>)
    requires
        col != 0 || row != 0,
    ensures
        r@ == goto_text(col, row),
{
    format!("{}", termion::cursor::Goto(col, row)).chars().collect()
}

/// Relies on the `Display` impl of termion's `clear::All`, which writes `"\x1B[2J"`.
#[verifier::external_body]
pub(crate) fn clear_all() -> (r: Vec<char>)
    ensures
        r@ == clear_text(),
{
    format!("{}", termion::clear::All).chars().collect()
}

/// Relies on `String::from_utf8_lossy`: the characters depend on the bytes alone.
#[verifier::external_body]
pub(crate) fn decode_lossy(b: &[u8]) -> (r: Vec<char>)
    ensures
        r@ == lossy_text(b@),
        b@.len() == 0 ==> r@.len() == 0,
{
    String::from_utf8_lossy(b).chars().collect()
}

} // verus!
