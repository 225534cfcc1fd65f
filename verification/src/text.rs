//! Small things on texts: comparing, searching, writing a number.

use crate::builder::{builder_chars, builder_push};
use rstring_builder::StringBuilder;
use vstd::prelude::*;
use vstd::utf8::{decode_utf8, valid_utf8};

verus! {

/// `str`'s `==`: two string slices are equal when they hold the same characters in the
/// same order.
pub assume_specification[ <str as PartialEq>::eq ](a: &str, b: &str) -> (same: bool)
    ensures
        same == (a@ == b@),
;

/// Whether `part` stands somewhere in `text`, character for character.
pub open spec fn holds(text: Seq<char>, part: Seq<char>) -> bool {
    exists|at: int|
        0 <= at && at + part.len() <= text.len() && #[trigger] text.subrange(
            at,
            at + part.len(),
        ) == part
}

/// `str::contains`, called with a string slice as the pattern: whether the pattern
/// matches a part of the text.
#[verifier::external_body]
pub(crate) fn text_holds(text: &str, part: &str) -> (found: bool)
    ensures
        found == holds(text@, part@),
{
    text.contains(part)
}

/// The text that bytes are read as when every stretch of them that is no UTF-8 gives way
/// to the replacement character.
pub uninterp spec fn lossy_of(bytes: Seq<u8>) -> Seq<char>;

/// `String::from_utf8_lossy`, its result owned: the text that the bytes are read as, which
/// for bytes that are UTF-8 is the text that they encode.
#[verifier::external_body]
pub(crate) fn text_lossy(bytes: &[u8]) -> (text: String)
    ensures
        text@ == lossy_of(bytes@),
        valid_utf8(bytes@) ==> text@ == decode_utf8(bytes@),
{
    String::from_utf8_lossy(bytes).into_owned()
}

/// The character that writes a number below ten.
pub open spec fn digit_char(d: nat) -> char {
    if d == 0 {
        '0'
    } else if d == 1 {
        '1'
    } else if d == 2 {
        '2'
    } else if d == 3 {
        '3'
    } else if d == 4 {
        '4'
    } else if d == 5 {
        '5'
    } else if d == 6 {
        '6'
    } else if d == 7 {
        '7'
    } else if d == 8 {
        '8'
    } else {
        '9'
    }
}

/// The decimal digits of a number, without leading zeros.
pub open spec fn digits_of(n: nat) -> Seq<char>
    decreases n,
{
    if n < 10 {
        seq![digit_char(n)]
    } else {
        digits_of(n / 10).push(digit_char(n % 10))
    }
}

/// A number as it is written in decimal, with a `-` before a negative one.
pub open spec fn decimal_of(n: int) -> Seq<char> {
    if n < 0 {
        seq!['-'] + digits_of((-n) as nat)
    } else {
        digits_of(n as nat)
    }
}

/// Adds the decimal digits of `n` to the buffer.
fn push_digits(builder: &mut StringBuilder, n: u32)
    ensures
        builder_chars(*final(builder)) == builder_chars(*old(builder)) + digits_of(n as nat),
    decreases n,
{
    if n >= 10 {
        push_digits(builder, n / 10);
    }
    let ghost before = builder_chars(*builder);
    let d = n % 10;
    let ch = if d == 0 {
        '0'
    } else if d == 1 {
        '1'
    } else if d == 2 {
        '2'
    } else if d == 3 {
        '3'
    } else if d == 4 {
        '4'
    } else if d == 5 {
        '5'
    } else if d == 6 {
        '6'
    } else if d == 7 {
        '7'
    } else if d == 8 {
        '8'
    } else {
        '9'
    };
    builder_push(builder, ch);
    assert(before.push(ch) =~= builder_chars(*old(builder)) + digits_of(n as nat));
}

/// Writes a number in decimal.
pub fn decimal(n: i32) -> (text: String)
    ensures
        text@ == decimal_of(n as int),
{
    let mut builder = StringBuilder::new();
    if n < 0 {
        builder_push(&mut builder, '-');
        let size: u32 = if n == i32::MIN {
            0x8000_0000
        } else {
            (-n) as u32
        };
        push_digits(&mut builder, size);
    } else {
        push_digits(&mut builder, n as u32);
        assert(Seq::<char>::empty() + digits_of(n as nat) =~= digits_of(n as nat));
    }
    assert(Seq::<char>::empty().push('-') =~= seq!['-']);
    builder.string()
}

} // verus!
