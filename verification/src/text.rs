//! Text helpers: lossy decoding, trimming and decimal rendering.

use vstd::prelude::*;
use vstd::string::{StrSliceExecFns, StringExecFns};
use vstd::utf8::{decode_utf8, valid_utf8};

verus! {

/// The text that lossy UTF-8 decoding makes of bytes that are not well-formed
/// UTF-8: what is valid is kept, and each ill-formed stretch becomes a
/// replacement character.
pub uninterp spec fn replaced_text(bytes: Seq<u8>) -> Seq<char>;

/// The text that lossy UTF-8 decoding makes of `bytes`: their decoding where
/// they are well-formed, and `replaced_text` otherwise.
pub open spec fn lossy_text(bytes: Seq<u8>) -> Seq<char> {
    if valid_utf8(bytes) {
        decode_utf8(bytes)
    } else {
        replaced_text(bytes)
    }
}

/// `text` without the run of `c` that it ends in.
pub open spec fn trim_end(text: Seq<char>, c: char) -> Seq<char>
    decreases text.len(),
{
    if text.len() > 0 && text.last() == c {
        trim_end(text.drop_last(), c)
    } else {
        text
    }
}

/// The number that `text` is the decimal notation of, as `str::parse` reads
/// it for `u64`; `None` where it reads none.
pub uninterp spec fn parsed_number(text: Seq<char>) -> Option<u64>;

/// Calls `str::parse` for `u64` and drops the error. Believed, not proved:
/// the result is a function of the text alone, and the decimal notation of a
/// number without leading zeros reads as that number.
#[verifier::external_body]
pub(crate) fn parse_number(text: &str) -> (number: Option<u64>)
    ensures
        number == parsed_number(text@),
        forall|n: u64| text@ == #[trigger] decimal_text(n as nat) ==> number == Some(n),
{
    text.parse::<u64>().ok()
}

/// Calls `String::from_utf8_lossy` and takes ownership of what it returns.
/// Believed, not proved: well-formed UTF-8 is decoded as it stands, and the
/// result for other bytes is a function of the bytes alone.
#[verifier::external_body]
pub(crate) fn decode_lossy(bytes: &[u8]) -> (text: String)
    ensures
        valid_utf8(bytes@) ==> text@ == decode_utf8(bytes@),
        !valid_utf8(bytes@) ==> text@ == replaced_text(bytes@),
{
    String::from_utf8_lossy(bytes).into_owned()
}

/// Calls `str::trim_end_matches` with a single character as the pattern.
/// Believed, not proved: the result is the input without its trailing run of
/// that character.
#[verifier::external_body]
pub(crate) fn trim_end_char<'a>(text: &'a str, c: char) -> (trimmed: &'a str)
    ensures
        trimmed@ == trim_end(text@, c),
{
    text.trim_end_matches(c)
}

/// The text of a byte field that is padded with zero bytes: decoded lossily,
/// then freed of the NUL characters at its end.
pub open spec fn nul_trimmed_text(bytes: Seq<u8>) -> Seq<char> {
    trim_end(lossy_text(bytes), '\0')
}

/// Decodes a zero-padded byte field into text.
pub fn text_of_padded(bytes: &[u8]) -> (text: String)
    ensures
        text@ == nul_trimmed_text(bytes@),
{
    let decoded = decode_lossy(bytes);
    let trimmed = trim_end_char(decoded.as_str(), '\0');
    String::from_str(trimmed)
}

/// The character of a decimal digit; digits above nine read as nine.
pub open spec fn digit_char(digit: nat) -> char {
    if digit == 0 {
        '0'
    } else if digit == 1 {
        '1'
    } else if digit == 2 {
        '2'
    } else if digit == 3 {
        '3'
    } else if digit == 4 {
        '4'
    } else if digit == 5 {
        '5'
    } else if digit == 6 {
        '6'
    } else if digit == 7 {
        '7'
    } else if digit == 8 {
        '8'
    } else {
        '9'
    }
}

/// `number` in decimal, without leading zeros.
pub open spec fn decimal_text(number: nat) -> Seq<char>
    decreases number,
{
    if number < 10 {
        seq![digit_char(number)]
    } else {
        decimal_text(number / 10).push(digit_char(number % 10))
    }
}

/// `number` in decimal, with a minus sign where it is negative.
pub open spec fn signed_decimal_text(number: int) -> Seq<char> {
    if number < 0 {
        seq!['-'] + decimal_text((-number) as nat)
    } else {
        decimal_text(number as nat)
    }
}

/// `count` times the character `fill`.
pub open spec fn repeated(fill: char, count: nat) -> Seq<char> {
    Seq::new(count, |i: int| fill)
}

/// `text` moved to the right end of a field of `width` characters, with
/// `fill` before it; a longer text stays as it is.
pub open spec fn pad_start(text: Seq<char>, width: nat, fill: char) -> Seq<char> {
    if text.len() >= width {
        text
    } else {
        repeated(fill, (width - text.len()) as nat) + text
    }
}

/// `text` at the left end of a field of `width` characters, with `fill`
/// after it; a longer text stays as it is.
pub open spec fn pad_end(text: Seq<char>, width: nat, fill: char) -> Seq<char> {
    if text.len() >= width {
        text
    } else {
        text + repeated(fill, (width - text.len()) as nat)
    }
}

/// A decimal digit as a string.
fn digit_str(digit: u8) -> (text: &'static str)
    requires
        digit < 10,
    ensures
        text@ == seq![digit_char(digit as nat)],
{
    proof {
        reveal_strlit("0");
        reveal_strlit("1");
        reveal_strlit("2");
        reveal_strlit("3");
        reveal_strlit("4");
        reveal_strlit("5");
        reveal_strlit("6");
        reveal_strlit("7");
        reveal_strlit("8");
        reveal_strlit("9");
    }
    let text = if digit == 0 {
        "0"
    } else if digit == 1 {
        "1"
    } else if digit == 2 {
        "2"
    } else if digit == 3 {
        "3"
    } else if digit == 4 {
        "4"
    } else if digit == 5 {
        "5"
    } else if digit == 6 {
        "6"
    } else if digit == 7 {
        "7"
    } else if digit == 8 {
        "8"
    } else {
        "9"
    };
    assert(text@ =~= seq![digit_char(digit as nat)]);
    text
}

/// The number of digits of `number` in decimal.
pub fn decimal_len(number: u64) -> (len: usize)
    ensures
        len == decimal_text(number as nat).len(),
        1 <= len <= 20,
    decreases number,
{
    if number < 10 {
        1
    } else {
        let rest = decimal_len(number / 10);
        proof {
            lemma_decimal_len_bound(number as nat);
        }
        rest + 1
    }
}

/// A number below ten to the power of `digits` has at most that many digits;
/// stated for the sizes that the library formats.
pub proof fn lemma_decimal_len_bound(number: nat)
    ensures
        decimal_text(number).len() >= 1,
        number <= 0xffff_ffff_ffff_ffff ==> decimal_text(number).len() <= 20,
        number <= 0xffff_ffff ==> decimal_text(number).len() <= 10,
        number <= 0xff ==> decimal_text(number).len() <= 3,
{
    reveal_with_fuel(decimal_text, 21);
}

/// Appends `number` in decimal.
pub fn push_decimal(out: &mut String, number: u64)
    ensures
        final(out)@ == old(out)@ + decimal_text(number as nat),
    decreases number,
{
    if number < 10 {
        out.append(digit_str(number as u8));
    } else {
        push_decimal(out, number / 10);
        out.append(digit_str((number % 10) as u8));
        assert(out@ =~= old(out)@ + decimal_text(number as nat));
    }
}

/// Appends `number` in decimal, with a minus sign where it is negative.
pub fn push_signed_decimal(out: &mut String, number: i64)
    ensures
        final(out)@ == old(out)@ + signed_decimal_text(number as int),
{
    if number < 0 {
        proof {
            reveal_strlit("-");
        }
        out.append("-");
        let magnitude: u64 = if number == i64::MIN {
            0x8000_0000_0000_0000
        } else {
            (-number) as u64
        };
        push_decimal(out, magnitude);
        assert(out@ =~= old(out)@ + signed_decimal_text(number as int));
    } else {
        push_decimal(out, number as u64);
    }
}

/// Appends `count` times the one character that `fill` holds.
pub fn push_repeated(out: &mut String, fill: &str, count: usize)
    requires
        fill@.len() == 1,
    ensures
        final(out)@ == old(out)@ + repeated(fill@[0], count as nat),
{
    let mut done: usize = 0;
    while done < count
        invariant
            done <= count,
            fill@.len() == 1,
            out@ == old(out)@ + repeated(fill@[0], done as nat),
        decreases count - done,
    {
        out.append(fill);
        done += 1;
        assert(out@ =~= old(out)@ + repeated(fill@[0], done as nat));
    }
}

/// Appends `number` in decimal, right-aligned in a field of `width`
/// characters that the one character of `fill` fills up.
pub fn push_decimal_padded(out: &mut String, number: u64, width: usize, fill: &str)
    requires
        fill@.len() == 1,
    ensures
        final(out)@ == old(out)@ + pad_start(
            decimal_text(number as nat),
            width as nat,
            fill@[0],
        ),
{
    let len = decimal_len(number);
    if len < width {
        push_repeated(out, fill, width - len);
    }
    push_decimal(out, number);
    assert(out@ =~= old(out)@ + pad_start(decimal_text(number as nat), width as nat, fill@[0]));
}

/// Appends `text`, left-aligned in a field of `width` characters that
/// spaces fill up.
pub fn push_left_aligned(out: &mut String, text: &str, width: usize)
    ensures
        final(out)@ == old(out)@ + pad_end(text@, width as nat, ' '),
{
    proof {
        reveal_strlit(" ");
    }
    let len = text.unicode_len();
    out.append(text);
    if len < width {
        push_repeated(out, " ", width - len);
    }
    assert(out@ =~= old(out)@ + pad_end(text@, width as nat, ' '));
}

} // verus!
