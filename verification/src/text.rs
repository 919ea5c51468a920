//! The text a refusal is written in.

use vstd::prelude::*;

verus! {

/// The character of a decimal digit.
pub open spec fn digit_char(digit: nat) -> char {
    (48 + digit) as char
}

/// The decimal digits of a natural number, most significant first.
pub open spec fn decimal_digits(value: nat) -> Seq<char>
    decreases value,
{
    if value < 10 {
        seq![digit_char(value)]
    } else {
        decimal_digits(value / 10).push(digit_char(value % 10))
    }
}

/// An integer in decimal, with a leading minus sign when negative.
pub open spec fn decimal_spec(value: int) -> Seq<char> {
    if value < 0 {
        seq!['-'] + decimal_digits((-value) as nat)
    } else {
        decimal_digits(value as nat)
    }
}

/// How Rust's `Debug` writes a string: quoted, with its special characters
/// escaped.
pub uninterp spec fn debug_quoted(text: Seq<char>) -> Seq<char>;

/// The integers in decimal, separated by a comma and a space.
pub open spec fn joined_decimals(values: Seq<i32>) -> Seq<char>
    decreases values.len(),
{
    if values.len() == 0 {
        Seq::empty()
    } else if values.len() == 1 {
        decimal_spec(values[0] as int)
    } else {
        joined_decimals(values.drop_last()) + ", "@ + decimal_spec(values.last() as int)
    }
}

/// How Rust's `Debug` writes a list of integers: each in decimal, separated
/// by a comma and a space, between square brackets.
pub open spec fn debug_int_list(values: Seq<i32>) -> Seq<char> {
    "["@ + joined_decimals(values) + "]"@
}

/// The text of one decimal digit.
fn digit_text(digit: u64) -> (text: &'static str)
    requires
        digit < 10,
    ensures
        text@ == seq![digit_char(digit as nat)],
{
    match digit {
        0 => {
            proof {
                reveal_strlit("0");
            }
            "0"
        },
        1 => {
            proof {
                reveal_strlit("1");
            }
            "1"
        },
        2 => {
            proof {
                reveal_strlit("2");
            }
            "2"
        },
        3 => {
            proof {
                reveal_strlit("3");
            }
            "3"
        },
        4 => {
            proof {
                reveal_strlit("4");
            }
            "4"
        },
        5 => {
            proof {
                reveal_strlit("5");
            }
            "5"
        },
        6 => {
            proof {
                reveal_strlit("6");
            }
            "6"
        },
        7 => {
            proof {
                reveal_strlit("7");
            }
            "7"
        },
        8 => {
            proof {
                reveal_strlit("8");
            }
            "8"
        },
        _ => {
            proof {
                reveal_strlit("9");
            }
            "9"
        },
    }
}

/// Appends the decimal digits of `value` to `text`.
fn append_digits(text: &mut String, value: u64)
    ensures
        final(text)@ == old(text)@ + decimal_digits(value as nat),
    decreases value,
{
    if value >= 10 {
        append_digits(text, value / 10);
    }
    text.append(digit_text(value % 10));
    assert(text@ =~= old(text)@ + decimal_digits(value as nat));
}

/// `value` in decimal, as `i64`'s `Display` writes it: the digits, with a
/// minus sign before a negative value.
pub(crate) fn decimal(value: i64) -> (text: String)
    ensures
        text@ == decimal_spec(value as int),
{
    if value < 0 {
        proof {
            reveal_strlit("-");
        }
        let mut text = String::from_str("-");
        let magnitude: u64 = (0i128 - value as i128) as u64;
        append_digits(&mut text, magnitude);
        text
    } else {
        let mut text = String::new();
        append_digits(&mut text, value as u64);
        assert(text@ =~= decimal_spec(value as int));
        text
    }
}

/// `value` in decimal, as `u64`'s `Display` writes it.
pub(crate) fn unsigned_decimal(value: u64) -> (text: String)
    ensures
        text@ == decimal_spec(value as int),
{
    let mut text = String::new();
    append_digits(&mut text, value);
    assert(text@ =~= decimal_spec(value as int));
    text
}

/// `text` as `Debug` writes a `str`; what that is is named, not stated.
#[verifier::external_body]
pub(crate) fn debug_text(text: &str) -> (quoted: String)
    ensures
        quoted@ == debug_quoted(text@),
{
    format!("{text:?}")
}

/// `values` as `Debug` writes a list of `i32`: `[1, -2, 3]`.
pub(crate) fn debug_ints(values: &Vec<i32>) -> (listed: String)
    ensures
        listed@ == debug_int_list(values@),
{
    let mut text = String::from_str("[");
    let mut i: usize = 0;
    while i < values.len()
        invariant
            i <= values.len(),
            text@ == "["@ + joined_decimals(values@.take(i as int)),
        decreases values.len() - i,
    {
        let ghost before = text@;
        if i > 0 {
            text.append(", ");
        }
        let digits = decimal(values[i] as i64);
        text.append(digits.as_str());
        proof {
            let taken = values@.take(i as int + 1);
            assert(taken.drop_last() =~= values@.take(i as int));
            assert(taken.last() == values@[i as int]);
            if i == 0 {
                assert(taken.len() == 1);
                assert(text@ =~= "["@ + joined_decimals(taken));
            } else {
                assert(text@ =~= "["@ + joined_decimals(taken));
            }
        }
        i = i + 1;
    }
    assert(values@.take(values.len() as int) =~= values@);
    text.append("]");
    text
}

/// Whether a character has Unicode's White_Space property, which is what
/// `char::is_whitespace` and `str::trim` go by.
pub open spec fn white_space(c: char) -> bool {
    let code = c as u32;
    ||| 0x09 <= code <= 0x0D
    ||| code == 0x20
    ||| code == 0x85
    ||| code == 0xA0
    ||| code == 0x1680
    ||| 0x2000 <= code <= 0x200A
    ||| code == 0x2028
    ||| code == 0x2029
    ||| code == 0x202F
    ||| code == 0x205F
    ||| code == 0x3000
}

/// A text without its leading whitespace.
pub open spec fn trim_start_spec(text: Seq<char>) -> Seq<char>
    decreases text.len(),
{
    if text.len() > 0 && white_space(text[0]) {
        trim_start_spec(text.skip(1))
    } else {
        text
    }
}

/// A text without its trailing whitespace.
pub open spec fn trim_end_spec(text: Seq<char>) -> Seq<char>
    decreases text.len(),
{
    if text.len() > 0 && white_space(text.last()) {
        trim_end_spec(text.drop_last())
    } else {
        text
    }
}

/// What `str::trim` leaves of a text: the text without its leading and
/// trailing whitespace.
pub open spec fn trimmed_spec(text: Seq<char>) -> Seq<char> {
    trim_end_spec(trim_start_spec(text))
}

/// `text` without its leading and trailing whitespace, by `str::trim`, whose
/// documentation defines whitespace as the characters with Unicode's
/// White_Space property.
#[verifier::external_body]
pub(crate) fn trimmed(text: &str) -> (result: &str)
    ensures
        result@ == trimmed_spec(text@),
{
    text.trim()
}

/// `first` followed by `second`.
pub fn join(first: &str, second: &str) -> (text: String)
    ensures
        text@ == first@ + second@,
{
    let mut text = String::from_str(first);
    text.append(second);
    text
}

/// `first`, `second` and `third`, in that order.
pub fn join3(first: &str, second: &str, third: &str) -> (text: String)
    ensures
        text@ == first@ + second@ + third@,
{
    let mut text = String::from_str(first);
    text.append(second);
    text.append(third);
    text
}

/// The pieces in order, as one string.
pub fn concat(pieces: &Vec<String>) -> (text: String)
    ensures
        text@ == concat_spec(pieces@),
{
    let mut text = String::new();
    let mut index: usize = 0;
    while index < pieces.len()
        invariant
            index <= pieces.len(),
            text@ == concat_spec(pieces@.take(index as int)),
        decreases pieces.len() - index,
    {
        text.append(pieces[index].as_str());
        assert(pieces@.take(index as int + 1).drop_last() =~= pieces@.take(index as int));
        index = index + 1;
    }
    assert(pieces@.take(index as int) =~= pieces@);
    text
}

/// The characters of the pieces, in order.
pub open spec fn concat_spec(pieces: Seq<String>) -> Seq<char>
    decreases pieces.len(),
{
    if pieces.len() == 0 {
        Seq::empty()
    } else {
        concat_spec(pieces.drop_last()) + pieces.last()@
    }
}

} // verus!
