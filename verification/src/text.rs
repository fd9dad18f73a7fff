//! Character-level helpers: decimal numerals, character classes, and access to a string's
//! characters.

use vstd::prelude::*;

verus! {

/// The character that stands for a decimal digit.
pub open spec fn digit_character(digit: nat) -> char
    recommends
        digit < 10,
{
    if digit == 0 {
        '0'
    } else if digit == 1 {
        '1'
    } else if digit == 2 {
        '2'
    } else if digit == 3 {
        '3'
    } else if digit == 4 {
        '4'
    } else if digit == 5 {
        '5'
    } else if digit == 6 {
        '6'
    } else if digit == 7 {
        '7'
    } else if digit == 8 {
        '8'
    } else {
        '9'
    }
}

/// The decimal numeral of a natural number, without leading zeros.
pub open spec fn decimal(number: nat) -> Seq<char>
    decreases number,
{
    if number < 10 {
        seq![digit_character(number)]
    } else {
        decimal(number / 10).push(digit_character(number % 10))
    }
}

/// A numeral is never empty and holds digits only.
pub proof fn lemma_decimal_digits(number: nat)
    ensures
        decimal(number).len() > 0,
        forall|i: int| 0 <= i < decimal(number).len() ==> is_digit(#[trigger] decimal(number)[i]),
    decreases number,
{
    if number >= 10 {
        lemma_decimal_digits(number / 10);
    }
}

/// The value of a run of decimal digits, read from the left.
pub open spec fn decimal_value(digits: Seq<char>) -> nat
    decreases digits.len(),
{
    if digits.len() == 0 {
        0
    } else {
        decimal_value(digits.drop_last()) * 10 + digit_value(digits.last())
    }
}

/// The value of a decimal digit.
pub open spec fn digit_value(character: char) -> nat {
    (character as nat - '0' as nat) as nat
}

/// Reading a numeral gives back the number.
pub proof fn lemma_decimal_value_of_decimal(number: nat)
    ensures
        decimal_value(decimal(number)) == number,
    decreases number,
{
    if number < 10 {
        let numeral = decimal(number);
        assert(numeral.drop_last() =~= Seq::<char>::empty());
        assert(decimal_value(numeral.drop_last()) == 0);
        assert(numeral.last() == digit_character(number));
    } else {
        let numeral = decimal(number);
        lemma_decimal_value_of_decimal(number / 10);
        assert(numeral.drop_last() =~= decimal(number / 10));
        assert(numeral.last() == digit_character(number % 10));
    }
}

pub open spec fn is_digit(character: char) -> bool {
    '0' <= character <= '9'
}

pub open spec fn is_letter(character: char) -> bool {
    ('a' <= character <= 'z') || ('A' <= character <= 'Z')
}

/// Whether a character is white space, as Unicode defines it.
pub open spec fn is_whitespace(character: char) -> bool {
    let code = character as u32;
    ||| 0x09 <= code <= 0x0d
    ||| code == 0x20
    ||| code == 0x85
    ||| code == 0xa0
    ||| code == 0x1680
    ||| 0x2000 <= code <= 0x200a
    ||| code == 0x2028
    ||| code == 0x2029
    ||| code == 0x202f
    ||| code == 0x205f
    ||| code == 0x3000
}

pub fn character_is_digit(character: char) -> (result: bool)
    ensures
        result == is_digit(character),
{
    '0' <= character && character <= '9'
}

pub fn character_is_letter(character: char) -> (result: bool)
    ensures
        result == is_letter(character),
{
    ('a' <= character && character <= 'z') || ('A' <= character && character <= 'Z')
}

pub fn character_is_whitespace(character: char) -> (result: bool)
    ensures
        result == is_whitespace(character),
{
    let code: u32 = character as u32;
    (0x09 <= code && code <= 0x0d) || code == 0x20 || code == 0x85 || code == 0xa0 || code
        == 0x1680 || (0x2000 <= code && code <= 0x200a) || code == 0x2028 || code == 0x2029
        || code == 0x202f || code == 0x205f || code == 0x3000
}

/// The one-character text of a decimal digit.
fn digit_text(digit: u8) -> (text: &'static str)
    requires
        digit < 10,
    ensures
        text@ == seq![digit_character(digit as nat)],
{
    proof {
        reveal_strlit("0");
        reveal_strlit("1");
        reveal_strlit("2");
        reveal_strlit("3");
        reveal_strlit("4");
        reveal_strlit("5");
        reveal_strlit("6");
        reveal_strlit("7");
        reveal_strlit("8");
        reveal_strlit("9");
    }
    let text = if digit == 0 {
        "0"
    } else if digit == 1 {
        "1"
    } else if digit == 2 {
        "2"
    } else if digit == 3 {
        "3"
    } else if digit == 4 {
        "4"
    } else if digit == 5 {
        "5"
    } else if digit == 6 {
        "6"
    } else if digit == 7 {
        "7"
    } else if digit == 8 {
        "8"
    } else {
        "9"
    };
    assert(text@ =~= seq![digit_character(digit as nat)]);
    text
}

/// Writes a number as a decimal numeral.
pub fn decimal_string(number: u128) -> (text: String)
    ensures
        text@ == decimal(number as nat),
{
    let mut text = String::from_str(digit_text((number % 10) as u8));
    let mut remaining: u128 = number / 10;
    proof {
        if number >= 10 {
            assert(decimal(number as nat) =~= decimal(remaining as nat) + text@);
        }
    }
    while remaining > 0
        invariant
            remaining == 0 ==> text@ == decimal(number as nat),
            remaining > 0 ==> decimal(number as nat) == decimal(remaining as nat) + text@,
        decreases remaining,
    {
        let digit = digit_text((remaining % 10) as u8);
        let ghost before = text@;
        let ghost current = remaining;
        text = String::from_str(digit).concat(text.as_str());
        remaining = remaining / 10;
        proof {
            if current >= 10 {
                assert(decimal(current as nat) == decimal(remaining as nat).push(
                    digit_character((current % 10) as nat),
                ));
                assert(decimal(number as nat) =~= decimal(remaining as nat) + text@);
            } else {
                assert(decimal(current as nat) =~= digit@);
                assert(text@ =~= decimal(number as nat));
            }
        }
    }
    text
}

/// Whether two texts hold the same characters.
pub fn same_text(left: &str, right: &str) -> (result: bool)
    ensures
        result == (left@ == right@),
{
    left.to_owned() == right.to_owned()
}

/// The characters of a string, one by one.
pub fn characters_of(text: &str) -> (characters: Vec<char>)
    ensures
        characters@ == text@,
{
    let mut characters: Vec<char> = Vec::new();
    for character in iterator: text.chars()
        invariant
            iterator.seq() == text@,
            characters@ == iterator.seq().take(iterator.index() as int),
    {
        characters.push(character);
        assert(characters@ =~= iterator.seq().take(iterator.index() + 1));
    }
    assert(characters@ =~= text@);
    characters
}

} // verus!
