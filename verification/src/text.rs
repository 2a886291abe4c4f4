//! Text of error messages: concatenation and number rendering.

use vstd::prelude::*;

verus! {

/// `String::push_str` of the standard library appends the characters of the
/// given slice to the end of the string.
pub assume_specification[ String::push_str ](text: &mut String, tail: &str)
    ensures
        final(text)@ == old(text)@ + tail@,
;

/// `String::push` of the standard library appends one character to the end of
/// the string.
pub assume_specification[ String::push ](text: &mut String, tail: char)
    ensures
        final(text)@ == old(text)@.push(tail),
;

/// Lowercase digit for a value below sixteen.
pub open spec fn digit(value: nat) -> char {
    if value == 0 {
        '0'
    } else if value == 1 {
        '1'
    } else if value == 2 {
        '2'
    } else if value == 3 {
        '3'
    } else if value == 4 {
        '4'
    } else if value == 5 {
        '5'
    } else if value == 6 {
        '6'
    } else if value == 7 {
        '7'
    } else if value == 8 {
        '8'
    } else if value == 9 {
        '9'
    } else if value == 10 {
        'a'
    } else if value == 11 {
        'b'
    } else if value == 12 {
        'c'
    } else if value == 13 {
        'd'
    } else if value == 14 {
        'e'
    } else {
        'f'
    }
}

/// Decimal digits of a number, most significant first, without leading zeros.
pub open spec fn decimal(value: nat) -> Seq<char>
    decreases value,
{
    if value < 10 {
        seq![digit(value)]
    } else {
        decimal(value / 10).push(digit(value % 10))
    }
}

/// The lowest `width` hexadecimal digits of a number, most significant first.
pub open spec fn hexadecimal(value: nat, width: nat) -> Seq<char>
    decreases width,
{
    if width == 0 {
        Seq::empty()
    } else {
        hexadecimal(value / 16, (width - 1) as nat).push(digit(value % 16))
    }
}

/// Decimal numbers between brackets, separated by a comma and a space.
pub open spec fn bracketed(values: Seq<u8>) -> Seq<char> {
    ("["@ + listed(values)) + "]"@
}

/// Decimal numbers separated by a comma and a space.
pub open spec fn listed(values: Seq<u8>) -> Seq<char>
    decreases values.len(),
{
    if values.len() == 0 {
        Seq::empty()
    } else if values.len() == 1 {
        decimal(values[0] as nat)
    } else {
        (listed(values.drop_last()) + ", "@) + decimal(values.last() as nat)
    }
}

fn to_digit(value: u64) -> (result: char)
    requires
        value < 16,
    ensures
        result == digit(value as nat),
{
    match value {
        0 => '0',
        1 => '1',
        2 => '2',
        3 => '3',
        4 => '4',
        5 => '5',
        6 => '6',
        7 => '7',
        8 => '8',
        9 => '9',
        10 => 'a',
        11 => 'b',
        12 => 'c',
        13 => 'd',
        14 => 'e',
        _ => 'f',
    }
}

/// Appends the decimal digits of `value`.
pub fn push_decimal(text: &mut String, value: u64)
    ensures
        final(text)@ == old(text)@ + decimal(value as nat),
    decreases value,
{
    if value >= 10 {
        push_decimal(text, value / 10);
    }
    text.push(to_digit(value % 10));
    assert(text@ =~= old(text)@ + decimal(value as nat));
}

/// Appends the lowest `width` hexadecimal digits of `value`.
pub fn push_hexadecimal(text: &mut String, value: u64, width: u32)
    ensures
        final(text)@ == old(text)@ + hexadecimal(value as nat, width as nat),
    decreases width,
{
    if width > 0 {
        push_hexadecimal(text, value / 16, width - 1);
        text.push(to_digit(value % 16));
    }
    assert(text@ =~= old(text)@ + hexadecimal(value as nat, width as nat));
}

/// `head` followed by a number.
pub fn text_number(head: &str, value: u64) -> (result: String)
    ensures
        result@ == head@ + decimal(value as nat),
{
    let mut text = head.to_owned();
    push_decimal(&mut text, value);
    text
}

/// A number between two texts.
pub fn text_number_text(head: &str, value: u64, tail: &str) -> (result: String)
    ensures
        result@ == head@ + decimal(value as nat) + tail@,
{
    let mut text = text_number(head, value);
    text.push_str(tail);
    text
}

/// Two numbers, each after a text.
pub fn text_two_numbers(head: &str, first: u64, middle: &str, second: u64) -> (result: String)
    ensures
        result@ == head@ + decimal(first as nat) + middle@ + decimal(second as nat),
{
    let mut text = text_number_text(head, first, middle);
    push_decimal(&mut text, second);
    text
}

/// Three numbers, each after a text.
pub fn text_three_numbers(
    head: &str,
    first: u64,
    middle: &str,
    second: u64,
    late: &str,
    third: u64,
) -> (result: String)
    ensures
        result@ == head@ + decimal(first as nat) + middle@ + decimal(second as nat) + late@
            + decimal(third as nat),
{
    let mut text = text_two_numbers(head, first, middle, second);
    text.push_str(late);
    push_decimal(&mut text, third);
    text
}

/// `head` followed by a bracketed list of numbers.
pub fn text_bytes(head: &str, values: &[u8]) -> (result: String)
    ensures
        result@ == head@ + bracketed(values@),
{
    let mut text = head.to_owned();
    text.push_str("[");
    let ghost start = text@;
    let mut i: usize = 0;
    while i < values.len()
        invariant
            i <= values@.len(),
            text@ == start + listed(values@.take(i as int)),
        decreases values@.len() - i,
    {
        if i > 0 {
            text.push_str(", ");
        }
        push_decimal(&mut text, values[i] as u64);
        proof {
            let longer = values@.take(i + 1);
            assert(longer.drop_last() =~= values@.take(i as int));
            assert(text@ =~= start + listed(longer));
        }
        i += 1;
    }
    assert(values@.take(values@.len() as int) =~= values@);
    text.push_str("]");
    assert(text@ =~= head@ + bracketed(values@));
    text
}

/// Digits stand for their values: ten from the character zero on, and six letters.
pub proof fn digits_stand_for_their_values(value: nat)
    requires
        value < 16,
    ensures
        value < 10 ==> digit(value) as int == 48 + value,
        value >= 10 ==> digit(value) as int == 87 + value,
{
}

/// A number in hexadecimal digits has as many of them as asked for, the last of
/// which stands for what it has beyond a multiple of sixteen.
pub proof fn hexadecimal_digits_fill_the_width(value: nat, width: nat)
    requires
        width > 0,
    ensures
        hexadecimal(value, width).len() == width,
        hexadecimal(value, width).last() == digit(value % 16),
        hexadecimal(value, width).drop_last() == hexadecimal(value / 16, (width - 1) as nat),
    decreases width,
{
    if width > 1 {
        hexadecimal_digits_fill_the_width(value / 16, (width - 1) as nat);
    }
    assert(hexadecimal(value, width).drop_last() =~= hexadecimal(value / 16, (width - 1) as nat));
}

} // verus!
