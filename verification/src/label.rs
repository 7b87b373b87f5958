//! The text of percentages.
use vstd::prelude::*;

verus! {

/// The character of a digit.
pub open spec fn digit(value: nat) -> char {
    ('0' as u32 + value) as char
}

/// The decimal digits of a number, without leading zeros.
pub open spec fn decimal(value: nat) -> Seq<char>
    decreases value,
{
    if value < 10 {
        seq![digit(value)]
    } else {
        decimal(value / 10).push(digit(value % 10))
    }
}

/// The text of a percentage.
pub open spec fn percentage(value: nat) -> Seq<char> {
    decimal(value).push('%')
}

fn digit_text(value: u32) -> (result: &'static str)
    requires
        value < 10,
    ensures
        result@ == seq![digit(value as nat)],
{
    proof {
        reveal_strlit("0");
        reveal_strlit("1");
        reveal_strlit("2");
        reveal_strlit("3");
        reveal_strlit("4");
        reveal_strlit("5");
        reveal_strlit("6");
        reveal_strlit("7");
        reveal_strlit("8");
        reveal_strlit("9");
    }
    match value {
        0 => "0",
        1 => "1",
        2 => "2",
        3 => "3",
        4 => "4",
        5 => "5",
        6 => "6",
        7 => "7",
        8 => "8",
        _ => "9",
    }
}

fn append_decimal(text: &mut String, value: u32)
    ensures
        final(text)@ == old(text)@ + decimal(value as nat),
    decreases value,
{
    if value >= 10 {
        append_decimal(text, value / 10);
    }
    text.append(digit_text(value % 10));
}

/// Writes a percentage as a label shows it.
pub fn percent_label(value: u32) -> (result: String)
    ensures
        result@ == percentage(value as nat),
{
    let mut label = String::new();
    append_decimal(&mut label, value);
    proof {
        reveal_strlit("%");
    }
    label.append("%");
    label
}

/// The number that digits stand for.
pub open spec fn reading(text: Seq<char>) -> int
    decreases text.len(),
{
    if text.len() == 0 {
        0
    } else {
        reading(text.drop_last()) * 10 + (text.last() as u32 - '0' as u32)
    }
}

/// A number is written in digits that read as it, with none in front that could be left out.
pub proof fn law_decimal(value: nat)
    ensures
        reading(decimal(value)) == value,
        decimal(value).len() >= 1,
        decimal(value).len() > 1 ==> decimal(value)[0] != '0',
        value > 0 ==> decimal(value)[0] != '0',
        forall|i: int|
            0 <= i < decimal(value).len() ==> '0' <= #[trigger] decimal(value)[i] <= '9',
    decreases value,
{
    reveal_with_fuel(reading, 2);
    if value < 10 {
        assert(decimal(value).drop_last() =~= Seq::<char>::empty());
        assert(decimal(value).last() == digit(value));
    } else {
        law_decimal(value / 10);
        let rest = decimal(value / 10);
        assert(decimal(value).drop_last() =~= rest);
        assert(decimal(value).last() == digit(value % 10));
        assert(decimal(value)[0] == rest[0]);
    }
}

/// A percentage is its number, followed by the sign.
pub proof fn law_percentage(value: nat)
    ensures
        percentage(value).last() == '%',
        reading(percentage(value).drop_last()) == value,
        percentage(value).len() == decimal(value).len() + 1,
{
    law_decimal(value);
    assert(percentage(value).drop_last() =~= decimal(value));
}

} // verus!
