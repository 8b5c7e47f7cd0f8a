use vstd::prelude::*;
use vstd::string::StringExecFns;

verus! {

/// The character of a decimal digit.
pub open spec fn digit_of(digit: int) -> char {
    if digit == 0 {
        '0'
    } else if digit == 1 {
        '1'
    } else if digit == 2 {
        '2'
    } else if digit == 3 {
        '3'
    } else if digit == 4 {
        '4'
    } else if digit == 5 {
        '5'
    } else if digit == 6 {
        '6'
    } else if digit == 7 {
        '7'
    } else if digit == 8 {
        '8'
    } else {
        '9'
    }
}

/// The decimal digits of `number`, with zeros in front where they are fewer
/// than `width`.
pub open spec fn decimal(number: nat, width: nat) -> Seq<char>
    decreases number + width,
{
    if number < 10 && width <= 1 {
        seq![digit_of(number as int)]
    } else {
        decimal(number / 10, if width > 0 {
            (width - 1) as nat
        } else {
            0
        }).push(digit_of((number % 10) as int))
    }
}

/// The text of one decimal digit.
fn digit_text(digit: u64) -> (text: &'static str)
    requires
        digit < 10,
    ensures
        text@ == seq![digit_of(digit as int)],
{
    proof {
        reveal_strlit("0");
        reveal_strlit("1");
        reveal_strlit("2");
        reveal_strlit("3");
        reveal_strlit("4");
        reveal_strlit("5");
        reveal_strlit("6");
        reveal_strlit("7");
        reveal_strlit("8");
        reveal_strlit("9");
    }
    let text = if digit == 0 {
        "0"
    } else if digit == 1 {
        "1"
    } else if digit == 2 {
        "2"
    } else if digit == 3 {
        "3"
    } else if digit == 4 {
        "4"
    } else if digit == 5 {
        "5"
    } else if digit == 6 {
        "6"
    } else if digit == 7 {
        "7"
    } else if digit == 8 {
        "8"
    } else {
        "9"
    };
    assert(text@ =~= seq![digit_of(digit as int)]);
    text
}

/// Writes the decimal digits of `number` after `text`, with zeros in front
/// where they are fewer than `width`.
pub(crate) fn append_decimal(text: &mut String, number: u64, width: u8)
    ensures
        final(text)@ == old(text)@ + decimal(number as nat, width as nat),
    decreases number + width,
{
    if number < 10 && width <= 1 {
        text.append(digit_text(number));
        assert(text@ =~= old(text)@ + decimal(number as nat, width as nat));
    } else {
        let less: u8 = if width > 0 {
            width - 1
        } else {
            0
        };
        append_decimal(text, number / 10, less);
        text.append(digit_text(number % 10));
        assert(text@ =~= old(text)@ + decimal(number as nat, width as nat));
    }
}

} // verus!
