//! Small pieces of text: decimal numbers, joined fields, concatenation.
use vstd::prelude::*;
use vstd::string::*;

verus! {

/// `String::push` of std: appends one character.
pub assume_specification[ String::push ](s: &mut String, ch: char)
    ensures
        final(s)@ == old(s)@.push(ch),
;

/// The character of a decimal digit.
pub open spec fn digit_char(digit: nat) -> char {
    (48 + digit) as char
}

/// The decimal digits of a number, without leading zeros.
pub open spec fn decimal(number: nat) -> Seq<char>
    decreases number,
{
    if number < 10 {
        seq![digit_char(number)]
    } else {
        decimal(number / 10).push(digit_char(number % 10))
    }
}

fn digit(value: u64) -> (ch: char)
    requires
        value < 10,
    ensures
        ch == digit_char(value as nat),
{
    match value {
        0 => '0',
        1 => '1',
        2 => '2',
        3 => '3',
        4 => '4',
        5 => '5',
        6 => '6',
        7 => '7',
        8 => '8',
        _ => '9',
    }
}

/// Appends a number in decimal.
pub fn push_decimal(text: &mut String, number: u64)
    ensures
        final(text)@ == old(text)@ + decimal(number as nat),
    decreases number,
{
    if number >= 10 {
        push_decimal(text, number / 10);
    }
    text.push(digit(number % 10));
}

/// A number in decimal.
pub fn decimal_text(number: u64) -> (text: String)
    ensures
        text@ == decimal(number as nat),
{
    let mut text = String::new();
    push_decimal(&mut text, number);
    text
}

/// `true` or `false`.
pub open spec fn bool_word(value: bool) -> Seq<char> {
    if value {
        "true"@
    } else {
        "false"@
    }
}

pub fn bool_text(value: bool) -> (text: String)
    ensures
        text@ == bool_word(value),
{
    if value {
        "true".to_string()
    } else {
        "false".to_string()
    }
}

/// A text between two others.
pub fn enclose(before: &str, middle: &str, after: &str) -> (text: String)
    ensures
        text@ == before@ + middle@ + after@,
{
    let mut text = before.to_string();
    text.append(middle);
    text.append(after);
    text
}

/// The characters of each text in a list.
pub open spec fn texts(list: Seq<String>) -> Seq<Seq<char>> {
    Seq::new(list.len(), |i: int| list[i]@)
}

/// The texts of a list one after another, with a comma between each two.
pub open spec fn comma_separated(list: Seq<Seq<char>>) -> Seq<char>
    decreases list.len(),
{
    if list.len() == 0 {
        Seq::empty()
    } else if list.len() == 1 {
        list[0]
    } else {
        comma_separated(list.drop_last()).push(',') + list.last()
    }
}

/// Joins a list of texts with commas.
pub fn join_with_commas(list: &Vec<String>) -> (text: String)
    ensures
        text@ == comma_separated(texts(list@)),
{
    let mut text = String::new();
    let mut index: usize = 0;
    let ghost all = texts(list@);
    while index < list.len()
        invariant
            index <= list@.len(),
            all == texts(list@),
            text@ == comma_separated(all.take(index as int)),
        decreases list@.len() - index,
    {
        proof {
            assert(all.take(index + 1).drop_last() =~= all.take(index as int));
        }
        if index > 0 {
            text.push(',');
        }
        text.append(list[index].as_str());
        index += 1;
        proof {
            if index == 1 {
                assert(all.take(1)[0] == list@[0]@);
                assert(text@ =~= list@[0]@);
            }
        }
    }
    assert(all.take(index as int) =~= all);
    text
}

/// The number that a row of digits stands for.
pub open spec fn number_in(digits: Seq<char>) -> int
    decreases digits.len(),
{
    if digits.len() == 0 {
        0
    } else {
        10 * number_in(digits.drop_last()) + (digits.last() as int - '0' as int)
    }
}

/// A number in decimal is read back as that number; it is made of digits, and begins
/// with a zero only where it is zero.
pub proof fn law_decimal_is_read_back(number: nat)
    ensures
        number_in(decimal(number)) == number,
        decimal(number).len() > 0,
        forall|i: int|
            0 <= i < decimal(number).len() ==> '0' as int <= #[trigger] decimal(number)[i] as int
                <= '9' as int,
        decimal(number)[0] == '0' ==> number == 0,
        number < 10 ==> decimal(number).len() == 1,
    decreases number,
{
    let digits = decimal(number);
    if number < 10 {
        assert(digits.drop_last() =~= Seq::<char>::empty());
        assert(number_in(digits.drop_last()) == 0);
    } else {
        law_decimal_is_read_back(number / 10);
        let first = decimal(number / 10);
        assert(digits.drop_last() =~= first);
        assert(digits[0] == first[0]);
        assert forall|i: int| 0 <= i < digits.len() implies '0' as int <= #[trigger] digits[i] as int
            <= '9' as int by {
            if i < first.len() {
                assert(digits[i] == first[i]);
            }
        }
    }
}

/// What is printed of a number is read back as that number.
pub proof fn law_printed_number_is_read_back(number: u64, text: String)
    requires
        call_ensures(decimal_text, (number,), text),
    ensures
        number_in(text@) == number,
        text@.len() > 0,
        text@[0] == '0' ==> number == 0 && text@.len() == 1,
{
    law_decimal_is_read_back(number as nat);
}

/// A number that is appended leaves the text before it and is read back behind it.
pub proof fn law_appended_number_is_read_back(text: &mut String, number: u64)
    requires
        call_ensures(push_decimal, (text, number), ()),
    ensures
        final(text)@.len() > old(text)@.len(),
        final(text)@.take(old(text)@.len() as int) == old(text)@,
        number_in(final(text)@.skip(old(text)@.len() as int)) == number,
{
    law_decimal_is_read_back(number as nat);
    assert(final(text)@.take(old(text)@.len() as int) =~= old(text)@);
    assert(final(text)@.skip(old(text)@.len() as int) =~= decimal(number as nat));
}

/// A truth value is printed as its word.
pub proof fn law_truth_is_printed(value: bool, text: String)
    requires
        call_ensures(bool_text, (value,), text),
    ensures
        value ==> text@ == "true"@,
        !value ==> text@ == "false"@,
{
}

/// An enclosed text stands between the two others.
pub proof fn law_enclosed_text_stands_between(before: &str, middle: &str, after: &str, text: String)
    requires
        call_ensures(enclose, (before, middle, after), text),
    ensures
        text@.len() == before@.len() + middle@.len() + after@.len(),
        text@.take(before@.len() as int) == before@,
        text@.subrange(before@.len() as int, (before@.len() + middle@.len()) as int) == middle@,
        text@.skip((before@.len() + middle@.len()) as int) == after@,
{
    assert(text@.take(before@.len() as int) =~= before@);
    assert(text@.subrange(before@.len() as int, (before@.len() + middle@.len()) as int) =~= middle@);
    assert(text@.skip((before@.len() + middle@.len()) as int) =~= after@);
}

/// One more text is joined behind the others with one comma between; a single text is
/// joined as it is, and none as nothing.
pub proof fn law_one_more_text_is_joined(
    fewer: Vec<String>,
    list: Vec<String>,
    joined_fewer: String,
    joined: String,
)
    requires
        call_ensures(join_with_commas, (&fewer,), joined_fewer),
        call_ensures(join_with_commas, (&list,), joined),
    ensures
        list@.len() == 0 ==> joined@.len() == 0,
        list@.len() == 1 ==> joined@ == list@[0]@,
        list@.len() > 1 && fewer@ == list@.drop_last() ==> joined@ == joined_fewer@
            + seq![','] + list@.last()@,
{
    if list@.len() > 1 && fewer@ == list@.drop_last() {
        assert(texts(list@).drop_last() =~= texts(fewer@));
        assert(joined@ =~= joined_fewer@ + seq![','] + list@.last()@);
    }
}

} // verus!
