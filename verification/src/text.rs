//! Numbers and truth values in text.

use vstd::prelude::*;

verus! {

/// The decimal digit of a number below ten.
pub open spec fn decimal_digit(n: int) -> char {
    if n == 0 {
        '0'
    } else if n == 1 {
        '1'
    } else if n == 2 {
        '2'
    } else if n == 3 {
        '3'
    } else if n == 4 {
        '4'
    } else if n == 5 {
        '5'
    } else if n == 6 {
        '6'
    } else if n == 7 {
        '7'
    } else if n == 8 {
        '8'
    } else {
        '9'
    }
}

/// A number in decimal, without leading zeros.
pub open spec fn decimal_text(n: nat) -> Seq<char>
    decreases n,
{
    if n < 10 {
        seq![decimal_digit(n as int)]
    } else {
        decimal_text(n / 10) + seq![decimal_digit((n % 10) as int)]
    }
}

/// A truth value in text: `true` or `false`.
pub open spec fn bool_text(b: bool) -> Seq<char> {
    if b {
        "true"@
    } else {
        "false"@
    }
}

fn decimal_digit_str(n: u64) -> (digit: &'static str)
    requires
        n < 10,
    ensures
        digit@ == seq![decimal_digit(n as int)],
{
    proof {
        reveal_strlit("0");
        reveal_strlit("1");
        reveal_strlit("2");
        reveal_strlit("3");
        reveal_strlit("4");
        reveal_strlit("5");
        reveal_strlit("6");
        reveal_strlit("7");
        reveal_strlit("8");
        reveal_strlit("9");
    }
    let digit = match n {
        0 => "0",
        1 => "1",
        2 => "2",
        3 => "3",
        4 => "4",
        5 => "5",
        6 => "6",
        7 => "7",
        8 => "8",
        _ => "9",
    };
    proof {
        assert(digit@ =~= seq![decimal_digit(n as int)]);
    }
    digit
}

/// Write a number in decimal.
pub fn u64_to_string(n: u64) -> (text: String)
    ensures
        text@ == decimal_text(n as nat),
    decreases n,
{
    if n < 10 {
        String::from_str(decimal_digit_str(n))
    } else {
        let mut text = u64_to_string(n / 10);
        text.append(decimal_digit_str(n % 10));
        text
    }
}

/// Write a truth value.
pub fn bool_to_string(b: bool) -> (text: String)
    ensures
        text@ == bool_text(b),
{
    if b {
        String::from_str("true")
    } else {
        String::from_str("false")
    }
}

/// The views of a sequence of texts, in the same order.
pub open spec fn string_views(texts: Seq<String>) -> Seq<Seq<char>> {
    texts.map_values(|text: String| text@)
}

/// A copy of a list of texts.
pub fn clone_strings(texts: &Vec<String>) -> (copy: Vec<String>)
    ensures
        string_views(copy@) == string_views(texts@),
{
    let mut copy: Vec<String> = Vec::new();
    let mut i: usize = 0;
    proof {
        assert(string_views(copy@) =~= string_views(texts@.take(0)));
    }
    while i < texts.len()
        invariant
            i <= texts.len(),
            string_views(copy@) == string_views(texts@.take(i as int)),
        decreases texts.len() - i,
    {
        let ghost before = copy@;
        let text = texts[i].clone();
        copy.push(text);
        proof {
            assert(string_views(copy@) =~= string_views(before).push(text@));
            assert(string_views(texts@.take(i + 1)) =~= string_views(texts@.take(i as int)).push(
                text@,
            ));
        }
        i += 1;
    }
    proof {
        assert(texts@.take(i as int) =~= texts@);
    }
    copy
}

/// The pieces joined, with `separator` between each two.
pub open spec fn join_with(pieces: Seq<Seq<char>>, separator: Seq<char>) -> Seq<char>
    decreases pieces.len(),
{
    if pieces.len() == 0 {
        Seq::empty()
    } else if pieces.len() == 1 {
        pieces[0]
    } else {
        join_with(pieces.drop_last(), separator) + separator + pieces.last()
    }
}

/// A list in text: its items between brackets, separated by a comma and a
/// space.
pub open spec fn list_text(items: Seq<Seq<char>>) -> Seq<char> {
    "["@ + join_with(items, ", "@) + "]"@
}

/// Write a list of texts.
pub fn list_to_string(items: &Vec<String>) -> (text: String)
    ensures
        text@ == list_text(string_views(items@)),
{
    let mut text = String::from_str("[");
    let mut i: usize = 0;
    let ghost pieces = string_views(items@);
    proof {
        assert(pieces.take(0) =~= Seq::<Seq<char>>::empty());
        assert(text@ =~= "["@ + join_with(pieces.take(0), ", "@));
    }
    while i < items.len()
        invariant
            i <= items.len(),
            pieces == string_views(items@),
            text@ == "["@ + join_with(pieces.take(i as int), ", "@),
        decreases items.len() - i,
    {
        proof {
            let longer = pieces.take(i + 1);
            assert(longer.drop_last() =~= pieces.take(i as int));
            assert(longer.last() == items@[i as int]@);
        }
        let ghost before = text@;
        if i > 0 {
            text.append(", ");
        }
        text.append(items[i].as_str());
        proof {
            if i == 0 {
                assert(join_with(pieces.take(0), ", "@) =~= Seq::<char>::empty());
                assert(text@ =~= "["@ + items@[i as int]@);
            } else {
                assert(text@ =~= "["@ + (join_with(pieces.take(i as int), ", "@) + ", "@
                    + items@[i as int]@));
            }
        }
        i += 1;
    }
    proof {
        assert(pieces.take(i as int) =~= pieces);
    }
    text.append("]");
    text
}

/// The numbers in decimal, in the same order.
pub open spec fn decimal_texts(numbers: Seq<u64>) -> Seq<Seq<char>> {
    numbers.map_values(|n: u64| decimal_text(n as nat))
}

/// Write each number in decimal.
pub fn numbers_to_strings(numbers: &Vec<u64>) -> (texts: Vec<String>)
    ensures
        string_views(texts@) == decimal_texts(numbers@),
{
    let mut texts: Vec<String> = Vec::new();
    let mut i: usize = 0;
    proof {
        assert(string_views(texts@) =~= decimal_texts(numbers@.take(0)));
    }
    while i < numbers.len()
        invariant
            i <= numbers.len(),
            string_views(texts@) == decimal_texts(numbers@.take(i as int)),
        decreases numbers.len() - i,
    {
        let ghost before = texts@;
        let text = u64_to_string(numbers[i]);
        texts.push(text);
        proof {
            assert(string_views(texts@) =~= string_views(before).push(text@));
            assert(decimal_texts(numbers@.take(i + 1)) =~= decimal_texts(
                numbers@.take(i as int),
            ).push(text@));
        }
        i += 1;
    }
    proof {
        assert(numbers@.take(i as int) =~= numbers@);
    }
    texts
}

} // verus!
