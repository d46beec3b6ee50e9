//! Exact decimal numbers, as price and volume fields spell them.

use vstd::prelude::*;
use vstd::std_specs::iter::IteratorSpec;
use vstd::string::StringExecFns;

verus! {

broadcast use vstd::string::group_string_axioms;

/// A non-negative decimal number: `digits` divided by ten to the power of
/// `scale`. The text "12.34" is read as the digits 1234 with scale 2.
#[derive(Clone, Copy, Debug, PartialEq, Eq)]
pub struct Decimal {
    pub digits: u64,
    pub scale: usize,
}

/// Whether a character is one of the ten digits.
pub open spec fn is_digit(c: char) -> bool {
    '0' <= c <= '9'
}

/// The number that the digits of `text` spell; other characters are passed
/// over.
pub open spec fn digits_value(text: Seq<char>) -> nat
    decreases text.len(),
{
    if text.len() == 0 {
        0
    } else if is_digit(text.last()) {
        (10 * digits_value(text.drop_last()) + (text.last() as u32 - '0' as u32)) as nat
    } else {
        digits_value(text.drop_last())
    }
}

/// How many characters of `text` are digits.
pub open spec fn digit_count(text: Seq<char>) -> nat
    decreases text.len(),
{
    if text.len() == 0 {
        0
    } else {
        digit_count(text.drop_last()) + if is_digit(text.last()) {
            1nat
        } else {
            0nat
        }
    }
}

/// How many characters of `text` are the point.
pub open spec fn point_count(text: Seq<char>) -> nat
    decreases text.len(),
{
    if text.len() == 0 {
        0
    } else {
        point_count(text.drop_last()) + if text.last() == '.' {
            1nat
        } else {
            0nat
        }
    }
}

/// How many characters follow the last point of `text`; 0 where it has none.
pub open spec fn fraction_length(text: Seq<char>) -> nat
    decreases text.len(),
{
    if text.len() == 0 || text.last() == '.' || point_count(text.drop_last()) == 0 {
        0
    } else {
        fraction_length(text.drop_last()) + 1
    }
}

/// A decimal text is made of digits and at most one point, and has a digit.
pub open spec fn is_decimal_text(text: Seq<char>) -> bool {
    &&& forall|i: int| 0 <= i < text.len() ==> is_digit(#[trigger] text[i]) || text[i] == '.'
    &&& point_count(text) <= 1
    &&& digit_count(text) >= 1
}

/// The number that `text` spells, where it is a decimal text whose digits
/// fit the machine's 64 bits.
pub open spec fn decimal_value(text: Seq<char>) -> Option<Decimal> {
    if is_decimal_text(text) && digits_value(text) <= u64::MAX {
        Some(Decimal { digits: digits_value(text) as u64, scale: fraction_length(text) as usize })
    } else {
        None
    }
}

/// A grouped text is made of digits and commas, and has a digit.
pub open spec fn is_grouped_text(text: Seq<char>) -> bool {
    &&& forall|i: int| 0 <= i < text.len() ==> is_digit(#[trigger] text[i]) || text[i] == ','
    &&& digit_count(text) >= 1
}

/// The whole number that `text` spells once its commas are taken out, where
/// it is a grouped text whose number fits the machine's word.
pub open spec fn grouped_value(text: Seq<char>) -> Option<usize> {
    if is_grouped_text(text) && digits_value(text) <= usize::MAX {
        Some(digits_value(text) as usize)
    } else {
        None
    }
}

/// A longer text has no fewer points and digits than its beginning, and
/// spells no smaller a number.
pub proof fn lemma_prefix_counts(text: Seq<char>, n: int)
    requires
        0 <= n <= text.len(),
    ensures
        point_count(text.take(n)) <= point_count(text),
        digit_count(text.take(n)) <= digit_count(text),
        digits_value(text.take(n)) <= digits_value(text),
    decreases text.len() - n,
{
    if n < text.len() {
        assert(text.take(n + 1).drop_last() =~= text.take(n));
        lemma_prefix_counts(text, n + 1);
    } else {
        assert(text.take(n) =~= text);
    }
}

/// The characters of a text, one by one.
pub fn text_chars(text: &str) -> (chars: Vec<char>)
    ensures
        chars@ == text@,
{
    let mut rest = text.chars();
    let mut chars: Vec<char> = Vec::new();
    loop
        invariant
            rest.obeys_prophetic_iter_laws(),
            rest.decrease() is Some,
            chars@ + rest.remaining() == text@,
        decreases rest.decrease()->0,
    {
        let ghost before = rest.remaining();
        match rest.next() {
            Some(c) => {
                chars.push(c);
                proof {
                    assert(chars@ + rest.remaining() =~= (chars@.drop_last() + before));
                }
            },
            None => {
                proof {
                    assert(chars@ + rest.remaining() =~= chars@);
                }
                return chars;
            },
        }
    }
}

/// Reads a decimal text.
pub fn parse_decimal(text: &Vec<char>) -> (number: Option<Decimal>)
    ensures
        number == decimal_value(text@),
{
    let mut digits: u64 = 0;
    let mut scale: usize = 0;
    let mut seen_point = false;
    let mut seen_digit = false;
    let mut n: usize = 0;
    while n < text.len()
        invariant
            n <= text@.len(),
            forall|i: int| 0 <= i < n ==> is_digit(#[trigger] text@[i]) || text@[i] == '.',
            point_count(text@.take(n as int)) == if seen_point {
                1nat
            } else {
                0nat
            },
            seen_digit <==> digit_count(text@.take(n as int)) >= 1,
            digits == digits_value(text@.take(n as int)),
            scale == fraction_length(text@.take(n as int)),
            scale <= n,
        decreases text@.len() - n,
    {
        let c = text[n];
        proof {
            assert(text@.take(n + 1).drop_last() =~= text@.take(n as int));
            lemma_prefix_counts(text@, n + 1);
        }
        if c == '.' {
            if seen_point {
                return None;
            }
            seen_point = true;
            scale = 0;
        } else if '0' <= c && c <= '9' {
            let d: u64 = (c as u32 - '0' as u32) as u64;
            if digits > (u64::MAX - d) / 10 {
                return None;
            }
            digits = digits * 10 + d;
            seen_digit = true;
            if seen_point {
                scale = scale + 1;
            }
        } else {
            return None;
        }
        n += 1;
    }
    proof {
        assert(text@.take(n as int) =~= text@);
    }
    if seen_digit {
        Some(Decimal { digits, scale })
    } else {
        None
    }
}

/// Reads a grouped text: a whole number whose digits commas may separate.
pub fn parse_grouped(text: &Vec<char>) -> (number: Option<usize>)
    ensures
        number == grouped_value(text@),
{
    let mut value: usize = 0;
    let mut seen_digit = false;
    let mut n: usize = 0;
    while n < text.len()
        invariant
            n <= text@.len(),
            forall|i: int| 0 <= i < n ==> is_digit(#[trigger] text@[i]) || text@[i] == ',',
            seen_digit <==> digit_count(text@.take(n as int)) >= 1,
            value == digits_value(text@.take(n as int)),
        decreases text@.len() - n,
    {
        let c = text[n];
        proof {
            assert(text@.take(n + 1).drop_last() =~= text@.take(n as int));
            lemma_prefix_counts(text@, n + 1);
        }
        if '0' <= c && c <= '9' {
            let d: usize = (c as u32 - '0' as u32) as usize;
            if value > (usize::MAX - d) / 10 {
                return None;
            }
            value = value * 10 + d;
            seen_digit = true;
        } else if c != ',' {
            return None;
        }
        n += 1;
    }
    proof {
        assert(text@.take(n as int) =~= text@);
    }
    if seen_digit {
        Some(value)
    } else {
        None
    }
}

/// Whether `text` is made of digits alone, and has one.
pub open spec fn is_whole_text(text: Seq<char>) -> bool {
    &&& text.len() >= 1
    &&& forall|i: int| 0 <= i < text.len() ==> is_digit(#[trigger] text[i])
}

/// The whole number that `text` spells, where it is made of digits alone
/// and the number fits the machine's word.
pub open spec fn whole_value(text: Seq<char>) -> Option<usize> {
    if is_whole_text(text) && digits_value(text) <= usize::MAX {
        Some(digits_value(text) as usize)
    } else {
        None
    }
}

proof fn lemma_digit_count_of_digits(text: Seq<char>)
    requires
        forall|i: int| 0 <= i < text.len() ==> is_digit(#[trigger] text[i]),
    ensures
        digit_count(text) == text.len(),
    decreases text.len(),
{
    if text.len() > 0 {
        assert forall|i: int| 0 <= i < text.drop_last().len() implies is_digit(
            #[trigger] text.drop_last()[i],
        ) by {
            assert(text.drop_last()[i] == text[i]);
        }
        lemma_digit_count_of_digits(text.drop_last());
    }
}

/// Reads a whole number written in digits alone.
pub fn parse_whole(text: &Vec<char>) -> (number: Option<usize>)
    ensures
        number == whole_value(text@),
{
    let mut n: usize = 0;
    while n < text.len()
        invariant
            n <= text@.len(),
            forall|i: int| 0 <= i < n ==> is_digit(#[trigger] text@[i]),
        decreases text@.len() - n,
    {
        let c = text[n];
        if !('0' <= c && c <= '9') {
            return None;
        }
        n += 1;
    }
    proof {
        lemma_digit_count_of_digits(text@);
    }
    parse_grouped(text)
}

/// The digits that spell `number`, without leading zeros.
pub open spec fn digits_of(number: nat) -> Seq<char>
    decreases number,
{
    if number < 10 {
        seq![digit_char(number)]
    } else {
        digits_of(number / 10).push(digit_char(number % 10))
    }
}

/// The digit for a number below ten.
pub open spec fn digit_char(d: nat) -> char {
    if d == 0 {
        '0'
    } else if d == 1 {
        '1'
    } else if d == 2 {
        '2'
    } else if d == 3 {
        '3'
    } else if d == 4 {
        '4'
    } else if d == 5 {
        '5'
    } else if d == 6 {
        '6'
    } else if d == 7 {
        '7'
    } else if d == 8 {
        '8'
    } else {
        '9'
    }
}

fn digit_text(d: usize) -> (text: &'static str)
    requires
        d < 10,
    ensures
        text@ == seq![digit_char(d as nat)],
{
    proof {
        reveal_strlit("0");
        reveal_strlit("1");
        reveal_strlit("2");
        reveal_strlit("3");
        reveal_strlit("4");
        reveal_strlit("5");
        reveal_strlit("6");
        reveal_strlit("7");
        reveal_strlit("8");
        reveal_strlit("9");
    }
    let text = if d == 0 {
        "0"
    } else if d == 1 {
        "1"
    } else if d == 2 {
        "2"
    } else if d == 3 {
        "3"
    } else if d == 4 {
        "4"
    } else if d == 5 {
        "5"
    } else if d == 6 {
        "6"
    } else if d == 7 {
        "7"
    } else if d == 8 {
        "8"
    } else {
        "9"
    };
    assert(text@ =~= seq![digit_char(d as nat)]);
    text
}

/// Writes the digits of `number` behind `text`.
pub fn append_digits(text: &mut String, number: usize)
    ensures
        final(text)@ == old(text)@ + digits_of(number as nat),
    decreases number,
{
    if number >= 10 {
        append_digits(text, number / 10);
    }
    text.append(digit_text(number % 10));
    proof {
        assert(text@ =~= old(text)@ + digits_of(number as nat));
    }
}

/// The digits of a number spell the number.
pub proof fn lemma_digits_of(number: nat)
    ensures
        is_whole_text(digits_of(number)),
        digits_value(digits_of(number)) == number,
    decreases number,
{
    if number >= 10 {
        lemma_digits_of(number / 10);
        let longer = digits_of(number);
        assert(longer.drop_last() =~= digits_of(number / 10));
        assert(longer.last() == digit_char(number % 10));
    } else {
        let short = digits_of(number);
        assert(short.drop_last() =~= Seq::<char>::empty());
        assert(digits_value(short.drop_last()) == 0);
    }
}

} // verus!
