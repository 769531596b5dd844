//! Text: the order of strings, prefixes and white space.

use vstd::prelude::*;
use vstd::std_specs::iter::IteratorSpec;

verus! {

/// How one value stands to another in a strict total order.
#[derive(Clone, Copy, Debug, PartialEq, Eq, Structural)]
pub enum Order {
    Before,
    Same,
    After,
}

/// `a` and `b` agree on their first `n` characters.
pub open spec fn agree(a: Seq<char>, b: Seq<char>, n: int) -> bool {
    &&& 0 <= n <= a.len()
    &&& n <= b.len()
    &&& forall|i: int| 0 <= i < n ==> a[i] == b[i]
}

/// `a` comes before `b`: at the first place where they differ, `a` has ended or holds the smaller
/// code point.
pub open spec fn precedes(a: Seq<char>, b: Seq<char>) -> bool {
    exists|n: int| #[trigger]
        agree(a, b, n) && n < b.len() && (n == a.len() || (a[n] as u32) < (b[n] as u32))
}

/// Characters with the same code point are the same.
proof fn lemma_code_point_identifies(x: char, y: char)
    ensures
        x as u32 == y as u32 ==> x == y,
{
    vstd::utf8::char_u32_cast(x, x as u32);
    vstd::utf8::char_u32_cast(y, y as u32);
}

pub proof fn lemma_precedes_irreflexive(a: Seq<char>)
    ensures
        !precedes(a, a),
{
}

pub proof fn lemma_precedes_transitive(a: Seq<char>, b: Seq<char>, c: Seq<char>)
    requires
        precedes(a, b),
        precedes(b, c),
    ensures
        precedes(a, c),
{
    let n = choose|n: int| #[trigger]
        agree(a, b, n) && n < b.len() && (n == a.len() || (a[n] as u32) < (b[n] as u32));
    let m = choose|m: int| #[trigger]
        agree(b, c, m) && m < c.len() && (m == b.len() || (b[m] as u32) < (c[m] as u32));
    let k = if n < m { n } else { m };
    assert(agree(a, c, k));
}

/// Of two texts that agree on their first `n` characters, either they are the same or one comes
/// before the other.
proof fn lemma_precedes_total_from(a: Seq<char>, b: Seq<char>, n: int)
    requires
        agree(a, b, n),
    ensures
        a == b || precedes(a, b) || precedes(b, a),
    decreases a.len() - n,
{
    assert(agree(b, a, n));
    if n < a.len() && n < b.len() {
        lemma_code_point_identifies(a[n], b[n]);
        if a[n] == b[n] {
            assert(agree(a, b, n + 1));
            lemma_precedes_total_from(a, b, n + 1);
        }
    } else if a.len() == b.len() {
        assert(a =~= b);
    }
}

pub proof fn lemma_precedes_total(a: Seq<char>, b: Seq<char>)
    ensures
        a == b || precedes(a, b) || precedes(b, a),
{
    assert(agree(a, b, 0));
    lemma_precedes_total_from(a, b, 0);
}

/// Compares two strings in the order of [`precedes`].
pub fn compare_text(a: &str, b: &str) -> (order: Order)
    ensures
        match order {
            Order::Before => precedes(a@, b@),
            Order::Same => a@ == b@,
            Order::After => precedes(b@, a@),
        },
{
    let mut left = a.chars();
    let mut right = b.chars();
    let ghost mut n: int = 0;
    loop
        invariant
            agree(a@, b@, n),
            left.remaining() == a@.skip(n),
            right.remaining() == b@.skip(n),
            left.obeys_prophetic_iter_laws(),
            right.obeys_prophetic_iter_laws(),
        decreases a@.len() - n,
    {
        match (left.next(), right.next()) {
            (None, None) => {
                assert(a@ =~= b@);
                return Order::Same;
            },
            (None, Some(_)) => {
                return Order::Before;
            },
            (Some(_), None) => {
                assert(agree(b@, a@, n));
                return Order::After;
            },
            (Some(x), Some(y)) => {
                if (x as u32) < (y as u32) {
                    return Order::Before;
                }
                if (y as u32) < (x as u32) {
                    assert(agree(b@, a@, n));
                    return Order::After;
                }
                proof {
                    lemma_code_point_identifies(x, y);
                    assert(agree(a@, b@, n + 1));
                    n = n + 1;
                }
            },
        }
    }
}

/// Whether two strings hold the same text.
pub fn same_text(a: &str, b: &str) -> (same: bool)
    ensures
        same == (a@ == b@),
{
    proof {
        lemma_precedes_irreflexive(a@);
    }
    match compare_text(a, b) {
        Order::Same => true,
        Order::Before => false,
        Order::After => false,
    }
}

/// Whether `text` begins with `prefix`.
pub fn begins_with(text: &str, prefix: &str) -> (found: bool)
    ensures
        found == prefix@.is_prefix_of(text@),
{
    let mut left = prefix.chars();
    let mut right = text.chars();
    let ghost mut n: int = 0;
    loop
        invariant
            agree(prefix@, text@, n),
            left.remaining() == prefix@.skip(n),
            right.remaining() == text@.skip(n),
            left.obeys_prophetic_iter_laws(),
            right.obeys_prophetic_iter_laws(),
        decreases prefix@.len() - n,
    {
        match left.next() {
            None => {
                assert(prefix@ =~= text@.subrange(0, prefix@.len() as int));
                return true;
            },
            Some(expected) => match right.next() {
                None => {
                    return false;
                },
                Some(actual) => {
                    if expected != actual {
                        assert(prefix@.len() <= text@.len() ==> prefix@[n] != text@.subrange(
                            0,
                            prefix@.len() as int,
                        )[n]);
                        return false;
                    }
                    proof {
                        assert(agree(prefix@, text@, n + 1));
                        n = n + 1;
                    }
                },
            },
        }
    }
}

/// The text that an optional string holds.
pub open spec fn optional_text(text: Option<String>) -> Option<Seq<char>> {
    match text {
        Some(text) => Some(text@),
        None => None,
    }
}

/// The texts that a list of strings holds.
pub open spec fn texts(list: Vec<String>) -> Seq<Seq<char>> {
    list@.map_values(|text: String| text@)
}

/// The digit that stands for `n`.
pub open spec fn digit(n: nat) -> char {
    if n == 0 {
        '0'
    } else if n == 1 {
        '1'
    } else if n == 2 {
        '2'
    } else if n == 3 {
        '3'
    } else if n == 4 {
        '4'
    } else if n == 5 {
        '5'
    } else if n == 6 {
        '6'
    } else if n == 7 {
        '7'
    } else if n == 8 {
        '8'
    } else {
        '9'
    }
}

/// `n` in decimal, without leading zeros.
pub open spec fn decimal(n: nat) -> Seq<char>
    decreases n,
{
    if n < 10 {
        seq![digit(n)]
    } else {
        decimal(n / 10).push(digit(n % 10))
    }
}

/// `u32::to_string`: the number in decimal.
#[verifier::external_body]
pub(crate) fn decimal_text(n: u32) -> (text: String)
    ensures
        text@ == decimal(n as nat),
{
    n.to_string()
}

/// What the `Debug` output of a string is: the text in double quotes, with escapes.
pub uninterp spec fn debug_text(text: Seq<char>) -> Seq<char>;

/// A printable ASCII character other than a double quote and a backslash.
pub open spec fn is_plain(c: char) -> bool {
    &&& 0x20 <= c as u32 <= 0x7e
    &&& c != '"'
    &&& c != '\\'
}

/// All of `text` is plain.
pub open spec fn all_plain(text: Seq<char>) -> bool {
    forall|i: int| 0 <= i < text.len() ==> is_plain(#[trigger] text[i])
}

/// `text` in quotes: as it is where all of it is plain, else as `Debug` shows it.
pub open spec fn shown(text: Seq<char>) -> Seq<char> {
    if all_plain(text) {
        seq!['"'] + text + seq!['"']
    } else {
        debug_text(text)
    }
}

/// The `Debug` output of `str`. It depends on the text alone; plain characters stand in it as they
/// are.
#[verifier::external_body]
pub(crate) fn quoted(text: &str) -> (output: String)
    ensures
        output@ == debug_text(text@),
        output@ == shown(text@),
{
    format!("{text:?}")
}

/// A character with the Unicode property White_Space.
pub open spec fn is_white_space(c: char) -> bool {
    let n = c as u32;
    ||| 0x9 <= n <= 0xd
    ||| n == 0x20
    ||| n == 0x85
    ||| n == 0xa0
    ||| n == 0x1680
    ||| 0x2000 <= n <= 0x200a
    ||| n == 0x2028
    ||| n == 0x2029
    ||| n == 0x202f
    ||| n == 0x205f
    ||| n == 0x3000
}

/// `text` without white space at either end.
pub open spec fn trimmed(text: Seq<char>) -> Seq<char>
    decreases text.len(),
{
    if text.len() > 0 && is_white_space(text.first()) {
        trimmed(text.drop_first())
    } else if text.len() > 0 && is_white_space(text.last()) {
        trimmed(text.drop_last())
    } else {
        text
    }
}

/// `str::trim`: the text without leading and trailing white space.
pub assume_specification[ str::trim ](text: &str) -> (rest: &str)
    ensures
        rest@ == trimmed(text@),
;

/// An ASCII digit.
pub open spec fn is_digit(c: char) -> bool {
    '0' as u32 <= c as u32 <= '9' as u32
}

/// The number that a run of digits stands for.
pub open spec fn digits_value(digits: Seq<char>) -> nat
    decreases digits.len(),
{
    if digits.len() == 0 {
        0
    } else {
        10 * digits_value(digits.drop_last()) + (digits.last() as u32 - '0' as u32) as nat
    }
}

/// There is a digit, and nothing else.
pub open spec fn is_digits(text: Seq<char>) -> bool {
    &&& text.len() > 0
    &&& forall|i: int| 0 <= i < text.len() ==> is_digit(#[trigger] text[i])
}

/// The digits of a number: a plus sign before them does not count.
pub open spec fn without_plus(text: Seq<char>) -> Seq<char> {
    if text.len() > 0 && text[0] == '+' {
        text.drop_first()
    } else {
        text
    }
}

/// The number that `text` stands for: digits, with a plus sign before them or without, whose value
/// fits.
pub open spec fn number_in(text: Seq<char>) -> Option<u64> {
    let digits = without_plus(text);
    if is_digits(digits) && digits_value(digits) <= u64::MAX {
        Some(digits_value(digits) as u64)
    } else {
        None
    }
}

/// `u64::from_str`: an optional plus sign followed by nothing but digits, of a value that fits.
#[verifier::external_body]
pub(crate) fn parse_number(text: &str) -> (number: Option<u64>)
    ensures
        number == number_in(text@),
{
    text.parse::<u64>().ok()
}

/// Texts are in the order of the characters at which they part, and a text comes before what it
/// begins.
pub proof fn law_order_of_texts(
    common: Seq<char>,
    x: char,
    y: char,
    a: Seq<char>,
    b: Seq<char>,
)
    ensures
        (x as u32) < (y as u32) ==> precedes(common.push(x) + a, common.push(y) + b),
        (x as u32) < (y as u32) ==> !precedes(common.push(y) + b, common.push(x) + a),
        precedes(common, common.push(x) + a),
        !precedes(common.push(x) + a, common),
{
    let left = common.push(x) + a;
    let right = common.push(y) + b;
    let n = common.len() as int;
    if (x as u32) < (y as u32) {
        assert(agree(left, right, n));
        assert(left[n] == x && right[n] == y);
        if precedes(right, left) {
            lemma_precedes_transitive(left, right, left);
            lemma_precedes_irreflexive(left);
        }
    }
    assert(agree(common, left, n));
    if precedes(left, common) {
        lemma_precedes_transitive(left, common, left);
        lemma_precedes_irreflexive(left);
    }
}

/// Printable text without quotes and backslashes is shown as it is, between quotes.
pub proof fn law_plain_text_is_shown_as_it_is(text: Seq<char>)
    requires
        forall|i: int|
            0 <= i < text.len() ==> ' ' as u32 <= (#[trigger] text[i]) as u32 <= '~' as u32
                && text[i] != '"' && text[i] != '\\',
    ensures
        shown(text) == seq!['"'] + text + seq!['"'],
{
}

/// White space before and behind a text is taken off, and no more.
pub proof fn law_white_space_is_taken_off(before: Seq<char>, text: Seq<char>, after: Seq<char>)
    requires
        forall|i: int| 0 <= i < before.len() ==> is_white_space(#[trigger] before[i]),
        forall|i: int| 0 <= i < after.len() ==> is_white_space(#[trigger] after[i]),
        text.len() > 0 ==> !is_white_space(text.first()) && !is_white_space(text.last()),
    ensures
        trimmed(before + text + after) == text,
    decreases before.len() + after.len(),
{
    let whole = before + text + after;
    if before.len() > 0 {
        assert(whole.first() == before[0]);
        assert(whole.drop_first() =~= before.drop_first() + text + after);
        law_white_space_is_taken_off(before.drop_first(), text, after);
    } else if after.len() > 0 {
        if text.len() == 0 {
            assert(whole.first() == after[0]);
            assert(whole.drop_first() =~= before + text + after.drop_first());
            law_white_space_is_taken_off(before, text, after.drop_first());
        } else {
            assert(whole.first() == text.first());
            assert(whole.last() == after.last());
            assert(whole.drop_last() =~= before + text + after.drop_last());
            law_white_space_is_taken_off(before, text, after.drop_last());
        }
    } else {
        assert(whole =~= text);
    }
}

/// Of the ASCII characters, the space and those from the tab to the carriage return are white
/// space.
pub proof fn law_ascii_white_space(c: char)
    requires
        (c as u32) < 0x80,
    ensures
        is_white_space(c) <==> c == ' ' || '\t' as u32 <= c as u32 <= '\r' as u32,
{
    lemma_code_point_identifies(c, ' ');
}

/// What is taken off a text is white space.
pub proof fn law_only_white_space_is_taken_off(text: Seq<char>, i: int)
    requires
        0 <= i < text.len(),
        !is_white_space(text[i]),
    ensures
        trimmed(text).contains(text[i]),
    decreases text.len(),
{
    if is_white_space(text.first()) {
        assert(text.drop_first()[i - 1] == text[i]);
        law_only_white_space_is_taken_off(text.drop_first(), i - 1);
    } else if is_white_space(text.last()) {
        assert(text.drop_last()[i] == text[i]);
        law_only_white_space_is_taken_off(text.drop_last(), i);
    }
}

/// A number in decimal is made of digits, does not begin with a zero unless it is zero, and stands
/// for that number.
pub proof fn law_decimal_stands_for_the_number(n: nat)
    ensures
        is_digits(decimal(n)),
        digits_value(decimal(n)) == n,
        decimal(n)[0] == '0' ==> n == 0,
    decreases n,
{
    if n < 10 {
        reveal_with_fuel(digits_value, 2);
        assert(decimal(n).drop_last() =~= Seq::empty());
        assert(decimal(n).last() == digit(n));
    } else {
        let earlier = decimal(n / 10);
        law_decimal_stands_for_the_number(n / 10);
        assert(decimal(n).drop_last() =~= earlier);
        assert(decimal(n).last() == digit(n % 10));
        assert(decimal(n)[0] == earlier[0]);
    }
}

/// A number in decimal is read as that number if it fits, with a plus sign or without, and is no
/// number if it does not fit.
pub proof fn law_decimal_is_read_back(n: nat)
    ensures
        n <= u64::MAX ==> number_in(decimal(n)) == Some(n as u64) && number_in(
            seq!['+'] + decimal(n),
        ) == Some(n as u64),
        n > u64::MAX ==> number_in(decimal(n)) is None && number_in(seq!['+'] + decimal(n)) is None,
{
    law_decimal_stands_for_the_number(n);
    assert(is_digit(decimal(n)[0]));
    assert((seq!['+'] + decimal(n)).drop_first() =~= decimal(n));
}

/// Digits are read as the number that they stand for, if it fits, and a plus sign before them makes
/// no difference.
pub proof fn law_digits_are_read(digits: Seq<char>)
    requires
        is_digits(digits),
    ensures
        digits_value(digits) <= u64::MAX ==> number_in(digits) == Some(digits_value(digits) as u64),
        digits_value(digits) > u64::MAX ==> number_in(digits) is None,
        number_in(seq!['+'] + digits) == number_in(digits),
{
    assert(is_digit(digits[0]));
    assert((seq!['+'] + digits).drop_first() =~= digits);
}

/// Zeros before a number make no difference.
pub proof fn law_leading_zero_makes_no_difference(digits: Seq<char>)
    requires
        is_digits(digits),
    ensures
        number_in(seq!['0'] + digits) == number_in(digits),
{
    let longer = seq!['0'] + digits;
    lemma_leading_zero(digits);
    assert(is_digit(digits[0]));
    assert forall|i: int| 0 <= i < longer.len() implies is_digit(#[trigger] longer[i]) by {
        if i > 0 {
            assert(longer[i] == digits[i - 1]);
        }
    }
}

proof fn lemma_leading_zero(digits: Seq<char>)
    ensures
        digits_value(seq!['0'] + digits) == digits_value(digits),
    decreases digits.len(),
{
    let longer = seq!['0'] + digits;
    if digits.len() == 0 {
        reveal_with_fuel(digits_value, 2);
        assert(longer.drop_last() =~= Seq::empty());
    } else {
        assert(longer.drop_last() =~= seq!['0'] + digits.drop_last());
        lemma_leading_zero(digits.drop_last());
    }
}

/// What is read as a number ends in a digit and holds nothing but digits and a plus sign at its
/// beginning.
pub proof fn law_number_is_made_of_digits(text: Seq<char>)
    requires
        number_in(text) is Some,
    ensures
        text.len() > 0,
        '0' as u32 <= text.last() as u32 <= '9' as u32,
        forall|i: int|
            0 <= i < text.len() ==> '0' as u32 <= (#[trigger] text[i]) as u32 <= '9' as u32 || (i
                == 0 && text[i] == '+'),
{
    let digits = without_plus(text);
    assert(is_digit(digits[digits.len() - 1]));
    assert forall|i: int| 0 <= i < text.len() implies '0' as u32 <= (#[trigger] text[i]) as u32
        <= '9' as u32 || (i == 0 && text[i] == '+') by {
        if text[0] == '+' {
            if i > 0 {
                assert(is_digit(digits[i - 1]));
            }
        } else {
            assert(is_digit(digits[i]));
        }
    }
}

}
