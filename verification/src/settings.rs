//! Settings that come from the environment as text.

use crate::text::{
    decimal, digits_value, is_digit, is_digits, is_white_space, law_decimal_stands_for_the_number,
    law_digits_are_read, law_number_is_made_of_digits, law_only_white_space_is_taken_off,
    law_white_space_is_taken_off, number_in, parse_number, trimmed,
};
use vstd::prelude::*;

verus! {

/// How long the store has to be left alone before it is written, in milliseconds.
pub const DEFAULT_DEBOUNCE_MS: u64 = 1000;

/// How many entries the store may have before it refuses a new key.
pub const DEFAULT_ENTRY_LIMIT: u64 = 10_000;

pub const ENV_DEBOUNCE_MS: &'static str = "NVNMOSD_ANNOTATION_DEBOUNCE_MS";

pub const ENV_ENTRY_LIMIT: &'static str = "NVNMOSD_ANNOTATION_ENTRY_LIMIT";

pub const ENV_CHECKPOINT_FILE: &'static str = "NVNMOSD_ANNOTATION_CHECKPOINT_FILE";

/// The number that a setting stands for: white space around it does not count, and where it is
/// absent or no number the default holds.
pub open spec fn setting_number(setting: Option<&str>, default: u64) -> u64 {
    match setting {
        Some(value) => match number_in(trimmed(value@)) {
            Some(number) => number,
            None => default,
        },
        None => default,
    }
}

/// The number in the text of a setting.
pub fn parse_setting(value: &str) -> (number: Option<u64>)
    ensures
        number == number_in(trimmed(value@)),
{
    parse_number(value.trim())
}

/// The number that a setting stands for.
pub fn read_u64_env(setting: Option<&str>, default: u64) -> (number: u64)
    ensures
        number == setting_number(setting, default),
{
    match setting {
        None => default,
        Some(value) => match parse_setting(value) {
            Some(number) => number,
            None => default,
        },
    }
}

/// The debounce, in milliseconds.
pub fn debounce_ms(setting: Option<&str>) -> (milliseconds: u64)
    ensures
        milliseconds == setting_number(setting, DEFAULT_DEBOUNCE_MS),
        setting is None ==> milliseconds == 1000,
{
    read_u64_env(setting, DEFAULT_DEBOUNCE_MS)
}

/// The limit of entries. A number that does not fit is taken as the largest that does.
pub fn entry_limit(setting: Option<&str>) -> (limit: usize)
    ensures
        limit as int == (if setting_number(setting, DEFAULT_ENTRY_LIMIT) <= usize::MAX {
            setting_number(setting, DEFAULT_ENTRY_LIMIT) as int
        } else {
            usize::MAX as int
        }),
        setting is None ==> limit == 10_000,
{
    let limit: u64 = read_u64_env(setting, DEFAULT_ENTRY_LIMIT);
    if limit <= usize::MAX as u64 {
        limit as usize
    } else {
        usize::MAX
    }
}

/// The names of the settings.
pub proof fn law_names_of_settings()
    ensures
        ENV_DEBOUNCE_MS@ == "NVNMOSD_ANNOTATION_DEBOUNCE_MS"@,
        ENV_ENTRY_LIMIT@ == "NVNMOSD_ANNOTATION_ENTRY_LIMIT"@,
        ENV_CHECKPOINT_FILE@ == "NVNMOSD_ANNOTATION_CHECKPOINT_FILE"@,
{
}

/// Where a setting is absent, the default holds: a debounce of one second, and ten thousand
/// entries.
pub proof fn law_absent_setting_is_the_default(default: u64)
    ensures
        setting_number(None, default) == default,
        setting_number(None, DEFAULT_DEBOUNCE_MS) == 1000,
        setting_number(None, DEFAULT_ENTRY_LIMIT) == 10000,
{
}

/// A setting that holds digits stands for their number, with white space around them or without,
/// and with a plus sign or without. A number that does not fit is none, and the default holds.
pub proof fn law_setting_stands_for_its_digits(
    value: &str,
    before: Seq<char>,
    digits: Seq<char>,
    after: Seq<char>,
    default: u64,
)
    requires
        is_digits(digits),
        value@ == before + digits + after || value@ == before + (seq!['+'] + digits) + after,
        forall|i: int| 0 <= i < before.len() ==> is_white_space(#[trigger] before[i]),
        forall|i: int| 0 <= i < after.len() ==> is_white_space(#[trigger] after[i]),
    ensures
        digits_value(digits) <= u64::MAX ==> setting_number(Some(value), default) == digits_value(
            digits,
        ),
        digits_value(digits) > u64::MAX ==> setting_number(Some(value), default) == default,
{
    law_digits_are_read(digits);
    assert(is_digit(digits[0]));
    assert(is_digit(digits[digits.len() - 1]));
    law_white_space_is_taken_off(before, digits, after);
    law_white_space_is_taken_off(before, seq!['+'] + digits, after);
}

/// A setting that holds a number in decimal stands for that number, zero among them.
pub proof fn law_setting_stands_for_its_number(
    value: &str,
    before: Seq<char>,
    n: nat,
    after: Seq<char>,
    default: u64,
)
    requires
        value@ == before + decimal(n) + after || value@ == before + (seq!['+'] + decimal(n))
            + after,
        forall|i: int| 0 <= i < before.len() ==> is_white_space(#[trigger] before[i]),
        forall|i: int| 0 <= i < after.len() ==> is_white_space(#[trigger] after[i]),
    ensures
        n <= u64::MAX ==> setting_number(Some(value), default) == n,
        n > u64::MAX ==> setting_number(Some(value), default) == default,
{
    law_decimal_stands_for_the_number(n);
    law_setting_stands_for_its_digits(value, before, decimal(n), after, default);
}

/// A setting that holds anything but digits, white space and a plus sign is no number, and the
/// default holds.
pub proof fn law_setting_that_is_no_number(value: &str, i: int, default: u64)
    requires
        0 <= i < value@.len(),
        !is_white_space(value@[i]),
        !is_digit(value@[i]),
        value@[i] != '+',
    ensures
        setting_number(Some(value), default) == default,
{
    let text = trimmed(value@);
    law_only_white_space_is_taken_off(value@, i);
    if number_in(text) is Some {
        law_number_is_made_of_digits(text);
        let k = choose|k: int| 0 <= k < text.len() && text[k] == value@[i];
        assert('0' as u32 <= text[k] as u32 <= '9' as u32 || (k == 0 && text[k] == '+'));
    }
}

/// A setting that holds nothing but white space is no number, and the default holds.
pub proof fn law_blank_setting_is_the_default(value: &str, default: u64)
    requires
        forall|i: int| 0 <= i < value@.len() ==> is_white_space(#[trigger] value@[i]),
    ensures
        setting_number(Some(value), default) == default,
{
    law_white_space_is_taken_off(value@, Seq::empty(), Seq::empty());
    assert(value@ + Seq::<char>::empty() + Seq::<char>::empty() =~= value@);
}

}
