use crate::error::PipelineError;
use vstd::prelude::*;

verus! {

/// Seconds in a day; every time of day is below it.
pub const SECONDS_PER_DAY: u32 = 86400;

pub open spec fn is_digit(c: char) -> bool {
    '0' as u32 <= c as u32 && c as u32 <= '9' as u32
}

pub open spec fn digit_value(c: char) -> nat {
    (c as u32 - '0' as u32) as nat
}

/// The number written by the two decimal digits at `i` and `i + 1`.
pub open spec fn two_digits(s: Seq<char>, i: int) -> nat {
    10 * digit_value(s[i]) + digit_value(s[i + 1])
}

/// Whether `name` has the shape `DD_DD_DD.json`, with ASCII decimal digits.
pub open spec fn has_entry_shape(name: Seq<char>) -> bool {
    &&& name.len() == 13
    &&& is_digit(name[0]) && is_digit(name[1])
    &&& name[2] == '_'
    &&& is_digit(name[3]) && is_digit(name[4])
    &&& name[5] == '_'
    &&& is_digit(name[6]) && is_digit(name[7])
    &&& name[8] == '.' && name[9] == 'j' && name[10] == 's' && name[11] == 'o' && name[12] == 'n'
}

/// The time of day, in seconds after midnight, that an entry name
/// `HH_MM_SS.json` stands for; `None` for any other name, and for an hour
/// above 23 or a minute or second above 59.
pub open spec fn entry_time(name: Seq<char>) -> Option<nat> {
    if has_entry_shape(name) && two_digits(name, 0) < 24 && two_digits(name, 3) < 60
        && two_digits(name, 6) < 60 {
        Some(3600 * two_digits(name, 0) + 60 * two_digits(name, 3) + two_digits(name, 6))
    } else {
        None
    }
}

fn digit_at(name: &str, i: usize) -> (r: Option<u32>)
    requires
        i < name@.len(),
    ensures
        is_digit(name@[i as int]) ==> r == Some(digit_value(name@[i as int]) as u32),
        !is_digit(name@[i as int]) ==> r is None,
{
    let c = name.get_char(i);
    let v = c as u32;
    if v >= '0' as u32 && v <= '9' as u32 {
        Some(v - '0' as u32)
    } else {
        None
    }
}

fn two_digits_at(name: &str, i: usize) -> (r: Option<u32>)
    requires
        name@.len() == 13,
        i < 12,
    ensures
        (is_digit(name@[i as int]) && is_digit(name@[i + 1])) ==> r == Some(
            two_digits(name@, i as int) as u32,
        ),
        !(is_digit(name@[i as int]) && is_digit(name@[i + 1])) ==> r is None,
{
    match (digit_at(name, i), digit_at(name, i + 1)) {
        (Some(a), Some(b)) => Some(10 * a + b),
        _ => None,
    }
}

/// Reads the time of day from an archive entry's file name `HH_MM_SS.json`.
pub fn parse_entry_name(name: &str) -> (r: Result<u32, PipelineError>)
    ensures
        match entry_time(name@) {
            Some(t) => r == Ok::<u32, PipelineError>(t as u32) && t < SECONDS_PER_DAY,
            None => r == Err::<u32, PipelineError>(PipelineError::MalformedEntryName),
        },
{
    if name.unicode_len() != 13 {
        return Err(PipelineError::MalformedEntryName);
    }
    let hour = two_digits_at(name, 0);
    let minute = two_digits_at(name, 3);
    let second = two_digits_at(name, 6);
    if name.get_char(2) != '_' || name.get_char(5) != '_' || name.get_char(8) != '.'
        || name.get_char(9) != 'j' || name.get_char(10) != 's' || name.get_char(11) != 'o'
        || name.get_char(12) != 'n' {
        return Err(PipelineError::MalformedEntryName);
    }
    match (hour, minute, second) {
        (Some(h), Some(m), Some(s)) => {
            if h < 24 && m < 60 && s < 60 {
                Ok(3600 * h + 60 * m + s)
            } else {
                Err(PipelineError::MalformedEntryName)
            }
        },
        _ => Err(PipelineError::MalformedEntryName),
    }
}

} // verus!
