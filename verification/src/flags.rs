use vstd::prelude::*;

use crate::decimal::{decimal, decimal_value, is_digit, lemma_decimal_denotes};

verus! {

/// Why the value of a flag could not be had.
#[derive(Clone, Copy, Debug, PartialEq, Eq, Structural)]
pub enum FlagValueError {
    /// The argument after the flag is not an unsigned number of the flag's type.
    NotANumber,
    /// The flag is the last argument.
    Missing,
}

/// The text of each argument.
pub open spec fn texts(args: Seq<String>) -> Seq<Seq<char>> {
    args.map_values(|s: String| s@)
}

/// `p` is the first position of `target` in `items`.
pub open spec fn is_first_position(items: Seq<Seq<char>>, target: Seq<char>, p: int) -> bool {
    &&& 0 <= p < items.len()
    &&& items[p] == target
    &&& forall|j: int| 0 <= j < p ==> items[j] != target
}

/// The digits of an unsigned number's text: the text without one leading `+`.
pub open spec fn unsigned_digits(text: Seq<char>) -> Seq<char> {
    if text.len() > 0 && text[0] == '+' {
        text.drop_first()
    } else {
        text
    }
}

/// The number that `text` denotes as an unsigned integer no larger than `max`:
/// an optional `+` followed by at least one decimal digit and nothing else.
pub open spec fn parsed_unsigned(text: Seq<char>, max: nat) -> Option<nat> {
    let digits = unsigned_digits(text);
    if digits.len() > 0 && (forall|i: int| 0 <= i < digits.len() ==> is_digit(#[trigger] digits[i]))
        && decimal_value(digits) <= max {
        Some(decimal_value(digits))
    } else {
        None
    }
}

/// The decimal text of any number in range parses back to that number,
/// with or without a leading `+`.
pub proof fn lemma_decimal_text_parses(n: nat, max: nat)
    requires
        n <= max,
    ensures
        parsed_unsigned(decimal(n), max) == Some(n),
        parsed_unsigned(seq!['+'] + decimal(n), max) == Some(n),
{
    lemma_decimal_denotes(n);
    let d = decimal(n);
    assert(is_digit(d[0]));
    assert(unsigned_digits(d) == d);
    let signed = seq!['+'] + d;
    assert(signed[0] == '+');
    assert(signed.drop_first() =~= d);
    assert(unsigned_digits(signed) == d);
}

/// Parses `text` as a `u64` with `str::parse`.
/// Trusted: the standard library documents that an unsigned integer's text
/// is an optional `+` followed by decimal digits only, and that a value out
/// of range is an error.
#[verifier::external_body]
fn parse_u64(text: &str) -> (r: Option<u64>)
    ensures
        match parsed_unsigned(text@, u64::MAX as nat) {
            Some(v) => r == Some(v as u64),
            None => r is None,
        },
{
    text.parse::<u64>().ok()
}

/// Parses `text` as a `u32` with `str::parse`.
/// Trusted: the standard library documents that an unsigned integer's text
/// is an optional `+` followed by decimal digits only, and that a value out
/// of range is an error.
#[verifier::external_body]
fn parse_u32(text: &str) -> (r: Option<u32>)
    ensures
        match parsed_unsigned(text@, u32::MAX as nat) {
            Some(v) => r == Some(v as u32),
            None => r is None,
        },
{
    text.parse::<u32>().ok()
}

/// The first position of `flag` among `args`, if it occurs.
fn find_position(args: &[String], flag: &str) -> (r: Option<usize>)
    ensures
        match r {
            Some(p) => is_first_position(texts(args@), flag@, p as int),
            None => !texts(args@).contains(flag@),
        },
{
    let wanted = flag.to_owned();
    let n = args.len();
    let mut i: usize = 0;
    while i < n
        invariant
            n == args@.len(),
            wanted@ == flag@,
            i <= n,
            forall|j: int| 0 <= j < i ==> texts(args@)[j] != flag@,
        decreases n - i,
    {
        assert(texts(args@)[i as int] == args@[i as int]@);
        if args[i] == wanted {
            return Some(i);
        }
        i = i + 1;
    }
    proof {
        if texts(args@).contains(flag@) {
            let k = choose|k: int| 0 <= k < texts(args@).len() && texts(args@)[k] == flag@;
            assert(texts(args@)[k] != flag@);
        }
    }
    None
}

/// Whether the help flag `-h` is among `flags`.
pub fn find_help_flag(flags: &mut [String]) -> (found: bool)
    ensures
        found == texts(old(flags)@).contains("-h"@),
        final(flags)@ == old(flags)@,
{
    let found = find_position(flags, "-h");
    match found {
        Some(_pos) => true,
        None => false,
    }
}

/// Removes the first debug flag `-d` from `flags` and tells whether there was one.
pub fn find_and_remove_debug_flag(flags: &mut Vec<String>) -> (found: bool)
    ensures
        found == texts(old(flags)@).contains("-d"@),
        !found ==> final(flags)@ == old(flags)@,
        forall|p: int|
            is_first_position(texts(old(flags)@), "-d"@, p) ==> final(flags)@ == old(
                flags,
            )@.remove(p),
{
    let found = find_position(flags.as_slice(), "-d");
    match found {
        Some(pos) => {
            flags.remove(pos);
            true
        },
        None => false,
    }
}

/// The default wait between two lookups of a name, in milliseconds.
pub const DEFAULT_SLEEP_MS: u64 = 1000;

/// The default lookup time above which a warning is printed, in milliseconds.
pub const DEFAULT_WARNING_MS: u32 = 5;

/// Removes the flag `-s` and its value from `flags` and returns the value,
/// the wait between two lookups in milliseconds; `1000` without the flag.
/// Without a number after the flag only the flag is removed and the error
/// says what is wrong.
pub fn find_and_remove_sleep_value_in_ms(flags: &mut Vec<String>) -> (r: Result<u64, FlagValueError>)
    ensures
        !texts(old(flags)@).contains("-s"@) ==> r == Ok::<u64, FlagValueError>(DEFAULT_SLEEP_MS)
            && final(flags)@ == old(flags)@,
        forall|p: int|
            is_first_position(texts(old(flags)@), "-s"@, p) ==> if p + 1 < old(flags)@.len() {
                match parsed_unsigned(texts(old(flags)@)[p + 1], u64::MAX as nat) {
                    Some(v) => r == Ok::<u64, FlagValueError>(v as u64) && final(flags)@ == old(
                        flags,
                    )@.remove(p).remove(p),
                    None => r == Err::<u64, FlagValueError>(FlagValueError::NotANumber)
                        && final(flags)@ == old(flags)@.remove(p),
                }
            } else {
                r == Err::<u64, FlagValueError>(FlagValueError::Missing) && final(flags)@ == old(
                    flags,
                )@.remove(p)
            },
{
    let found = find_position(flags.as_slice(), "-s");
    match found {
        Some(pos) => {
            flags.remove(pos);
            if pos < flags.len() {
                let value = parse_u64(flags[pos].as_str());
                match value {
                    Some(wait_time) => {
                        flags.remove(pos);
                        Ok(wait_time)
                    },
                    None => Err(FlagValueError::NotANumber),
                }
            } else {
                Err(FlagValueError::Missing)
            }
        },
        None => Ok(DEFAULT_SLEEP_MS),
    }
}

/// Removes the flag `-w` and its value from `flags` and returns the value,
/// the lookup time in milliseconds above which a warning is printed; `5`
/// without the flag. Without a number after the flag only the flag is
/// removed and the error says what is wrong.
pub fn find_and_remove_warning_time_in_ms(flags: &mut Vec<String>) -> (r: Result<u32, FlagValueError>)
    ensures
        !texts(old(flags)@).contains("-w"@) ==> r == Ok::<u32, FlagValueError>(DEFAULT_WARNING_MS)
            && final(flags)@ == old(flags)@,
        forall|p: int|
            is_first_position(texts(old(flags)@), "-w"@, p) ==> if p + 1 < old(flags)@.len() {
                match parsed_unsigned(texts(old(flags)@)[p + 1], u32::MAX as nat) {
                    Some(v) => r == Ok::<u32, FlagValueError>(v as u32) && final(flags)@ == old(
                        flags,
                    )@.remove(p).remove(p),
                    None => r == Err::<u32, FlagValueError>(FlagValueError::NotANumber)
                        && final(flags)@ == old(flags)@.remove(p),
                }
            } else {
                r == Err::<u32, FlagValueError>(FlagValueError::Missing) && final(flags)@ == old(
                    flags,
                )@.remove(p)
            },
{
    let found = find_position(flags.as_slice(), "-w");
    match found {
        Some(pos) => {
            flags.remove(pos);
            if pos < flags.len() {
                let value = parse_u32(flags[pos].as_str());
                match value {
                    Some(warning_time) => {
                        flags.remove(pos);
                        Ok(warning_time)
                    },
                    None => Err(FlagValueError::NotANumber),
                }
            } else {
                Err(FlagValueError::Missing)
            }
        },
        None => Ok(DEFAULT_WARNING_MS),
    }
}

} // verus!
