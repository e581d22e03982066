//! The wall clock and decimal rendering, as used for artifact identifiers.

use vstd::prelude::*;

verus! {

/// Declares `std::time::SystemTime` to Verus, as an opaque type.
#[verifier::external_type_specification]
#[verifier::external_body]
pub struct ExSystemTime(std::time::SystemTime);

/// Declares `std::time::SystemTimeError` to Verus, as an opaque type.
#[verifier::external_type_specification]
#[verifier::external_body]
pub struct ExSystemTimeError(std::time::SystemTimeError);

/// Calls `std::time::SystemTime::now`. The result is the machine's clock:
/// nothing is promised of it.
#[verifier::external_body]
fn system_time_now() -> (t: std::time::SystemTime) {
    std::time::SystemTime::now()
}

/// Calls `SystemTime::duration_since` with `UNIX_EPOCH`: the time elapsed
/// since the epoch, or an error when the clock is set before it. Which of the
/// two comes back depends on the clock: nothing is promised.
#[verifier::external_body]
fn elapsed_since_unix_epoch(t: &std::time::SystemTime) -> (r: Result<std::time::Duration, std::time::SystemTimeError>) {
    t.duration_since(std::time::UNIX_EPOCH)
}

/// Calls `Duration::as_millis`: the whole milliseconds in the duration. The
/// library holds no model of a duration, so nothing is stated of the result.
#[verifier::external_body]
fn whole_milliseconds(d: &std::time::Duration) -> (r: u128) {
    d.as_millis()
}

/// The character of a decimal digit.
pub open spec fn digit_char(d: nat) -> char {
    (d + 48) as char
}

/// The decimal digits of a natural number, most significant first, without
/// leading zeros (zero is `"0"`).
pub open spec fn decimal_digits_of(n: nat) -> Seq<char>
    decreases n,
{
    if n < 10 {
        seq![digit_char(n)]
    } else {
        decimal_digits_of(n / 10).push(digit_char(n % 10))
    }
}

/// The decimal rendering of a `u64`.
pub open spec fn decimal_digits(n: u64) -> Seq<char> {
    decimal_digits_of(n as nat)
}

/// The one-character text of a decimal digit.
fn digit_text(d: u64) -> (r: &'static str)
    requires
        d < 10,
    ensures
        r@ == seq![digit_char(d as nat)],
{
    proof {
        reveal_strlit("0");
        reveal_strlit("1");
        reveal_strlit("2");
        reveal_strlit("3");
        reveal_strlit("4");
        reveal_strlit("5");
        reveal_strlit("6");
        reveal_strlit("7");
        reveal_strlit("8");
        reveal_strlit("9");
    }
    if d == 0 {
        "0"
    } else if d == 1 {
        "1"
    } else if d == 2 {
        "2"
    } else if d == 3 {
        "3"
    } else if d == 4 {
        "4"
    } else if d == 5 {
        "5"
    } else if d == 6 {
        "6"
    } else if d == 7 {
        "7"
    } else if d == 8 {
        "8"
    } else {
        "9"
    }
}

/// The decimal digits of `n`, most significant first, without leading zeros.
pub(crate) fn decimal_text(n: u64) -> (r: String)
    ensures
        r@ == decimal_digits(n),
    decreases n,
{
    if n < 10 {
        digit_text(n).to_owned()
    } else {
        let mut s = decimal_text(n / 10);
        s.append(digit_text(n % 10));
        s
    }
}

/// The stamp for a clock reading: the whole milliseconds since the Unix
/// epoch, truncated to 64 bits, or zero for a clock set before the epoch
/// (`None`).
pub open spec fn stamp_of(reading: Option<u128>) -> u64 {
    match reading {
        Some(m) => m as u64,
        None => 0,
    }
}

/// The stamp for a clock reading: the milliseconds since the Unix epoch
/// truncated to 64 bits, or zero when the clock read before the epoch.
pub fn stamp_from_reading(reading: Option<u128>) -> (s: u64)
    ensures
        s == stamp_of(reading),
{
    match reading {
        Some(m) => m as u64,
        None => 0,
    }
}

/// Milliseconds since the Unix epoch on the system clock, truncated to 64
/// bits; zero when the clock reads before the epoch: the clock is read, and
/// [`stamp_from_reading`] turns the reading into the stamp. Every `u64` is a
/// possible reading of the clock, so nothing is stated of the result.
pub fn uuid_stamp() -> (stamp: u64) {
    let now = system_time_now();
    let reading: Option<u128> = match elapsed_since_unix_epoch(&now) {
        Ok(d) => Some(whole_milliseconds(&d)),
        Err(_) => None,
    };
    stamp_from_reading(reading)
}

} // verus!
