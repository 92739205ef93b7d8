//! What the platform provides: the clock and the directory for the user's
//! local data.

use vstd::prelude::*;

verus! {

/// `std::time::SystemTime`, a reading of the system clock; nothing is known
/// of what it holds.
#[verifier::external_type_specification]
#[verifier::external_body]
pub struct ExSystemTime(std::time::SystemTime);

/// `std::time::SystemTimeError`, the error of `SystemTime::duration_since`;
/// nothing is known of what it holds.
#[verifier::external_type_specification]
#[verifier::external_body]
pub struct ExSystemTimeError(std::time::SystemTimeError);

/// `SystemTime::now` reads the system clock; nothing is known of the result.
pub assume_specification[ std::time::SystemTime::now ]() -> (t: std::time::SystemTime);

/// `SystemTime::duration_since` gives the time elapsed since `earlier`, or an
/// error where `earlier` is the later of the two; nothing more is claimed.
pub assume_specification[ std::time::SystemTime::duration_since ](
    t: &std::time::SystemTime,
    earlier: std::time::SystemTime,
) -> (r: Result<std::time::Duration, std::time::SystemTimeError>);

/// `Duration::as_secs` gives the whole seconds of a duration; nothing is
/// claimed of the number.
pub assume_specification[ std::time::Duration::as_secs ](d: &std::time::Duration) -> (s: u64);

/// The constant `std::time::UNIX_EPOCH`.
#[verifier::external_body]
fn unix_epoch() -> (t: std::time::SystemTime) {
    std::time::UNIX_EPOCH
}

/// `DateTime::<Utc>::from` takes a reading of the system clock as a point
/// in time, and `DateTime::timestamp` counts its seconds since the Unix
/// epoch; a clock before the epoch gives a negative count. Nothing is known
/// of the result.
#[verifier::external_body]
pub(crate) fn local_timestamp() -> (t: i64) {
    chrono::DateTime::<chrono::Utc>::from(std::time::SystemTime::now()).timestamp()
}

/// `DateTime::<Local>::from` takes a reading of the system clock as a point
/// in local time, a clock before the epoch too, and `DateTime::format` with
/// `DelayedFormat::write_to` writes it by `pattern`; nothing is returned
/// where the pattern is not one that chrono knows, and nothing is known of
/// the text.
#[verifier::external_body]
pub(crate) fn local_time_text(pattern: &str) -> (text: Option<String>) {
    let mut text = String::new();
    let now = chrono::DateTime::<chrono::Local>::from(std::time::SystemTime::now());
    match now.format(pattern).write_to(&mut text) {
        Ok(_) => Some(text),
        Err(_) => None,
    }
}

/// `dirs::data_local_dir` gives the directory for the user's local data, by
/// the platform's rules and the environment; nothing is returned where
/// there is none or its path is not Unicode, and nothing is known of the
/// path.
#[verifier::external_body]
pub(crate) fn data_local_dir() -> (dir: Option<String>) {
    match dirs::data_local_dir() {
        Some(path) => path.into_os_string().into_string().ok(),
        None => None,
    }
}

/// The seconds since the Unix epoch by the system clock, or 0 where the clock
/// stands before the epoch.
pub fn unix_seconds() -> (now: u64) {
    let t = std::time::SystemTime::now();
    let elapsed = match t.duration_since(unix_epoch()) {
        Ok(d) => Some(d.as_secs()),
        Err(_) => None,
    };
    seconds_or_epoch(elapsed)
}

/// The second to stamp with, given the whole seconds that the clock counts
/// since the Unix epoch: that count, or 0, the epoch itself, where there is
/// none because the clock stands before it.
pub fn seconds_or_epoch(elapsed: Option<u64>) -> (now: u64)
    ensures
        now == match elapsed {
            Some(secs) => secs,
            None => 0,
        },
{
    match elapsed {
        Some(secs) => secs,
        None => 0,
    }
}

} // verus!
