//! Identifiers and the clock.
use crate::addr;
use vstd::prelude::*;

verus! {

/// What the system failed to provide.
#[derive(Clone, Copy, Debug, PartialEq, Eq, Structural)]
pub enum SystemError {
    /// The operating system gave no random bytes.
    Randomness,
    /// The clock stands before the Unix epoch, or too far behind it.
    Clock,
}

impl SystemError {
    /// The message that describes the failure.
    pub open spec fn text(self) -> Seq<char> {
        match self {
            SystemError::Randomness => "OS CSPRNG unavailable"@,
            SystemError::Clock => "system clock out of range"@,
        }
    }

    /// The message that describes the failure.
    pub fn message(self) -> (r: String)
        ensures
            r@ == self.text(),
    {
        match self {
            SystemError::Randomness => "OS CSPRNG unavailable".to_string(),
            SystemError::Clock => "system clock out of range".to_string(),
        }
    }
}

// ---------------------------------------------------------------------------
// Identifiers
// ---------------------------------------------------------------------------

/// The error that `getrandom::getrandom` reports.
#[verifier::external_type_specification]
#[verifier::external_body]
pub struct ExRandomError(getrandom::Error);

/// `getrandom::getrandom` fills the eight bytes with random bytes from the operating system, or
/// fails. Nothing is claimed of their values.
#[verifier::external_body]
fn random_bytes() -> (r: Result<[u8; 8], getrandom::Error>) {
    let mut bytes = [0u8; 8];
    getrandom::getrandom(&mut bytes)?;
    Ok(bytes)
}

/// Two lower-case hexadecimal digits for each byte.
pub open spec fn hex_text(bytes: Seq<u8>) -> Seq<char>
    decreases bytes.len(),
{
    if bytes.len() == 0 {
        Seq::<char>::empty()
    } else {
        hex_text(bytes.drop_last()) + seq![
            addr::hex_char((bytes.last() / 16) as nat),
            addr::hex_char((bytes.last() % 16) as nat),
        ]
    }
}

/// `hex::encode` writes each byte as two hexadecimal digits, in lower case and in order.
#[verifier::external_body]
fn hex_encode(bytes: &[u8]) -> (r: String)
    ensures
        r@ == hex_text(bytes@),
{
    hex::encode(bytes)
}

/// The id with the given prefix and bytes.
pub open spec fn id_text(prefix: Seq<char>, bytes: Seq<u8>) -> Seq<char> {
    prefix + "_"@ + hex_text(bytes)
}

/// Whether `id` has the prefix `prefix` and eight bytes.
pub open spec fn is_id(prefix: Seq<char>, id: Seq<char>) -> bool {
    exists|bytes: Seq<u8>| bytes.len() == 8 && id == #[trigger] id_text(prefix, bytes)
}

/// The id with the given prefix and bytes: `{prefix}_{hex digits}`.
pub fn id_from_bytes(prefix: &str, bytes: &[u8]) -> (r: String)
    ensures
        r@ == id_text(prefix@, bytes@),
{
    let mut s = prefix.to_string();
    s.push_str("_");
    s.push_str(&hex_encode(bytes));
    s
}

/// A unique id with a typed prefix: `{prefix}_{16 hex digits}` from the random source of the
/// operating system.
pub fn new_id(prefix: &str) -> (r: Result<String, SystemError>)
    ensures
        match r {
            Ok(s) => is_id(prefix@, s@),
            Err(e) => e == SystemError::Randomness,
        },
{
    match random_bytes() {
        Ok(bytes) => {
            let r = id_from_bytes(prefix, bytes.as_slice());
            assert(bytes@.len() == 8);
            Ok(r)
        },
        Err(_) => Err(SystemError::Randomness),
    }
}

// ---------------------------------------------------------------------------
// The clock
// ---------------------------------------------------------------------------

/// A reading of the system clock.
#[verifier::external_type_specification]
#[verifier::external_body]
pub struct ExSystemTime(std::time::SystemTime);

/// The error that `SystemTime::duration_since` reports.
#[verifier::external_type_specification]
#[verifier::external_body]
pub struct ExSystemTimeError(std::time::SystemTimeError);

/// `SystemTime::now` reads the system clock. Nothing is claimed of the reading.
pub assume_specification[ std::time::SystemTime::now ]() -> (r: std::time::SystemTime)
;

/// `SystemTime::duration_since` measures the time since the Unix epoch, or fails where `t` is
/// earlier. Nothing is claimed of the measure.
#[verifier::external_body]
fn since_epoch(t: std::time::SystemTime) -> (r: Result<
    core::time::Duration,
    std::time::SystemTimeError,
>) {
    t.duration_since(std::time::UNIX_EPOCH)
}

/// `Duration::as_secs` gives the whole seconds of a duration. Nothing is claimed of their number.
pub assume_specification[ core::time::Duration::as_secs ](d: &core::time::Duration) -> (r: u64)
;

/// Epoch seconds as the library stores them, from the whole seconds since the Unix epoch; `None` is a
/// clock that stands before it. A time that does not fit is an error.
pub fn epoch_secs(since_epoch: Option<u64>) -> (r: Result<i64, SystemError>)
    ensures
        match since_epoch {
            Some(secs) => if secs <= i64::MAX {
                r == Ok::<i64, SystemError>(secs as i64)
            } else {
                r == Err::<i64, SystemError>(SystemError::Clock)
            },
            None => r == Err::<i64, SystemError>(SystemError::Clock),
        },
{
    match since_epoch {
        Some(secs) => {
            if secs > i64::MAX as u64 {
                Err(SystemError::Clock)
            } else {
                Ok(secs as i64)
            }
        },
        None => Err(SystemError::Clock),
    }
}

/// Current wall-clock time in epoch seconds, from which serials are bumped.
pub fn now_secs() -> (r: Result<i64, SystemError>)
    ensures
        match r {
            Ok(n) => n >= 0,
            Err(e) => e == SystemError::Clock,
        },
{
    match since_epoch(std::time::SystemTime::now()) {
        Ok(d) => epoch_secs(Some(d.as_secs())),
        Err(_) => epoch_secs(None),
    }
}

} // verus!
