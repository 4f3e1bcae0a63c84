//! The rules of the screen lock: the form of a PIN, and the counting of
//! failed attempts with a lockout after too many of them.
//!
//! A PIN is hashed and compared with its hash by `bcrypt`; what follows
//! from the comparison is decided here.

use crate::model::{same_text, EngineError};
use vstd::prelude::*;
use vstd::string::StringSliceAdditionalSpecFns;

verus! {

/// Failed attempts after which the lock refuses further ones for a while.
pub const MAX_FAILED_ATTEMPTS: u32 = 5;

/// How long the lock refuses attempts after too many failed ones.
pub const LOCKOUT_SECONDS: u64 = 30;

pub const MIN_PIN_LENGTH: usize = 4;

pub const MAX_PIN_LENGTH: usize = 8;

/// What the lock shows of itself.
#[derive(Clone, Copy, Debug, PartialEq, Eq, Structural)]
pub struct SecurityStatus {
    pub pin_enabled: bool,
    pub lock_timeout_minutes: i32,
    pub failed_attempts: u32,
    pub is_locked_out: bool,
}

/// The failed attempts so far, and the second until which the lock
/// refuses attempts, if it does.
#[derive(Clone, Copy, Debug, PartialEq, Eq, Structural)]
pub struct LockState {
    pub failed_attempts: u32,
    pub lockout_until: Option<u64>,
}

/// What an attempt to unlock leads to.
#[derive(Clone, Copy, Debug, PartialEq, Eq, Structural)]
pub enum PinOutcome {
    /// The PIN was right.
    Accepted,
    /// The PIN was wrong; so many attempts are left.
    Incorrect { remaining: u32 },
    /// The PIN was wrong once too often; the lock now refuses attempts for
    /// so many seconds.
    LockedNow { seconds: u64 },
    /// The lock refuses attempts for so many seconds more; the PIN was not
    /// looked at.
    StillLocked { seconds: u64 },
}

pub open spec fn is_digit(b: u8) -> bool {
    48 <= b <= 57
}

/// Why a text is no PIN: `None` for four to eight decimal digits.
pub open spec fn pin_format_error(bytes: Seq<u8>) -> Option<EngineError> {
    if bytes.len() < MIN_PIN_LENGTH || bytes.len() > MAX_PIN_LENGTH {
        Some(EngineError::PinLength)
    } else if exists|i: int| 0 <= i < bytes.len() && !is_digit(#[trigger] bytes[i]) {
        Some(EngineError::PinNotDigits)
    } else {
        None
    }
}

/// Tests the form of a PIN: four to eight bytes, each a decimal digit.
pub fn validate_pin_format(pin: &str) -> (r: Result<(), EngineError>)
    ensures
        match r {
            Ok(_) => pin_format_error(pin.spec_bytes()) is None,
            Err(e) => pin_format_error(pin.spec_bytes()) == Some(e),
        },
{
    let bytes = pin.as_bytes();
    if bytes.len() < MIN_PIN_LENGTH || bytes.len() > MAX_PIN_LENGTH {
        return Err(EngineError::PinLength);
    }
    let mut i: usize = 0;
    while i < bytes.len()
        invariant
            i <= bytes.len(),
            bytes@ == pin.spec_bytes(),
            MIN_PIN_LENGTH <= bytes.len() <= MAX_PIN_LENGTH,
            forall|k: int| 0 <= k < i ==> is_digit(#[trigger] bytes@[k]),
        decreases bytes.len() - i,
    {
        let b = bytes[i];
        if b < 48 || b > 57 {
            assert(!is_digit(bytes@[i as int]));
            return Err(EngineError::PinNotDigits);
        }
        i += 1;
    }
    Ok(())
}

/// Whether the lock refuses attempts at the second `now`.
pub open spec fn locked_at(state: LockState, now: u64) -> bool {
    state.lockout_until matches Some(until) && now < until
}

/// The state after a lockout that has run out is cleared; a state that is
/// still locked, or was never locked, stays.
pub open spec fn expire_spec(state: LockState, now: u64) -> LockState {
    if state.lockout_until is Some && !locked_at(state, now) {
        LockState { failed_attempts: 0, lockout_until: None }
    } else {
        state
    }
}

/// The second at which a lockout that begins at `now` ends.
pub open spec fn lockout_end(now: u64) -> u64 {
    if now <= u64::MAX - LOCKOUT_SECONDS {
        (now + LOCKOUT_SECONDS) as u64
    } else {
        u64::MAX
    }
}

/// The state and the outcome that an attempt leads to.
pub open spec fn attempt_spec(state: LockState, now: u64, correct: bool) -> (LockState, PinOutcome) {
    if locked_at(state, now) {
        (state, PinOutcome::StillLocked { seconds: (state.lockout_until.unwrap() - now) as u64 })
    } else if correct {
        (LockState { failed_attempts: 0, lockout_until: None }, PinOutcome::Accepted)
    } else {
        let cleared = expire_spec(state, now);
        let attempts = if cleared.failed_attempts < u32::MAX {
            (cleared.failed_attempts + 1) as u32
        } else {
            cleared.failed_attempts
        };
        if attempts >= MAX_FAILED_ATTEMPTS {
            (
                LockState {
                    failed_attempts: attempts,
                    lockout_until: Some(lockout_end(now)),
                },
                PinOutcome::LockedNow { seconds: LOCKOUT_SECONDS },
            )
        } else {
            (
                LockState { failed_attempts: attempts, lockout_until: None },
                PinOutcome::Incorrect { remaining: (MAX_FAILED_ATTEMPTS - attempts) as u32 },
            )
        }
    }
}

/// Clears a lockout that has run out.
pub fn check_lockout(state: LockState, now: u64) -> (r: Result<LockState, PinOutcome>)
    ensures
        match r {
            Ok(s) => !locked_at(state, now) && s == expire_spec(state, now),
            Err(o) => locked_at(state, now) && o == (PinOutcome::StillLocked {
                seconds: (state.lockout_until.unwrap() - now) as u64,
            }),
        },
{
    match state.lockout_until {
        None => Ok(state),
        Some(until) => {
            if now < until {
                Err(PinOutcome::StillLocked { seconds: until - now })
            } else {
                Ok(LockState { failed_attempts: 0, lockout_until: None })
            }
        },
    }
}

/// Takes note of an attempt to unlock at the second `now`, of which the
/// caller says whether the PIN was right.
pub fn record_attempt(state: LockState, now: u64, correct: bool) -> (r: (LockState, PinOutcome))
    ensures
        r == attempt_spec(state, now, correct),
{
    let cleared = match check_lockout(state, now) {
        Ok(s) => s,
        Err(outcome) => {
            return (state, outcome);
        },
    };
    if correct {
        return (LockState { failed_attempts: 0, lockout_until: None }, PinOutcome::Accepted);
    }
    let attempts = if cleared.failed_attempts < u32::MAX {
        cleared.failed_attempts + 1
    } else {
        cleared.failed_attempts
    };
    if attempts >= MAX_FAILED_ATTEMPTS {
        (
            LockState {
                failed_attempts: attempts,
                lockout_until: Some(
                    if now <= u64::MAX - LOCKOUT_SECONDS {
                        now + LOCKOUT_SECONDS
                    } else {
                        u64::MAX
                    },
                ),
            },
            PinOutcome::LockedNow { seconds: LOCKOUT_SECONDS },
        )
    } else {
        (
            LockState { failed_attempts: attempts, lockout_until: None },
            PinOutcome::Incorrect { remaining: MAX_FAILED_ATTEMPTS - attempts },
        )
    }
}

/// What the lock shows of itself at the second `now`.
pub fn get_security_status(
    pin_enabled: bool,
    lock_timeout_minutes: i32,
    state: LockState,
    now: u64,
) -> (r: SecurityStatus)
    ensures
        r == (SecurityStatus {
            pin_enabled,
            lock_timeout_minutes,
            failed_attempts: state.failed_attempts,
            is_locked_out: locked_at(state, now),
        }),
{
    let is_locked_out = match state.lockout_until {
        Some(until) => now < until,
        None => false,
    };
    SecurityStatus {
        pin_enabled,
        lock_timeout_minutes,
        failed_attempts: state.failed_attempts,
        is_locked_out,
    }
}

/// Tests a new time after which the screen locks by itself, in minutes.
pub fn set_lock_timeout(minutes: i32) -> (r: Result<i32, EngineError>)
    ensures
        r == (if minutes < 0 {
            Err::<i32, EngineError>(EngineError::NegativeTimeout)
        } else {
            Ok(minutes)
        }),
{
    if minutes < 0 {
        Err(EngineError::NegativeTimeout)
    } else {
        Ok(minutes)
    }
}

/// Whether a PIN is the one that a stored hash was made of, as `bcrypt`
/// finds it; `None` where it cannot read the hash.
pub uninterp spec fn bcrypt_verdict(pin: Seq<char>, hash: Seq<char>) -> Option<bool>;

/// Compares a PIN with a stored hash.
///
/// Trusted: calls `bcrypt::verify`, which recomputes the hash of the PIN
/// with the salt and the cost that the stored hash names and compares the
/// two; it fails on a stored hash that it cannot read.
#[verifier::external_body]
fn bcrypt_check(pin: &str, hash: &str) -> (r: Option<bool>)
    ensures
        r == bcrypt_verdict(pin@, hash@),
{
    match bcrypt::verify(pin.as_bytes(), hash) {
        Ok(same) => Some(same),
        Err(_) => None,
    }
}

/// Makes the hash under which a PIN is stored.
///
/// Trusted: calls `bcrypt::hash` with the default cost. The salt is drawn
/// at random, so nothing is said of the hash.
#[verifier::external_body]
fn bcrypt_hash(pin: &str) -> (r: Option<String>) {
    match bcrypt::hash(pin.as_bytes(), bcrypt::DEFAULT_COST) {
        Ok(hashed) => Some(hashed),
        Err(_) => None,
    }
}

/// What comparing a PIN with the stored hash comes to, for a verdict of
/// `bcrypt`.
pub open spec fn pin_check(stored_hash: Seq<char>, verdict: Option<bool>) -> Result<
    (),
    EngineError,
> {
    if stored_hash.len() == 0 {
        Err(EngineError::NoPinSet)
    } else {
        match verdict {
            None => Err(EngineError::PinVerificationFailed),
            Some(false) => Err(EngineError::IncorrectPin),
            Some(true) => Ok(()),
        }
    }
}

/// What a verdict on a PIN comes to: no PIN is set where no hash is
/// stored, a hash that cannot be read is an error of its own, and else
/// the PIN is right or wrong.
pub fn judge_pin(hash_is_empty: bool, verdict: Option<bool>) -> (r: Result<(), EngineError>)
    ensures
        r == (if hash_is_empty {
            Err::<(), EngineError>(EngineError::NoPinSet)
        } else {
            match verdict {
                None => Err::<(), EngineError>(EngineError::PinVerificationFailed),
                Some(false) => Err::<(), EngineError>(EngineError::IncorrectPin),
                Some(true) => Ok::<(), EngineError>(()),
            }
        }),
{
    if hash_is_empty {
        return Err(EngineError::NoPinSet);
    }
    match verdict {
        None => Err(EngineError::PinVerificationFailed),
        Some(false) => Err(EngineError::IncorrectPin),
        Some(true) => Ok(()),
    }
}

/// Compares a PIN with the stored hash.
pub fn verify_pin_internal(pin: &str, stored_hash: &str) -> (r: Result<(), EngineError>)
    ensures
        r == pin_check(stored_hash@, bcrypt_verdict(pin@, stored_hash@)),
{
    if stored_hash.is_empty() {
        return Err(EngineError::NoPinSet);
    }
    judge_pin(false, bcrypt_check(pin, stored_hash))
}

/// Takes note of an attempt to unlock with a PIN at the second `now`. A
/// lock that refuses attempts does not look at the PIN.
pub fn verify_pin(state: LockState, now: u64, pin: &str, stored_hash: &str) -> (r: (
    LockState,
    PinOutcome,
))
    ensures
        r == attempt_spec(
            state,
            now,
            pin_check(stored_hash@, bcrypt_verdict(pin@, stored_hash@)) is Ok,
        ),
{
    match check_lockout(state, now) {
        Err(outcome) => (state, outcome),
        Ok(_) => {
            let correct = verify_pin_internal(pin, stored_hash).is_ok();
            record_attempt(state, now, correct)
        },
    }
}

/// Why a PIN is not set; `None` where it is.
pub open spec fn set_pin_refusal(
    new_pin: Seq<u8>,
    pin_enabled: bool,
    current: Option<Result<(), EngineError>>,
) -> Option<EngineError> {
    if pin_format_error(new_pin) is Some {
        pin_format_error(new_pin)
    } else if pin_enabled && current is None {
        Some(EngineError::CurrentPinRequired)
    } else if pin_enabled && current.unwrap() is Err {
        Some(current.unwrap()->Err_0)
    } else {
        None
    }
}

/// What becomes of the hash that was made for a new PIN: it is the hash
/// to store, or the PIN could not be hashed.
pub fn hash_outcome(hashed: Option<String>) -> (r: Result<String, EngineError>)
    ensures
        r == (match hashed {
            Some(h) => Ok::<String, EngineError>(h),
            None => Err::<String, EngineError>(EngineError::PinHashFailed),
        }),
{
    match hashed {
        Some(h) => Ok(h),
        None => Err(EngineError::PinHashFailed),
    }
}

/// Sets a PIN, or changes it: the new PIN must have the form of a PIN,
/// and where a PIN is set already the current one must be given and be
/// right. A request that is refused fails with its refusal; one that is
/// not refused gives the hash under which the new PIN is stored, unless
/// the PIN cannot be hashed.
pub fn set_pin(
    new_pin: &str,
    current_pin: Option<&str>,
    pin_enabled: bool,
    stored_hash: &str,
) -> (r: Result<String, EngineError>)
    ensures
        ({
            let refusal = set_pin_refusal(
                new_pin.spec_bytes(),
                pin_enabled,
                match current_pin {
                    Some(c) => Some(pin_check(stored_hash@, bcrypt_verdict(c@, stored_hash@))),
                    None => None,
                },
            );
            &&& refusal matches Some(e) ==> r == Err::<String, EngineError>(e)
            &&& refusal is None ==> r is Ok || r == Err::<String, EngineError>(
                EngineError::PinHashFailed,
            )
        }),
{
    match validate_pin_format(new_pin) {
        Ok(_) => {},
        Err(e) => {
            return Err(e);
        },
    }
    if pin_enabled {
        match current_pin {
            None => {
                return Err(EngineError::CurrentPinRequired);
            },
            Some(current) => match verify_pin_internal(current, stored_hash) {
                Ok(_) => {},
                Err(e) => {
                    return Err(e);
                },
            },
        }
    }
    hash_outcome(bcrypt_hash(new_pin))
}

/// Tests the PIN before the lock is taken away: it must be the PIN that
/// the stored hash was made of.
pub fn remove_pin(current_pin: &str, stored_hash: &str) -> (r: Result<(), EngineError>)
    ensures
        r == pin_check(stored_hash@, bcrypt_verdict(current_pin@, stored_hash@)),
{
    verify_pin_internal(current_pin, stored_hash)
}

/// Whether the stored setting says that the lock is switched on.
pub fn is_pin_enabled(setting: &str) -> (b: bool)
    ensures
        b == (setting@ == "true"@),
{
    same_text(setting, "true")
}

} // verus!
