//! Direct moderation actions: ban, kick, timeout, release.
//!
//! These are independently invokable and never gated by warning thresholds.
//! The platform mutation itself is performed by the caller through the
//! external chat platform; the functions here turn its outcome into the
//! user-facing message, and the suspension state machine says which
//! transitions are valid.

use vstd::prelude::*;

verus! {

/// The message for a direct ban: confirmation, or the surfaced failure.
pub open spec fn ban_message(name: Seq<char>, outcome: Result<(), Seq<char>>) -> Seq<char> {
    match outcome {
        Ok(_) => "Banned '"@ + name + "'"@,
        Err(e) => "Error banning guild member: "@ + e,
    }
}

/// Turn the platform's outcome of a ban into the user-facing message.
pub fn ban_outcome(name: &str, outcome: &Result<(), String>) -> (r: String)
    ensures
        r@ == ban_message(
            name@,
            match outcome {
                Ok(_) => Ok(()),
                Err(e) => Err(e@),
            },
        ),
{
    match outcome {
        Ok(_) => {
            let mut r = String::from_str("Banned '");
            r.append(name);
            r.append("'");
            r
        },
        Err(e) => {
            let mut r = String::from_str("Error banning guild member: ");
            r.append(e.as_str());
            r
        },
    }
}

/// The message for a direct kick: confirmation, or the surfaced failure.
pub open spec fn kick_message(name: Seq<char>, outcome: Result<(), Seq<char>>) -> Seq<char> {
    match outcome {
        Ok(_) => "Kicked '"@ + name + "'"@,
        Err(e) => "Error kicking guild member: "@ + e,
    }
}

/// Turn the platform's outcome of a kick into the user-facing message.
pub fn kick_outcome(name: &str, outcome: &Result<(), String>) -> (r: String)
    ensures
        r@ == kick_message(
            name@,
            match outcome {
                Ok(_) => Ok(()),
                Err(e) => Err(e@),
            },
        ),
{
    match outcome {
        Ok(_) => {
            let mut r = String::from_str("Kicked '");
            r.append(name);
            r.append("'");
            r
        },
        Err(e) => {
            let mut r = String::from_str("Error kicking guild member: ");
            r.append(e.as_str());
            r
        },
    }
}

/// The message for a timeout, if one is owed: a suspension induced by the
/// escalation engine (`auto`) is confirmed by silence, a direct one by a
/// confirmation; a failure is always surfaced.
pub open spec fn timeout_message(name: Seq<char>, auto: bool, outcome: Result<(), Seq<char>>) -> Option<
    Seq<char>,
> {
    match outcome {
        Ok(_) => if auto {
            None
        } else {
            Some("Timed out user "@ + name)
        },
        Err(e) => Some("Error: "@ + e),
    }
}

/// Turn the platform's outcome of a communication suspension into the
/// user-facing message, suppressing the confirmation for an induced one.
pub fn timeout_outcome(name: &str, auto: bool, outcome: &Result<(), String>) -> (r: Option<String>)
    ensures
        ({
            let expected = timeout_message(
                name@,
                auto,
                match outcome {
                    Ok(_) => Ok(()),
                    Err(e) => Err(e@),
                },
            );
            match r {
                Some(m) => expected == Some(m@),
                None => expected is None,
            }
        }),
{
    match outcome {
        Ok(_) => {
            if auto {
                None
            } else {
                let mut r = String::from_str("Timed out user ");
                r.append(name);
                Some(r)
            }
        },
        Err(e) => {
            let mut r = String::from_str("Error: ");
            r.append(e.as_str());
            Some(r)
        },
    }
}

/// The message for a release: confirmation, or the surfaced failure.
pub open spec fn release_message(name: Seq<char>, outcome: Result<(), Seq<char>>) -> Seq<char> {
    match outcome {
        Ok(_) => "Released user "@ + name + " from their timeout."@,
        Err(e) => "Error: "@ + e,
    }
}

/// Turn the platform's outcome of a release into the user-facing message.
pub fn release_outcome(name: &str, outcome: &Result<(), String>) -> (r: String)
    ensures
        r@ == release_message(
            name@,
            match outcome {
                Ok(_) => Ok(()),
                Err(e) => Err(e@),
            },
        ),
{
    match outcome {
        Ok(_) => {
            let mut r = String::from_str("Released user ");
            r.append(name);
            r.append(" from their timeout.");
            r
        },
        Err(e) => {
            let mut r = String::from_str("Error: ");
            r.append(e.as_str());
            r
        },
    }
}

/// A member's suspension status as the platform enforces it.
#[derive(Clone, Copy, Debug, PartialEq, Eq)]
pub enum SuspensionStatus {
    /// The member may communicate.
    Active,
    /// The member's communication is suspended until the given instant.
    Suspended { until: i64 },
}

impl SuspensionStatus {
    /// A successful suspension sets the end instant; applied while already
    /// suspended it overwrites the old instant (last write wins, never
    /// additive).
    pub fn on_timeout_applied(self, until: i64) -> (r: Self)
        ensures
            r == (SuspensionStatus::Suspended { until }),
    {
        SuspensionStatus::Suspended { until }
    }

    /// A successful release clears the suspension immediately, regardless of
    /// its remaining duration.
    pub fn on_release(self) -> (r: Self)
        ensures
            r == SuspensionStatus::Active,
    {
        SuspensionStatus::Active
    }

    /// Natural expiry, enforced by the platform: a suspension ends once its
    /// instant has passed; nothing else changes.
    pub fn on_expiry(self, now: i64) -> (r: Self)
        ensures
            r == (match self {
                SuspensionStatus::Suspended { until } => if now >= until {
                    SuspensionStatus::Active
                } else {
                    self
                },
                SuspensionStatus::Active => self,
            }),
    {
        match self {
            SuspensionStatus::Suspended { until } => {
                if now >= until {
                    SuspensionStatus::Active
                } else {
                    self
                }
            },
            SuspensionStatus::Active => self,
        }
    }
}

} // verus!
