//! Waiting for a busy database while it is opened.

use vstd::prelude::*;
use vstd::string::*;

verus! {

/// An error of the database.
#[verifier::external_type_specification]
#[verifier::external_body]
pub struct ExSqliteError(rusqlite::Error);

/// What a failed database call ran into.
#[derive(Debug, Clone, Copy, PartialEq, Eq, Structural)]
pub enum Obstacle {
    /// Another connection holds the database file.
    Busy,
    /// A table of the database is locked.
    Locked,
    /// Anything else.
    Other,
}

/// What `rusqlite` reports an error to have run into.
pub uninterp spec fn obstacle_of(error: rusqlite::Error) -> Obstacle;

/// Tells apart the variants of `rusqlite::Error` and, for its `SqliteFailure`, those of
/// `rusqlite::ErrorCode`.
///
/// Trusted: the obstacle depends on the error alone. It is `Busy` for a `SqliteFailure`
/// with the code `DatabaseBusy`, `Locked` for one with `DatabaseLocked`, and `Other` for
/// every other error.
#[verifier::external_body]
fn obstacle(error: &rusqlite::Error) -> (met: Obstacle)
    ensures
        met == obstacle_of(*error),
{
    match error {
        rusqlite::Error::SqliteFailure(inner, _) => match inner.code {
            rusqlite::ErrorCode::DatabaseBusy => Obstacle::Busy,
            rusqlite::ErrorCode::DatabaseLocked => Obstacle::Locked,
            _ => Obstacle::Other,
        },
        _ => Obstacle::Other,
    }
}

/// Whether an obstacle goes away when another connection is done.
pub open spec fn is_passing(met: Obstacle) -> bool {
    met == Obstacle::Busy || met == Obstacle::Locked
}

/// Whether a database call failed only because another connection was at work.
pub fn sqlite_is_busy(error: &rusqlite::Error) -> (busy: bool)
    ensures
        busy == is_passing(obstacle_of(*error)),
{
    obstacle_is_passing(obstacle(error))
}

/// Whether an obstacle goes away when another connection is done.
pub fn obstacle_is_passing(met: Obstacle) -> (passing: bool)
    ensures
        passing == is_passing(met),
{
    met == Obstacle::Busy || met == Obstacle::Locked
}

/// How long to keep trying to switch a database to write-ahead logging, in seconds.
pub const WAL_DEADLINE_SECONDS: u64 = 5;

/// How long to wait between two attempts, in milliseconds.
pub const WAL_RETRY_MILLIS: u64 = 25;

/// What came of an attempt to switch to write-ahead logging.
#[derive(Debug)]
pub enum WalAttempt {
    /// It succeeded.
    Switched,
    /// It failed: whether the database was busy, and the error in words.
    Failed { busy: bool, message: String },
}

/// What to do after an attempt.
#[derive(Debug)]
pub enum WalStep {
    /// Write-ahead logging is on.
    Done,
    /// Wait for this many milliseconds and try again.
    RetryAfter(u64),
    /// Give up with this error.
    GiveUp(String),
}

/// The error for a database that could not be switched.
pub open spec fn wal_error(message: Seq<char>) -> Seq<char> {
    "failed to set WAL mode: "@ + message
}

/// What is done after an attempt: a busy database is waited for until the deadline, and
/// every other failure is final.
pub open spec fn wal_step_is(attempt: WalAttempt, before_deadline: bool, step: WalStep) -> bool {
    match attempt {
        WalAttempt::Switched => step == WalStep::Done,
        WalAttempt::Failed { busy, message } => if busy && before_deadline {
            step == WalStep::RetryAfter(WAL_RETRY_MILLIS)
        } else {
            step is GiveUp && step->GiveUp_0@ == wal_error(message@)
        },
    }
}

/// Decides what to do after an attempt to switch to write-ahead logging.
pub fn wal_step(attempt: &WalAttempt, before_deadline: bool) -> (step: WalStep)
    ensures
        wal_step_is(*attempt, before_deadline, step),
{
    match attempt {
        WalAttempt::Switched => WalStep::Done,
        WalAttempt::Failed { busy, message } => {
            if *busy && before_deadline {
                WalStep::RetryAfter(WAL_RETRY_MILLIS)
            } else {
                let mut text = "failed to set WAL mode: ".to_owned();
                text.append(message.as_str());
                WalStep::GiveUp(text)
            }
        },
    }
}

/// Busy and locked databases are waited for, and nothing else is.
pub proof fn law_what_passes(met: Obstacle)
    ensures
        is_passing(met) <==> met == Obstacle::Busy || met == Obstacle::Locked,
        is_passing(met) <==> met != Obstacle::Other,
{
}

/// A switched database is done with; a busy one is tried again after 25 milliseconds
/// while the deadline has not passed; and every other failure ends with its message.
pub proof fn law_how_a_database_is_waited_for(
    attempt: WalAttempt,
    before_deadline: bool,
    step: WalStep,
)
    requires
        wal_step_is(attempt, before_deadline, step),
    ensures
        step is Done <==> attempt is Switched,
        step matches WalStep::RetryAfter(millis) ==> millis == 25,
        step is RetryAfter <==> before_deadline && attempt is Failed && attempt->busy,
        step matches WalStep::GiveUp(error) ==> error@ == "failed to set WAL mode: "@
            + attempt->message@,
{
}

/// A failing database is given up on once the deadline has passed, busy or not.
pub proof fn law_waiting_ends_at_the_deadline(attempt: WalAttempt, step: WalStep)
    requires
        wal_step_is(attempt, false, step),
    ensures
        !(step is RetryAfter),
        WAL_DEADLINE_SECONDS == 5,
{
}

} // verus!
