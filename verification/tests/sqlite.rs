use buzz::sqlite::obstacle_is_passing;
use buzz::sqlite::sqlite_is_busy;
use buzz::sqlite::wal_step;
use buzz::sqlite::Obstacle;
use buzz::sqlite::WalAttempt;
use buzz::sqlite::WalStep;

fn failure(code: i32) -> rusqlite::Error {
    rusqlite::Error::SqliteFailure(rusqlite::ffi::Error::new(code), None)
}

#[test]
fn busy_and_locked_databases_are_busy() {
    assert!(sqlite_is_busy(&failure(rusqlite::ffi::SQLITE_BUSY)));
    assert!(sqlite_is_busy(&failure(rusqlite::ffi::SQLITE_BUSY_SNAPSHOT)));
    assert!(sqlite_is_busy(&failure(rusqlite::ffi::SQLITE_LOCKED)));
    assert!(!sqlite_is_busy(&failure(rusqlite::ffi::SQLITE_CORRUPT)));
    assert!(!sqlite_is_busy(&failure(rusqlite::ffi::SQLITE_CANTOPEN)));
    assert!(!sqlite_is_busy(&rusqlite::Error::QueryReturnedNoRows));
    assert!(!sqlite_is_busy(&rusqlite::Error::InvalidQuery));
}

#[test]
fn obstacles_that_pass() {
    assert!(obstacle_is_passing(Obstacle::Busy));
    assert!(obstacle_is_passing(Obstacle::Locked));
    assert!(!obstacle_is_passing(Obstacle::Other));
}

#[test]
fn a_busy_database_is_waited_for_until_the_deadline() {
    let failed = |busy: bool| WalAttempt::Failed {
        busy,
        message: "database is locked".to_string(),
    };
    for before_deadline in [true, false] {
        assert!(matches!(
            wal_step(&WalAttempt::Switched, before_deadline),
            WalStep::Done
        ));
        match wal_step(&failed(false), before_deadline) {
            WalStep::GiveUp(error) => {
                assert_eq!(error, "failed to set WAL mode: database is locked")
            }
            _ => panic!("expected GiveUp"),
        }
    }
    assert!(matches!(wal_step(&failed(true), true), WalStep::RetryAfter(25)));
    match wal_step(&failed(true), false) {
        WalStep::GiveUp(error) => {
            assert_eq!(error, "failed to set WAL mode: database is locked")
        }
        _ => panic!("expected GiveUp"),
    }
}
