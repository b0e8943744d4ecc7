//! The retention table agrees with the SQL statements that it stands for.

use buzz::retained_event::RetainedEvent;
use buzz::retention;
use buzz::retention::InboundOutcome;
use buzz::retention::RetentionTable;
use rusqlite::Connection;
use rusqlite::Row;

const COLUMNS: &str =
    "kind, pubkey, d_tag, content, created_at, raw_event, pending_sync, event_id";

/// A row as one comparable value.
type Plain = (u32, String, String, String, i64, String, bool, Option<String>);

fn plain(row: RetainedEvent) -> Plain {
    (
        row.kind,
        row.pubkey,
        row.d_tag,
        row.content,
        row.created_at,
        row.raw_event,
        row.pending_sync,
        row.event_id,
    )
}

fn read(row: &Row<'_>) -> rusqlite::Result<Plain> {
    Ok((
        row.get(0)?,
        row.get(1)?,
        row.get(2)?,
        row.get(3)?,
        row.get(4)?,
        row.get(5)?,
        row.get(6)?,
        row.get(7)?,
    ))
}

fn open() -> Connection {
    let conn = Connection::open_in_memory().expect("a database");
    conn.execute_batch(
        "CREATE TABLE persona_events (
            kind INTEGER NOT NULL,
            pubkey TEXT NOT NULL,
            d_tag TEXT NOT NULL,
            content TEXT NOT NULL,
            created_at INTEGER NOT NULL,
            raw_event TEXT NOT NULL,
            pending_sync INTEGER NOT NULL DEFAULT 0,
            event_id TEXT,
            PRIMARY KEY (kind, pubkey, d_tag)
        );",
    )
    .expect("a table");
    conn
}

fn upsert(conn: &Connection, row: &RetainedEvent, condition: &str) {
    conn.execute(
        &format!(
            "INSERT INTO persona_events ({COLUMNS}) VALUES (?1, ?2, ?3, ?4, ?5, ?6, ?7, ?8)
             ON CONFLICT (kind, pubkey, d_tag) DO UPDATE SET
                content = excluded.content,
                created_at = excluded.created_at,
                raw_event = excluded.raw_event,
                pending_sync = excluded.pending_sync,
                event_id = excluded.event_id
             WHERE {condition}"
        ),
        (
            row.kind,
            &row.pubkey,
            &row.d_tag,
            &row.content,
            row.created_at,
            &row.raw_event,
            row.pending_sync,
            &row.event_id,
        ),
    )
    .expect("an upsert");
}

fn listed(conn: &Connection, rest: &str) -> Vec<Plain> {
    let mut statement = conn
        .prepare(&format!("SELECT {COLUMNS} FROM persona_events {rest}"))
        .expect("a query");
    let rows = statement.query_map([], read).expect("rows");
    rows.map(|row| row.expect("a row")).collect()
}

/// A small generator of numbers that look random.
struct Numbers(u64);

impl Numbers {
    fn below(&mut self, limit: u64) -> u64 {
        self.0 = self
            .0
            .wrapping_mul(6364136223846793005)
            .wrapping_add(1442695040888963407);
        (self.0 >> 33) % limit
    }

    fn text(&mut self) -> String {
        ["", "a", "B", "b", "\u{e9}", "a\0", "ab"][self.below(7) as usize].to_string()
    }

    fn row(&mut self) -> RetainedEvent {
        RetainedEvent {
            kind: [5, 30175][self.below(2) as usize],
            pubkey: ["p", "q"][self.below(2) as usize].to_string(),
            d_tag: self.text(),
            content: self.text(),
            created_at: self.below(4) as i64 - 1,
            raw_event: self.text(),
            pending_sync: self.below(3) == 0,
            event_id: if self.below(4) == 0 {
                None
            } else {
                Some(self.text())
            },
        }
    }
}

fn key(row: &Plain) -> (bool, i64) {
    (row.0 != 5, row.4)
}

#[test]
fn the_table_agrees_with_sqlite() {
    let mut numbers = Numbers(7);
    let conn = open();
    let mut table = RetentionTable::new();
    for _ in 0..2000 {
        let row = numbers.row();
        match numbers.below(4) {
            0 => {
                retention::retain_event(&mut table, &row);
                upsert(&conn, &row, "excluded.created_at >= persona_events.created_at");
            }
            1 => {
                let existing = listed(&conn, "")
                    .into_iter()
                    .find(|old| old.0 == row.kind && old.1 == row.pubkey && old.2 == row.d_tag);
                let expected = match existing {
                    Some(old) if old.6 => InboundOutcome::Deferred,
                    Some(old)
                        if row.created_at < old.4
                            || (row.created_at == old.4
                                && !matches!(
                                    (&row.event_id, &old.7),
                                    (Some(new), Some(old)) if new < old
                                )) =>
                    {
                        InboundOutcome::Skipped
                    }
                    _ => InboundOutcome::Applied,
                };
                assert_eq!(retention::retain_inbound_event(&mut table, &row), expected);
                if expected == InboundOutcome::Applied {
                    let mut arrived = row.clone();
                    arrived.pending_sync = false;
                    upsert(&conn, &arrived, "1");
                }
            }
            2 => {
                retention::mark_synced(
                    &mut table,
                    row.kind,
                    &row.pubkey,
                    &row.d_tag,
                    row.created_at,
                    &row.content,
                );
                conn.execute(
                    "UPDATE persona_events SET pending_sync = 0
                     WHERE kind = ?1 AND pubkey = ?2 AND d_tag = ?3
                       AND created_at = ?4 AND content = ?5",
                    (row.kind, &row.pubkey, &row.d_tag, row.created_at, &row.content),
                )
                .expect("an update");
            }
            _ => {
                retention::delete_retained_event(&mut table, row.kind, &row.pubkey, &row.d_tag);
                conn.execute(
                    "DELETE FROM persona_events
                     WHERE kind = ?1 AND pubkey = ?2 AND d_tag = ?3",
                    (row.kind, &row.pubkey, &row.d_tag),
                )
                .expect("a deletion");
            }
        }

        for pubkey in ["p", "q", "r"] {
            let rest = format!("WHERE pubkey = '{pubkey}' ORDER BY d_tag");
            let mut ours: Vec<Plain> = retention::get_retained_personas(&table, pubkey)
                .into_iter()
                .map(plain)
                .collect();
            let mut theirs = listed(&conn, &rest);
            let tags = |rows: &[Plain]| rows.iter().map(|row| row.2.clone()).collect::<Vec<_>>();
            assert_eq!(tags(&ours), tags(&theirs));
            assert_eq!(
                retention::has_retained_personas(&table, pubkey),
                !theirs.is_empty()
            );
            // Rows with equal keys come in no particular order.
            ours.sort();
            theirs.sort();
            assert_eq!(ours, theirs);
        }
        let mut ours: Vec<Plain> = retention::get_pending_sync(&table)
            .into_iter()
            .map(plain)
            .collect();
        let mut theirs = listed(
            &conn,
            "WHERE pending_sync = 1 ORDER BY (kind != 5), created_at ASC",
        );
        assert_eq!(
            ours.iter().map(key).collect::<Vec<_>>(),
            theirs.iter().map(key).collect::<Vec<_>>()
        );
        ours.sort();
        theirs.sort();
        assert_eq!(ours, theirs);
    }
}
