use buzz::event::EventData;
use buzz::retained_event::event_id_from_raw;
use buzz::retained_event::event_id_if_valid;
use buzz::retained_event::inbound_wins_equal_timestamp;
use buzz::retained_event::RetainedEvent;
use buzz::retention::delete_retained_event;
use buzz::retention::get_pending_sync;
use buzz::retention::get_retained_event;
use buzz::retention::get_retained_personas;
use buzz::retention::has_retained_personas;
use buzz::retention::mark_synced;
use buzz::retention::resolve_inbound;
use buzz::retention::retain_event;
use buzz::retention::retain_inbound_event;
use buzz::retention::InboundOutcome;
use buzz::retention::RetentionTable;
use nostr::EventBuilder;
use nostr::JsonUtil;
use nostr::Keys;
use nostr::Kind;

fn row(kind: u32, d_tag: &str, created_at: i64, content: &str) -> RetainedEvent {
    RetainedEvent {
        kind,
        pubkey: "author".to_string(),
        d_tag: d_tag.to_string(),
        content: content.to_string(),
        created_at,
        raw_event: format!("raw {content}"),
        pending_sync: false,
        event_id: Some(content.to_string()),
    }
}

fn pending(mut row: RetainedEvent) -> RetainedEvent {
    row.pending_sync = true;
    row
}

fn anonymous(mut row: RetainedEvent) -> RetainedEvent {
    row.event_id = None;
    row
}

fn said(table: &RetentionTable, kind: u32, d_tag: &str) -> Option<(String, i64, bool)> {
    get_retained_event(table, kind, "author", d_tag)
        .map(|row| (row.content, row.created_at, row.pending_sync))
}

fn saying(content: &str, created_at: i64, pending_sync: bool) -> Option<(String, i64, bool)> {
    Some((content.to_string(), created_at, pending_sync))
}

fn contents(rows: &[RetainedEvent]) -> Vec<&str> {
    rows.iter().map(|row| row.content.as_str()).collect()
}

#[test]
fn a_new_table_is_empty() {
    let table = RetentionTable::new();
    assert!(said(&table, 1, "d").is_none());
    assert!(get_pending_sync(&table).is_empty());
    assert!(get_retained_personas(&table, "author").is_empty());
    assert!(!has_retained_personas(&table, "author"));
}

#[test]
fn retained_event_is_read_back() {
    let mut table = RetentionTable::new();
    retain_event(&mut table, &pending(row(30175, "d", 7, "first")));
    let found = get_retained_event(&table, 30175, "author", "d").expect("a row");
    assert_eq!(found.kind, 30175);
    assert_eq!(found.pubkey, "author");
    assert_eq!(found.d_tag, "d");
    assert_eq!(found.content, "first");
    assert_eq!(found.created_at, 7);
    assert_eq!(found.raw_event, "raw first");
    assert!(found.pending_sync);
    assert_eq!(found.event_id.as_deref(), Some("first"));
    assert!(get_retained_event(&table, 30175, "other", "d").is_none());
    assert!(get_retained_event(&table, 30176, "author", "d").is_none());
    assert!(get_retained_event(&table, 30175, "author", "e").is_none());
}

#[test]
fn retain_replaces_unless_older() {
    let mut table = RetentionTable::new();
    retain_event(&mut table, &row(1, "d", 7, "first"));
    retain_event(&mut table, &row(1, "d", 6, "older"));
    assert_eq!(said(&table, 1, "d"), saying("first", 7, false));
    retain_event(&mut table, &pending(row(1, "d", 7, "equal")));
    assert_eq!(said(&table, 1, "d"), saying("equal", 7, true));
    retain_event(&mut table, &row(1, "d", 8, "newer"));
    assert_eq!(said(&table, 1, "d"), saying("newer", 8, false));
    retain_event(&mut table, &row(1, "d", i64::MIN, "ancient"));
    assert_eq!(said(&table, 1, "d"), saying("newer", 8, false));
    retain_event(&mut table, &row(1, "e", i64::MIN, "other"));
    assert_eq!(said(&table, 1, "e"), saying("other", i64::MIN, false));
}

#[test]
fn inbound_never_touches_a_pending_edit() {
    for created_at in [6, 7, 8] {
        let mut table = RetentionTable::new();
        retain_event(&mut table, &pending(row(1, "d", 7, "edit")));
        let outcome = retain_inbound_event(&mut table, &row(1, "d", created_at, "a"));
        assert_eq!(outcome, InboundOutcome::Deferred);
        assert_eq!(said(&table, 1, "d"), saying("edit", 7, true));
    }
}

#[test]
fn inbound_is_resolved_by_time_and_id() {
    let mut table = RetentionTable::new();
    // Inbound rows are retained as published.
    let outcome = retain_inbound_event(&mut table, &pending(row(1, "d", 7, "m")));
    assert_eq!(outcome, InboundOutcome::Applied);
    assert_eq!(said(&table, 1, "d"), saying("m", 7, false));
    for (created_at, content, expected) in [
        (6, "a", InboundOutcome::Skipped),
        (7, "m", InboundOutcome::Skipped),
        (7, "n", InboundOutcome::Skipped),
        (7, "l", InboundOutcome::Applied),
        (8, "z", InboundOutcome::Applied),
    ] {
        let outcome = retain_inbound_event(&mut table, &row(1, "d", created_at, content));
        assert_eq!(outcome, expected, "{created_at} {content}");
    }
    assert_eq!(said(&table, 1, "d"), saying("z", 8, false));
}

#[test]
fn an_unknown_id_never_wins_a_tie() {
    let known = row(1, "d", 7, "m");
    let lower = row(1, "d", 7, "a");
    assert!(inbound_wins_equal_timestamp(&lower, &known));
    assert!(!inbound_wins_equal_timestamp(&known, &known));
    assert!(!inbound_wins_equal_timestamp(&anonymous(lower.clone()), &known));
    assert!(!inbound_wins_equal_timestamp(&lower, &anonymous(known.clone())));

    let mut table = RetentionTable::new();
    retain_event(&mut table, &anonymous(known));
    assert_eq!(
        retain_inbound_event(&mut table, &lower),
        InboundOutcome::Skipped
    );
    assert_eq!(
        retain_inbound_event(&mut table, &anonymous(row(1, "d", 8, "new"))),
        InboundOutcome::Applied
    );
    assert_eq!(said(&table, 1, "d"), saying("new", 8, false));
}

#[test]
fn inbound_is_resolved_against_a_single_row() {
    let event = row(1, "d", 7, "m");
    assert_eq!(resolve_inbound(&None, &event), InboundOutcome::Applied);
    assert_eq!(
        resolve_inbound(&Some(pending(row(1, "d", 1, "x"))), &event),
        InboundOutcome::Deferred
    );
    assert_eq!(
        resolve_inbound(&Some(row(1, "d", 1, "x")), &event),
        InboundOutcome::Applied
    );
    assert_eq!(
        resolve_inbound(&Some(row(1, "d", 8, "x")), &event),
        InboundOutcome::Skipped
    );
}

#[test]
fn arrival_order_is_irrelevant() {
    let events = [
        row(1, "d", 7, "m"),
        row(1, "d", 7, "a"),
        row(1, "d", 6, "z"),
        row(1, "d", 8, "q"),
        row(1, "e", 7, "b"),
    ];
    for a in &events {
        for b in &events {
            let mut one = RetentionTable::new();
            retain_inbound_event(&mut one, a);
            retain_inbound_event(&mut one, b);
            let mut other = RetentionTable::new();
            retain_inbound_event(&mut other, b);
            retain_inbound_event(&mut other, a);
            assert_eq!(said(&one, 1, "d"), said(&other, 1, "d"));
            assert_eq!(said(&one, 1, "e"), said(&other, 1, "e"));
        }
    }
}

#[test]
fn redelivery_is_skipped() {
    let mut table = RetentionTable::new();
    let event = row(1, "d", 7, "m");
    assert_eq!(
        retain_inbound_event(&mut table, &event),
        InboundOutcome::Applied
    );
    assert_eq!(
        retain_inbound_event(&mut table, &event),
        InboundOutcome::Skipped
    );
    assert_eq!(said(&table, 1, "d"), saying("m", 7, false));
}

#[test]
fn only_the_published_version_is_marked() {
    let mut table = RetentionTable::new();
    retain_event(&mut table, &pending(row(1, "d", 7, "edit")));
    mark_synced(&mut table, 1, "author", "d", 6, "edit");
    assert_eq!(said(&table, 1, "d"), saying("edit", 7, true));
    mark_synced(&mut table, 1, "author", "d", 7, "previous");
    assert_eq!(said(&table, 1, "d"), saying("edit", 7, true));
    mark_synced(&mut table, 1, "other", "d", 7, "edit");
    mark_synced(&mut table, 2, "author", "d", 7, "edit");
    mark_synced(&mut table, 1, "author", "e", 7, "edit");
    assert_eq!(said(&table, 1, "d"), saying("edit", 7, true));
    mark_synced(&mut table, 1, "author", "d", 7, "edit");
    assert_eq!(said(&table, 1, "d"), saying("edit", 7, false));
    assert!(get_pending_sync(&table).is_empty());
}

#[test]
fn a_newer_edit_stays_pending() {
    let mut table = RetentionTable::new();
    let published = pending(row(1, "d", 7, "published"));
    retain_event(&mut table, &published);
    retain_event(&mut table, &pending(row(1, "d", 7, "edit")));
    mark_synced(&mut table, 1, "author", "d", 7, "published");
    assert_eq!(said(&table, 1, "d"), saying("edit", 7, true));
}

#[test]
fn deletion_removes_one_coordinate() {
    let mut table = RetentionTable::new();
    for d_tag in ["a", "b", "c"] {
        retain_event(&mut table, &row(1, d_tag, 7, d_tag));
    }
    delete_retained_event(&mut table, 1, "author", "a");
    delete_retained_event(&mut table, 1, "author", "missing");
    delete_retained_event(&mut table, 2, "author", "b");
    assert!(said(&table, 1, "a").is_none());
    assert_eq!(said(&table, 1, "b"), saying("b", 7, false));
    assert_eq!(said(&table, 1, "c"), saying("c", 7, false));
    retain_event(&mut table, &row(1, "a", 1, "again"));
    assert_eq!(said(&table, 1, "a"), saying("again", 1, false));
}

#[test]
fn tombstones_are_published_first() {
    let mut table = RetentionTable::new();
    retain_event(&mut table, &pending(row(30175, "a", 1, "old replacement")));
    retain_event(&mut table, &pending(row(5, "30175:b", 9, "late tombstone")));
    retain_event(&mut table, &pending(row(4, "x", 5, "middle")));
    retain_event(&mut table, &row(5, "30175:c", 0, "published tombstone"));
    retain_event(&mut table, &pending(row(5, "30175:a", 3, "early tombstone")));
    retain_event(&mut table, &pending(row(30175, "b", -2, "older replacement")));
    retain_event(&mut table, &row(30175, "c", 4, "published"));
    assert_eq!(
        contents(&get_pending_sync(&table)),
        vec![
            "early tombstone",
            "late tombstone",
            "older replacement",
            "old replacement",
            "middle",
        ]
    );
}

#[test]
fn personas_are_listed_by_d_tag() {
    let mut table = RetentionTable::new();
    for d_tag in ["b", "\u{e9}", "a", "", "B"] {
        retain_event(&mut table, &row(30175, d_tag, 7, d_tag));
    }
    let mut other = row(30175, "c", 7, "c");
    other.pubkey = "other".to_string();
    retain_event(&mut table, &other);
    assert_eq!(
        contents(&get_retained_personas(&table, "author")),
        vec!["", "B", "a", "b", "\u{e9}"]
    );
    assert_eq!(contents(&get_retained_personas(&table, "other")), vec!["c"]);
    assert!(get_retained_personas(&table, "nobody").is_empty());
    assert!(has_retained_personas(&table, "other"));
    assert!(!has_retained_personas(&table, "nobody"));
}

/// Whether an author has rows is whether the list of them is not empty.
#[test]
fn authors_with_rows_have_a_list() {
    let mut table = RetentionTable::new();
    for step in 0..3 {
        for pubkey in ["author", "nobody", ""] {
            assert_eq!(
                has_retained_personas(&table, pubkey),
                !get_retained_personas(&table, pubkey).is_empty()
            );
        }
        if step == 0 {
            retain_event(&mut table, &row(1, "d", 7, "m"));
        } else {
            delete_retained_event(&mut table, 1, "author", "d");
        }
    }
}

#[test]
fn inserting_replaces_the_row_of_a_coordinate() {
    let mut table = RetentionTable::new();
    table.insert(row(1, "d", 7, "first"));
    table.insert(row(1, "d", 3, "second"));
    assert_eq!(said(&table, 1, "d"), saying("second", 3, false));
    assert_eq!(get_retained_personas(&table, "author").len(), 1);
}

fn signed(content: &str) -> nostr::Event {
    EventBuilder::new(Kind::Custom(30175), content)
        .tags([nostr::Tag::identifier("d")])
        .sign_with_keys(&Keys::generate())
        .expect("event signs")
}

#[test]
fn rows_describe_their_event() {
    let event = signed("hello");
    let made = RetainedEvent::pending(30175, "p".to_string(), "d".to_string(), &event);
    assert_eq!(made.kind, 30175);
    assert_eq!(made.pubkey, "p");
    assert_eq!(made.d_tag, "d");
    assert_eq!(made.content, "hello");
    assert_eq!(made.created_at, event.created_at.as_secs() as i64);
    assert_eq!(made.raw_event, event.as_json());
    assert_eq!(made.event_id, Some(event.id.to_hex()));
    assert!(made.pending_sync);
    assert_eq!(event_id_from_raw(&made.raw_event), made.event_id);

    let arrived = RetainedEvent::inbound(30175, "p".to_string(), "d".to_string(), &event);
    assert!(!arrived.pending_sync);
    assert_eq!(arrived.raw_event, made.raw_event);
    assert_eq!(arrived.event_id, made.event_id);
}

/// Whatever happens to a row, its id is that of the event stored in it.
#[test]
fn ids_stay_those_of_the_stored_events() {
    let mut table = RetentionTable::new();
    let made = |event: &nostr::Event| {
        RetainedEvent::pending(30175, "author".to_string(), "d".to_string(), event)
    };
    let first = made(&signed("first"));
    let mut second = made(&signed("second"));
    second.created_at = first.created_at + 1;
    retain_event(&mut table, &first);
    mark_synced(&mut table, 30175, "author", "d", first.created_at, "first");
    let stored = get_retained_event(&table, 30175, "author", "d").expect("a row");
    assert_eq!(stored.event_id, event_id_from_raw(&stored.raw_event));
    assert_eq!(
        retain_inbound_event(&mut table, &second),
        InboundOutcome::Applied
    );
    let stored = get_retained_event(&table, 30175, "author", "d").expect("a row");
    assert_eq!(stored.content, "second");
    assert_eq!(stored.event_id, event_id_from_raw(&stored.raw_event));
}

/// Ids are 32 bytes in lower-case hex, and a tie goes by the bytes.
#[test]
fn ties_go_by_the_raw_ids() {
    let events = [signed("a"), signed("b"), signed("c"), signed("d")];
    for a in &events {
        for b in &events {
            let inbound = RetainedEvent::inbound(1, "p".to_string(), "d".to_string(), a);
            let retained = RetainedEvent::inbound(1, "p".to_string(), "d".to_string(), b);
            assert_eq!(
                inbound_wins_equal_timestamp(&inbound, &retained),
                a.id.as_bytes() < b.id.as_bytes()
            );
        }
    }
    let id = event_id_from_raw(&events[0].as_json()).expect("an id");
    assert_eq!(id.len(), 64);
    assert!(id.chars().all(|c| matches!(c, '0'..='9' | 'a'..='f')));
}

#[test]
fn ids_are_taken_from_verified_events_only() {
    let event = signed("hello");
    let raw = event.as_json();
    assert_eq!(event_id_from_raw(&raw), Some(event.id.to_hex()));
    assert_eq!(event_id_from_raw("not json"), None);
    assert_eq!(event_id_from_raw("{}"), None);
    assert_eq!(event_id_from_raw(&raw.replace("hello", "forged")), None);
    let other = signed("other");
    let resigned = raw.replace(&event.sig.to_string(), &other.sig.to_string());
    assert_eq!(event_id_from_raw(&resigned), None);
}

fn plain(id: &str) -> EventData {
    EventData {
        id: id.to_string(),
        pubkey: "signer".to_string(),
        created_at: 12,
        kind: 30175,
        tags: vec![],
        content: "hello".to_string(),
        sig: "sig".to_string(),
    }
}

#[test]
fn an_id_needs_a_valid_event() {
    assert_eq!(event_id_if_valid(&plain("i"), true).as_deref(), Some("i"));
    assert_eq!(event_id_if_valid(&plain("i"), false), None);
}

#[test]
fn rows_are_made_from_parts() {
    let made = RetainedEvent::from_parts(
        5,
        "p".to_string(),
        "d".to_string(),
        plain("i"),
        "raw".to_string(),
        true,
    );
    assert_eq!(made.kind, 5);
    assert_eq!(made.content, "hello");
    assert_eq!(made.created_at, 12);
    assert_eq!(made.raw_event, "raw");
    assert_eq!(made.event_id.as_deref(), Some("i"));
    assert!(made.pending_sync);
    let copy = made.clone();
    assert_eq!(copy.kind, made.kind);
    assert_eq!(copy.pubkey, made.pubkey);
    assert_eq!(copy.d_tag, made.d_tag);
    assert_eq!(copy.content, made.content);
    assert_eq!(copy.created_at, made.created_at);
    assert_eq!(copy.raw_event, made.raw_event);
    assert_eq!(copy.pending_sync, made.pending_sync);
    assert_eq!(copy.event_id, made.event_id);
}
