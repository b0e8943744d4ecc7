use buzz::json::Json;
use buzz::protocol::parse_sync_authoritative;
use buzz::protocol::ClientMessage;
use buzz::protocol::RelayError;
use buzz::protocol::RelayMessage;
use buzz::protocol::MAX_FILTERS_PER_REQ;
use buzz::protocol::MAX_SUB_ID_LENGTH;
use nostr::Event;
use nostr::EventBuilder;
use nostr::Filter;
use nostr::Keys;
use nostr::Kind;
use serde_json::Value;

fn make_event(kind: Kind) -> Event {
    EventBuilder::new(kind, "test content")
        .sign_with_keys(&Keys::generate())
        .expect("sign")
}

fn make_auth_event(keys: &Keys, challenge: &str, relay: &str) -> Event {
    let url: nostr::RelayUrl = relay.parse().expect("url");
    EventBuilder::auth(challenge, url)
        .sign_with_keys(keys)
        .expect("sign")
}

fn text(text: &str) -> Value {
    Value::String(text.to_string())
}

fn array(items: Vec<Value>) -> Value {
    Value::Array(items)
}

fn object(members: Vec<(&str, Value)>) -> Value {
    let mut map = serde_json::Map::new();
    for (key, value) in members {
        map.insert(key.to_string(), value);
    }
    Value::Object(map)
}

fn kinds(kind: u64) -> Value {
    array(vec![Value::from(kind)])
}

fn message_of(err: RelayError) -> String {
    let RelayError::InvalidMessage(message) = err;
    message
}

fn rejection(raw: &str) -> String {
    message_of(ClientMessage::parse(raw).expect_err("rejected"))
}

// The tuple holds: raw JSON string + a boxed checker closure.
type ParseCase<'a> = (&'a str, Box<dyn Fn(ClientMessage)>);

#[test]
fn parse_valid_messages() {
    let keys = Keys::generate();
    let event = make_event(Kind::TextNote);
    let auth_event = make_auth_event(&keys, "challenge", "wss://relay.example.com");
    let filter = Filter::new().kind(Kind::TextNote);

    let cases: &[ParseCase<'_>] = &[
        (
            &array(vec![text("EVENT"), serde_json::to_value(&event).unwrap()]).to_string(),
            Box::new(move |m| match m {
                ClientMessage::Event(e) => assert_eq!(e.id, event.id),
                _ => panic!("expected Event"),
            }),
        ),
        (
            &array(vec![text("REQ"), text("sub1"), serde_json::to_value(&filter).unwrap()])
                .to_string(),
            Box::new(|m| match m {
                ClientMessage::Req {
                    sub_id,
                    filters,
                    sync_authoritative,
                } => {
                    assert_eq!(sub_id, "sub1");
                    assert_eq!(filters.len(), 1);
                    assert!(!sync_authoritative, "plain REQ must not pin the read");
                }
                _ => panic!("expected Req"),
            }),
        ),
        (
            r#"["CLOSE", "sub1"]"#,
            Box::new(|m| match m {
                ClientMessage::Close(id) => assert_eq!(id, "sub1"),
                _ => panic!("expected Close"),
            }),
        ),
        (
            &array(vec![text("AUTH"), serde_json::to_value(&auth_event).unwrap()]).to_string(),
            Box::new(move |m| match m {
                ClientMessage::Auth(e) => assert_eq!(e.id, auth_event.id),
                _ => panic!("expected Auth"),
            }),
        ),
    ];

    for (raw, check) in cases {
        let msg = ClientMessage::parse(raw).expect("parse");
        check(msg);
    }
}

#[test]
fn parse_req_multiple_filters() {
    let f1 = Filter::new().kind(Kind::TextNote);
    let f2 = Filter::new().kind(Kind::Metadata);
    let raw = array(vec![
        text("REQ"),
        text("sub2"),
        serde_json::to_value(&f1).unwrap(),
        serde_json::to_value(&f2).unwrap(),
    ])
    .to_string();
    match ClientMessage::parse(&raw).unwrap() {
        ClientMessage::Req {
            sub_id,
            filters,
            sync_authoritative,
        } => {
            assert_eq!(sub_id, "sub2");
            assert_eq!(filters.len(), 2);
            assert!(!sync_authoritative);
            assert_eq!(filters[0], f1);
            assert_eq!(filters[1], f2);
        }
        _ => panic!("expected Req"),
    }
}

#[test]
fn parse_invalid_messages() {
    let cases = [
        ("not json", "JSON"),
        ("[]", "empty"),
        (r#"["UNKNOWN", "data"]"#, "unknown"),
        (r#"["EVENT"]"#, "EVENT requires"),
        (r#"["REQ"]"#, "REQ requires"),
        (r#"["REQ", ""]"#, "must not be empty"),
    ];

    for (raw, hint) in cases {
        let err = ClientMessage::parse(raw).unwrap_err();
        assert!(
            matches!(err, RelayError::InvalidMessage(_)),
            "expected InvalidMessage for {raw:?}, got {err:?}"
        );
        assert!(message_of(err).contains(hint));
    }
}

/// `sync_authoritative` pins the whole subscription's historical read when
/// any filter opts in: one REQ yields one deduplicated result set, so a
/// partially-replica-served page would be unattributable.
#[test]
fn parse_req_sync_authoritative_pins_when_any_filter_opts_in() {
    let plain = object(vec![("kinds", kinds(30175))]);
    let pinned = object(vec![
        ("kinds", kinds(30175)),
        ("sync_authoritative", Value::Bool(true)),
    ]);

    let cases = [
        (vec![plain.clone()], false),
        (
            vec![object(vec![
                ("kinds", kinds(1)),
                ("sync_authoritative", Value::Bool(false)),
            ])],
            false,
        ),
        (vec![pinned.clone()], true),
        (vec![plain.clone(), pinned.clone()], true),
        (vec![pinned, plain], true),
    ];

    for (filters, expected) in cases {
        let mut frame = vec![text("REQ"), text("sub1")];
        frame.extend(filters.iter().cloned());
        let raw = serde_json::Value::Array(frame).to_string();
        match ClientMessage::parse(&raw).unwrap() {
            ClientMessage::Req {
                sync_authoritative, ..
            } => assert_eq!(
                sync_authoritative, expected,
                "wrong pinning for filters {filters:?}"
            ),
            _ => panic!("expected Req"),
        }
    }
}

/// A non-boolean value rejects the REQ rather than degrading to unpinned:
/// silently downgrading a consistency request returns a wrong answer the
/// caller cannot detect.
#[test]
fn parse_req_sync_authoritative_non_boolean_is_rejected() {
    for value in [
        text("true"),
        Value::from(1),
        Value::Null,
        array(vec![]),
        object(vec![]),
    ] {
        let raw = array(vec![
            text("REQ"),
            text("sub1"),
            object(vec![("kinds", kinds(30175)), ("sync_authoritative", value.clone())]),
        ])
        .to_string();
        let err =
            ClientMessage::parse(&raw).expect_err(&format!("expected {value} to be rejected"));
        assert!(
            matches!(&err, RelayError::InvalidMessage(m) if m.contains("sync_authoritative")),
            "expected a sync_authoritative InvalidMessage, got {err:?}"
        );
    }
}

#[test]
fn parse_req_sub_id_too_long_is_rejected() {
    let long_id = "x".repeat(MAX_SUB_ID_LENGTH + 1);
    let raw = array(vec![text("REQ"), text(&long_id)]).to_string();
    let err = ClientMessage::parse(&raw).unwrap_err();
    assert!(
        matches!(err, RelayError::InvalidMessage(_)),
        "expected InvalidMessage for oversized sub_id, got {err:?}"
    );
}

#[test]
fn parse_req_too_many_filters_is_rejected() {
    let filter = Filter::new().kind(Kind::TextNote);
    let filter_val = serde_json::to_value(&filter).unwrap();
    let mut arr: Vec<serde_json::Value> = vec![
        serde_json::Value::String("REQ".to_string()),
        serde_json::Value::String("sub3".to_string()),
    ];
    for _ in 0..=MAX_FILTERS_PER_REQ {
        arr.push(filter_val.clone());
    }
    let raw = serde_json::Value::Array(arr).to_string();
    let err = ClientMessage::parse(&raw).unwrap_err();
    assert!(
        matches!(err, RelayError::InvalidMessage(_)),
        "expected InvalidMessage for too many filters, got {err:?}"
    );
}

#[test]
fn parse_req_exactly_max_filters_is_accepted() {
    let filter = Filter::new().kind(Kind::TextNote);
    let filter_val = serde_json::to_value(&filter).unwrap();
    let mut arr: Vec<serde_json::Value> = vec![
        serde_json::Value::String("REQ".to_string()),
        serde_json::Value::String("sub4".to_string()),
    ];
    for _ in 0..MAX_FILTERS_PER_REQ {
        arr.push(filter_val.clone());
    }
    let raw = serde_json::Value::Array(arr).to_string();
    assert!(
        ClientMessage::parse(&raw).is_ok(),
        "exactly {MAX_FILTERS_PER_REQ} filters should be accepted"
    );
}

type FormatCase<'a> = (&'a str, Box<dyn Fn()>);

#[test]
fn format_relay_messages() {
    let event = make_event(Kind::TextNote);

    let cases: &[FormatCase<'_>] = &[
        (
            "auth_challenge",
            Box::new(|| {
                let msg = RelayMessage::auth_challenge("abc123");
                let v: Value = serde_json::from_str(&msg).unwrap();
                assert_eq!(v[0], "AUTH");
                assert_eq!(v[1], "abc123");
            }),
        ),
        (
            "event",
            Box::new({
                let event = event.clone();
                move || {
                    let msg = RelayMessage::event("sub1", &event);
                    let v: Value = serde_json::from_str(&msg).unwrap();
                    assert_eq!(v[0], "EVENT");
                    assert_eq!(v[1], "sub1");
                    assert_eq!(v[2]["id"], event.id.to_hex());
                }
            }),
        ),
        (
            "notice",
            Box::new(|| {
                let msg = RelayMessage::notice("hello");
                let v: Value = serde_json::from_str(&msg).unwrap();
                assert_eq!(v[0], "NOTICE");
                assert_eq!(v[1], "hello");
            }),
        ),
        (
            "eose",
            Box::new(|| {
                let msg = RelayMessage::eose("sub1");
                let v: Value = serde_json::from_str(&msg).unwrap();
                assert_eq!(v[0], "EOSE");
                assert_eq!(v[1], "sub1");
            }),
        ),
        (
            "ok_accepted",
            Box::new(|| {
                let msg = RelayMessage::ok("eid", true, "");
                let v: Value = serde_json::from_str(&msg).unwrap();
                assert_eq!(v[0], "OK");
                assert_eq!(v[2], true);
                assert_eq!(v[3], "");
            }),
        ),
        (
            "ok_rejected",
            Box::new(|| {
                let msg = RelayMessage::ok("eid", false, "auth-required");
                let v: Value = serde_json::from_str(&msg).unwrap();
                assert_eq!(v[2], false);
                assert_eq!(v[3], "auth-required");
            }),
        ),
        (
            "closed",
            Box::new(|| {
                let msg = RelayMessage::closed("sub1", "auth-required: not authenticated");
                let v: Value = serde_json::from_str(&msg).unwrap();
                assert_eq!(v[0], "CLOSED");
                assert_eq!(v[1], "sub1");
                assert_eq!(v[2], "auth-required: not authenticated");
            }),
        ),
    ];

    for (name, check) in cases {
        let _ = name;
        check();
    }
}

#[test]
fn relay_messages_are_written_exactly() {
    assert_eq!(RelayMessage::auth_challenge("c"), r#"["AUTH","c"]"#);
    assert_eq!(RelayMessage::notice("a \"b\"\n"), r#"["NOTICE","a \"b\"\n"]"#);
    assert_eq!(RelayMessage::eose("s"), r#"["EOSE","s"]"#);
    assert_eq!(RelayMessage::ok("e", true, ""), r#"["OK","e",true,""]"#);
    assert_eq!(RelayMessage::ok("e", false, "no"), r#"["OK","e",false,"no"]"#);
    assert_eq!(RelayMessage::closed("s", "bye"), r#"["CLOSED","s","bye"]"#);
    assert_eq!(RelayMessage::count("s", 0), r#"["COUNT","s",{"count":0}]"#);
    assert_eq!(
        RelayMessage::count("s", u64::MAX),
        r#"["COUNT","s",{"count":18446744073709551615}]"#
    );
}

#[test]
fn delivered_event_is_the_event() {
    let event = make_event(Kind::TextNote);
    let raw = RelayMessage::event("sub1", &event);
    let frame: Value = serde_json::from_str(&raw).unwrap();
    assert_eq!(frame[2], serde_json::to_value(&event).unwrap());
    assert_eq!(serde_json::from_value::<Event>(frame[2].clone()).unwrap(), event);
}

/// A submitted event, framed as the client does, is received as it was signed.
#[test]
fn submitted_event_is_received_whole() {
    let event = make_event(Kind::TextNote);
    for label in ["EVENT", "AUTH"] {
        let raw = array(vec![text(label), serde_json::to_value(&event).unwrap()]).to_string();
        match ClientMessage::parse(&raw).unwrap() {
            ClientMessage::Event(e) => {
                assert_eq!(label, "EVENT");
                assert_eq!(e, event);
            }
            ClientMessage::Auth(e) => {
                assert_eq!(label, "AUTH");
                assert_eq!(e, event);
            }
            _ => panic!("expected an event"),
        }
    }
}

#[test]
fn rejections_say_why() {
    assert_eq!(
        rejection("not json"),
        format!(
            "JSON parse error: {}",
            serde_json::from_str::<Value>("not json").unwrap_err()
        )
    );
    assert_eq!(rejection("{}"), "expected JSON array");
    assert_eq!(rejection("[]"), "empty array");
    assert_eq!(rejection("[1]"), "first element must be a string");
    assert_eq!(
        rejection(r#"["UNKNOWN", "data"]"#),
        "unknown message type: UNKNOWN"
    );
    assert_eq!(rejection(r#"["EVENT"]"#), "EVENT requires event object");
    assert_eq!(rejection(r#"["AUTH"]"#), "AUTH requires event object");
    assert_eq!(rejection(r#"["CLOSE"]"#), "CLOSE requires sub_id");
    assert_eq!(rejection(r#"["CLOSE", 1]"#), "CLOSE sub_id must be a string");
    for label in ["REQ", "COUNT"] {
        assert_eq!(
            rejection(&format!(r#"["{label}"]"#)),
            format!("{label} requires sub_id")
        );
        assert_eq!(
            rejection(&format!(r#"["{label}", 7]"#)),
            format!("{label} sub_id must be a string")
        );
        assert_eq!(
            rejection(&format!(r#"["{label}", ""]"#)),
            format!("{label} sub_id must not be empty")
        );
        assert_eq!(
            rejection(&format!(r#"["{label}", "{}"]"#, "x".repeat(257))),
            format!("{label} sub_id exceeds maximum length of 256 bytes")
        );
        assert_eq!(
            rejection(&format!(r#"["{label}", "s"{}]"#, ",{}".repeat(11))),
            format!("{label} contains 11 filters, maximum is 10")
        );
        assert!(rejection(&format!(r#"["{label}", "s", 3]"#)).starts_with("invalid filter: "));
    }
    assert!(rejection(r#"["EVENT", {}]"#).starts_with("invalid event: "));
    assert!(rejection(r#"["AUTH", {}]"#).starts_with("invalid auth event: "));
    assert_eq!(
        rejection(r#"["REQ", "s", {"sync_authoritative": 1}]"#),
        "sync_authoritative must be a boolean"
    );
}

#[test]
fn the_error_of_the_deserializer_is_passed_on() {
    let expected = serde_json::from_value::<Event>(object(vec![])).unwrap_err();
    assert_eq!(
        rejection(r#"["EVENT", {}]"#),
        format!("invalid event: {expected}")
    );
    let expected = serde_json::from_value::<Filter>(Value::from(3)).unwrap_err();
    assert_eq!(
        rejection(r#"["REQ", "s", 3]"#),
        format!("invalid filter: {expected}")
    );
}

/// The limit counts UTF-8 bytes, and CLOSE has none.
#[test]
fn subscription_ids_are_measured_in_bytes() {
    let fitting = "é".repeat(128);
    let too_long = "é".repeat(128) + "x";
    assert!(ClientMessage::parse(&format!(r#"["REQ", "{fitting}", {{}}]"#)).is_ok());
    assert!(ClientMessage::parse(&format!(r#"["COUNT", "{fitting}"]"#)).is_ok());
    assert!(ClientMessage::parse(&format!(r#"["REQ", "{too_long}", {{}}]"#)).is_err());
    assert!(ClientMessage::parse(&format!(r#"["COUNT", "{too_long}"]"#)).is_err());
    match ClientMessage::parse(&format!(r#"["CLOSE", "{too_long}"]"#)).unwrap() {
        ClientMessage::Close(id) => assert_eq!(id, too_long),
        _ => panic!("expected Close"),
    }
    match ClientMessage::parse(r#"["CLOSE", "", 1]"#).unwrap() {
        ClientMessage::Close(id) => assert_eq!(id, ""),
        _ => panic!("expected Close"),
    }
}

/// A REQ opens a subscription with one or more filters; a COUNT may have none.
#[test]
fn a_subscription_needs_a_filter() {
    assert_eq!(
        rejection(r#"["REQ", "s"]"#),
        "REQ requires at least one filter"
    );
    // The id is looked at first.
    assert_eq!(rejection(r#"["REQ", ""]"#), "REQ sub_id must not be empty");
    assert_eq!(rejection(r#"["REQ", 1]"#), "REQ sub_id must be a string");
    assert_eq!(
        rejection(&format!(r#"["REQ", "{}"]"#, "x".repeat(257))),
        "REQ sub_id exceeds maximum length of 256 bytes"
    );
    match ClientMessage::parse(r#"["REQ", "s", {}]"#).unwrap() {
        ClientMessage::Req { filters, .. } => assert_eq!(filters.len(), 1),
        _ => panic!("expected Req"),
    }
    match ClientMessage::parse(r#"["COUNT", "s"]"#).unwrap() {
        ClientMessage::Count { filters, .. } => assert!(filters.is_empty()),
        _ => panic!("expected Count"),
    }
}

/// COUNT does not look at `sync_authoritative`.
#[test]
fn count_ignores_the_sync_flag() {
    match ClientMessage::parse(r#"["COUNT", "c", {"kinds": [1], "sync_authoritative": 1}]"#)
        .unwrap()
    {
        ClientMessage::Count { sub_id, filters } => {
            assert_eq!(sub_id, "c");
            assert_eq!(filters, vec![Filter::new().kind(Kind::TextNote)]);
        }
        _ => panic!("expected Count"),
    }
}

/// An invalid filter is reported before a misstated flag.
#[test]
fn filters_are_read_before_the_sync_flag() {
    let message = rejection(r#"["REQ", "s", {"sync_authoritative": 1}, 3]"#);
    assert!(message.starts_with("invalid filter: "), "{message}");
}

#[test]
fn repeated_members_follow_the_last() {
    let raw = r#"["REQ", "s", {"sync_authoritative": 1, "sync_authoritative": true}]"#;
    match ClientMessage::parse(raw).unwrap() {
        ClientMessage::Req {
            sync_authoritative, ..
        } => assert!(sync_authoritative),
        _ => panic!("expected Req"),
    }
}

#[test]
fn sync_flag_of_filter_values() {
    let flag = |value: Json| {
        Json::Object(vec![("sync_authoritative".to_string(), value)])
    };
    assert!(!parse_sync_authoritative(&[]).unwrap());
    assert!(!parse_sync_authoritative(&[Json::Null, Json::text("x")]).unwrap());
    assert!(parse_sync_authoritative(&[flag(Json::Bool(false)), flag(Json::Bool(true))]).unwrap());
    assert_eq!(
        message_of(
            parse_sync_authoritative(&[flag(Json::Bool(true)), flag(Json::Null)]).unwrap_err()
        ),
        "sync_authoritative must be a boolean"
    );
}

#[test]
fn frames_are_read_from_plain_json() {
    let frame = Json::Array(vec![Json::text("CLOSE"), Json::text("sub1")]);
    match ClientMessage::from_json(&frame).unwrap() {
        ClientMessage::Close(id) => assert_eq!(id, "sub1"),
        _ => panic!("expected Close"),
    }
    assert_eq!(
        message_of(ClientMessage::from_json(&Json::Null).unwrap_err()),
        "expected JSON array"
    );
}

#[test]
fn a_message_is_copied_whole() {
    let event = make_event(Kind::TextNote);
    match ClientMessage::Event(event.clone()).clone() {
        ClientMessage::Event(e) => assert_eq!(e, event),
        _ => panic!("expected Event"),
    }
    let filters = vec![Filter::new().kind(Kind::Metadata)];
    let req = ClientMessage::Req {
        sub_id: "s".to_string(),
        filters: filters.clone(),
        sync_authoritative: true,
    };
    match req.clone() {
        ClientMessage::Req {
            sub_id,
            filters: copied,
            sync_authoritative,
        } => {
            assert_eq!(sub_id, "s");
            assert_eq!(copied, filters);
            assert!(sync_authoritative);
        }
        _ => panic!("expected Req"),
    }
}

/// Frames nested up to the limit of the parser are read; deeper ones are rejected.
#[test]
fn deep_frames() {
    let nested = |depth: usize| format!(r#"["NOPE",{}{}]"#, "[".repeat(depth), "]".repeat(depth));
    assert_eq!(rejection(&nested(126)), "unknown message type: NOPE");
    assert!(rejection(&nested(127)).starts_with("JSON parse error: recursion limit exceeded"));
}
