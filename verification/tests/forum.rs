use buzz::event::EventData;
use buzz::forum::apply_link_preview_suppression;
use buzz::forum::author_pubkeys;
use buzz::forum::collect_owner_pubkeys;
use buzz::forum::forum_message;
use buzz::forum::forum_message_from_event;
use buzz::forum::forum_reply;
use buzz::forum::forum_reply_from_event;
use buzz::forum::link_preview_suppression_targets;
use buzz::forum::owner_lookup;
use buzz::forum::owner_lookup_filter;
use buzz::forum::owners_of_profiles;
use buzz::forum::suppression_targets;
use buzz::forum::StringHashMap;
use buzz::forum::StringHashSet;
use nostr::EventBuilder;
use nostr::Keys;
use nostr::Kind;

fn signed_event(keys: &Keys, kind: u16, tags: Vec<Vec<String>>) -> nostr::Event {
    let tags = tags
        .into_iter()
        .map(nostr::Tag::parse)
        .collect::<Result<Vec<_>, _>>()
        .expect("valid tags");
    EventBuilder::new(Kind::Custom(kind), "body")
        .tags(tags)
        .sign_with_keys(keys)
        .expect("event signs")
}

fn tag(values: &[&str]) -> Vec<String> {
    values.iter().map(|value| value.to_string()).collect()
}

fn event(id: &str, pubkey: &str, kind: u16, tags: &[&[&str]]) -> EventData {
    EventData {
        id: id.to_string(),
        pubkey: pubkey.to_string(),
        created_at: 1_700_000_000,
        kind,
        tags: tags.iter().map(|values| tag(values)).collect(),
        content: "body".to_string(),
        sig: "sig".to_string(),
    }
}

fn set(ids: &[&str]) -> StringHashSet {
    let mut set = StringHashSet::new();
    for id in ids {
        set.insert(id.to_string());
    }
    set
}

fn map(pairs: &[(&str, &str)]) -> StringHashMap<String> {
    let mut map = StringHashMap::new();
    for (key, value) in pairs {
        map.insert(key.to_string(), value.to_string());
    }
    map
}

#[test]
fn suppression_targets_accepts_author_and_verified_owner_only() {
    let author = Keys::generate();
    let owner = Keys::generate();
    let attacker = Keys::generate();
    let original = signed_event(&author, 9, Vec::new());
    let marker = vec!["link-preview".to_string(), "none".to_string()];
    let target = vec!["e".to_string(), original.id.to_hex()];
    let author_edit = signed_event(&author, 40003, vec![target.clone(), marker.clone()]);
    let owner_edit = signed_event(&owner, 40003, vec![target.clone(), marker.clone()]);
    let spoofed_edit = signed_event(&attacker, 40003, vec![target, marker]);
    let mut owners = StringHashMap::new();
    owners.insert(author.public_key().to_hex(), owner.public_key().to_hex());

    for edit in [&author_edit, &owner_edit] {
        assert!(link_preview_suppression_targets(
            std::slice::from_ref(&original),
            std::slice::from_ref(edit),
            &owners,
        )
        .contains(&original.id.to_hex()));
    }
    assert!(link_preview_suppression_targets(
        std::slice::from_ref(&original),
        std::slice::from_ref(&spoofed_edit),
        &owners,
    )
    .is_empty());
}

#[test]
fn an_event_is_read_field_by_field() {
    let keys = Keys::generate();
    let signed = signed_event(&keys, 9, vec![tag(&["e", "abc", "", "reply"]), tag(&["t"])]);
    let info = forum_message_from_event(&signed, "general");
    assert_eq!(info.event_id, signed.id.to_hex());
    assert_eq!(info.pubkey, keys.public_key().to_hex());
    assert_eq!(info.sig, signed.sig.to_string());
    assert_eq!(info.content, "body");
    assert_eq!(info.kind, 9);
    assert_eq!(info.created_at, signed.created_at.as_secs() as i64);
    assert_eq!(info.channel_id, "general");
    assert_eq!(info.tags, vec![tag(&["e", "abc", "", "reply"]), tag(&["t"])]);
    let summary = info.thread_summary.expect("a summary");
    assert_eq!(summary.reply_count, 0);
    assert_eq!(summary.descendant_count, 0);
    assert_eq!(summary.last_reply_at, None);
    assert!(summary.participants.is_empty());
    assert_eq!(info.reactions.to_text(), "null");

    let reply = forum_reply_from_event(&signed, "general", "root");
    assert_eq!(reply.event_id, signed.id.to_hex());
    assert_eq!(reply.parent_event_id.as_deref(), Some("abc"));
    assert_eq!(reply.root_event_id.as_deref(), Some("root"));
    assert_eq!(reply.depth, 2);
    assert_eq!(reply.kind, 9);
    assert!(!reply.broadcast);
    assert_eq!(reply.reactions.to_text(), "null");
}

#[test]
fn a_message_shows_its_event() {
    let data = event("id", "author", 65535, &[&["x"]]);
    let info = forum_message(&data, "c");
    assert_eq!(info.event_id, "id");
    assert_eq!(info.pubkey, "author");
    assert_eq!(info.sig, "sig");
    assert_eq!(info.kind, 65535);
    assert_eq!(info.created_at, 1_700_000_000);
    assert_eq!(info.tags, vec![tag(&["x"])]);
}

/// Where a reply with these tags hangs: its parent, its root and its depth.
fn place(tags: &[&[&str]]) -> (String, String, u32) {
    let reply = forum_reply(&event("id", "author", 9, tags), "c", "top");
    (
        reply.parent_event_id.expect("a parent"),
        reply.root_event_id.expect("a root"),
        reply.depth,
    )
}

fn placed(parent: &str, root: &str, depth: u32) -> (String, String, u32) {
    (parent.to_string(), root.to_string(), depth)
}

#[test]
fn replies_are_placed_by_their_markers() {
    assert_eq!(place(&[]), placed("top", "top", 1));
    assert_eq!(place(&[&["e", "a"]]), placed("a", "top", 2));
    assert_eq!(place(&[&["e", "top"]]), placed("top", "top", 1));
    assert_eq!(
        place(&[&["e", "r", "", "root"], &["e", "p", "", "reply"]]),
        placed("p", "r", 2)
    );
    // A root marker alone leaves the parent to the thread's own root.
    assert_eq!(place(&[&["e", "r", "", "root"]]), placed("top", "r", 2));
    assert_eq!(place(&[&["e", "top", "", "root"]]), placed("top", "top", 1));
    // The last marker wins; an unmarked reference only fills a gap.
    assert_eq!(
        place(&[&["e", "p", "", "reply"], &["e", "q", "", "reply"]]),
        placed("q", "top", 2)
    );
    assert_eq!(place(&[&["e", "a"], &["e", "b"]]), placed("a", "top", 2));
    assert_eq!(
        place(&[&["e", "p", "", "reply"], &["e", "a"]]),
        placed("p", "top", 2)
    );
    assert_eq!(
        place(&[&["e", "a"], &["e", "p", "", "reply"]]),
        placed("p", "top", 2)
    );
    // Other markers count as none, other tags and bare references do not count.
    assert_eq!(
        place(&[&["e", "m", "", "mention"]]),
        placed("m", "top", 2)
    );
    assert_eq!(place(&[&["e"], &["p", "x"], &[]]), placed("top", "top", 1));
}

fn suppressed(originals: &[EventData], edits: &[EventData], owners: &[(&str, &str)]) -> Vec<String> {
    let targets = suppression_targets(originals, edits, &map(owners));
    originals
        .iter()
        .map(|original| original.id.clone())
        .filter(|id| targets.contains(id))
        .collect()
}

#[test]
fn only_marked_edits_suppress() {
    let original = event("m", "author", 9, &[]);
    let off: &[&str] = &["link-preview", "none"];
    let originals = [original];
    let good = event("x", "author", 40003, &[&["e", "m"], off]);
    assert_eq!(suppressed(&originals, &[good.clone()], &[]), vec!["m"]);
    let wrong_kind = event("x", "author", 40002, &[&["e", "m"], off]);
    assert!(suppressed(&originals, &[wrong_kind], &[]).is_empty());
    let longer_marker = event("x", "author", 40003, &[&["e", "m"], &["link-preview", "none", "x"]]);
    assert!(suppressed(&originals, &[longer_marker], &[]).is_empty());
    let no_marker = event("x", "author", 40003, &[&["e", "m"]]);
    assert!(suppressed(&originals, &[no_marker], &[]).is_empty());
    let no_target = event("x", "author", 40003, &[off]);
    assert!(suppressed(&originals, &[no_target], &[]).is_empty());
    let unknown_target = event("x", "author", 40003, &[&["e", "n"], off]);
    assert!(suppressed(&originals, &[unknown_target], &[]).is_empty());
    assert!(suppressed(&originals, &[], &[]).is_empty());
    // A bare reference is passed over, the first with a value counts.
    let first = event("x", "author", 40003, &[off, &["e"], &["e", "m"], &["e", "n"]]);
    assert_eq!(suppressed(&originals, &[first], &[]), vec!["m"]);
    let second = event("x", "author", 40003, &[off, &["e", "n"], &["e", "m"]]);
    assert!(suppressed(&originals, &[second], &[]).is_empty());
}

/// Both the author and the owner on record turn previews off, each by an edit of theirs.
#[test]
fn author_and_owner_suppress() {
    let originals = [event("m", "agent", 9, &[]), event("n", "agent", 9, &[])];
    let off: &[&str] = &["link-preview", "none"];
    let by_author = event("x", "agent", 40003, &[&["e", "m"], off]);
    let by_owner = event("y", "owner", 40003, &[off, &["e", "n"]]);
    assert_eq!(
        suppressed(&originals, &[by_author, by_owner], &[("agent", "owner")]),
        vec!["m", "n"]
    );
}

#[test]
fn owners_suppress_for_their_agents_only() {
    let originals = [event("m", "agent", 9, &[]), event("n", "other", 9, &[])];
    let off: &[&str] = &["link-preview", "none"];
    let on_m = event("x", "owner", 40003, &[&["e", "m"], off]);
    let on_n = event("y", "owner", 40003, &[&["e", "n"], off]);
    let edits = [on_m, on_n];
    assert_eq!(suppressed(&originals, &edits, &[("agent", "owner")]), vec!["m"]);
    assert!(suppressed(&originals, &edits, &[("agent", "someone")]).is_empty());
    assert!(suppressed(&originals, &edits, &[]).is_empty());
}

/// Of two originals with one id the later one says who the author is.
#[test]
fn the_last_original_of_an_id_counts() {
    let off: &[&str] = &["link-preview", "none"];
    let originals = [event("m", "first", 9, &[]), event("m", "last", 9, &[])];
    let by_last = event("x", "last", 40003, &[&["e", "m"], off]);
    let by_first = event("y", "first", 40003, &[&["e", "m"], off]);
    assert_eq!(suppressed(&originals, &[by_last], &[]).len(), 2);
    assert!(suppressed(&originals, &[by_first], &[]).is_empty());
}

#[test]
fn suppression_marks_the_tags_once() {
    let mut tags = vec![tag(&["t", "x"])];
    apply_link_preview_suppression(&mut tags, "other", &set(&["m"]));
    assert_eq!(tags, vec![tag(&["t", "x"])]);
    apply_link_preview_suppression(&mut tags, "m", &set(&["m"]));
    assert_eq!(tags, vec![tag(&["t", "x"]), tag(&["link-preview", "none"])]);
    apply_link_preview_suppression(&mut tags, "m", &set(&["m"]));
    assert_eq!(tags.len(), 2);
    let mut near = vec![tag(&["link-preview", "none", "x"])];
    apply_link_preview_suppression(&mut near, "m", &set(&["m"]));
    assert_eq!(
        near,
        vec![tag(&["link-preview", "none", "x"]), tag(&["link-preview", "none"])]
    );
}

#[test]
fn each_author_is_asked_for_once() {
    let events = [
        event("1", "b", 9, &[]),
        event("2", "a", 9, &[]),
        event("3", "b", 9, &[]),
    ];
    assert_eq!(author_pubkeys(&events), vec!["b", "a"]);
    assert_eq!(
        owner_lookup_filter(&events).expect("a filter").to_text(),
        r#"{"authors":["b","a"],"kinds":[0]}"#
    );
    assert!(owner_lookup_filter(&[]).is_none());
    assert!(owner_lookup(&[]).is_none());

    let keys = Keys::generate();
    let signed = [signed_event(&keys, 9, vec![]), signed_event(&keys, 10, vec![])];
    assert_eq!(
        owner_lookup(&signed).expect("a filter").to_text(),
        format!(r#"{{"authors":["{}"],"kinds":[0]}}"#, keys.public_key().to_hex())
    );
}

#[test]
fn owners_come_from_attested_profiles() {
    let pair = |agent: &str, owner: Option<&str>| {
        (agent.to_string(), owner.map(|owner| owner.to_string()))
    };
    let owners = collect_owner_pubkeys(&[
        pair("a", Some("x")),
        pair("b", None),
        pair("a", Some("y")),
        pair("a", None),
    ]);
    assert_eq!(owners.len(), 1);
    assert_eq!(owners.get("a").map(String::as_str), Some("y"));
    assert!(owners.get("b").is_none());
}

#[test]
fn owners_come_from_signed_profiles() {
    let agent = Keys::generate();
    let other = Keys::generate();
    let profile = |keys: &Keys| signed_event(keys, 0, vec![]);
    let owners = owners_of_profiles(&[
        (profile(&agent), Some("x".to_string())),
        (profile(&other), None),
        (profile(&agent), Some("y".to_string())),
    ]);
    assert_eq!(owners.len(), 1);
    assert_eq!(
        owners.get(&agent.public_key().to_hex()).map(String::as_str),
        Some("y")
    );
    assert!(owners_of_profiles(&[]).is_empty());
}

#[test]
fn event_data_is_copied_whole() {
    let data = event("i", "p", 3, &[&["a", "b"], &[]]);
    let copy = data.clone();
    assert_eq!(copy.id, "i");
    assert_eq!(copy.pubkey, "p");
    assert_eq!(copy.kind, 3);
    assert_eq!(copy.tags, vec![tag(&["a", "b"]), tag(&[])]);
    assert_eq!(copy.content, "body");
    assert_eq!(copy.sig, "sig");
    assert_eq!(copy.created_at, 1_700_000_000);
}
