use buzz::tombstone::deferred_behind_failed_tombstone;
use buzz::tombstone::tombstone_retention_d_tag;

fn failed(pairs: &[(&str, &str)]) -> Vec<(String, String)> {
    pairs
        .iter()
        .map(|(pubkey, key)| (pubkey.to_string(), key.to_string()))
        .collect()
}

#[test]
fn tombstone_keys_hold_kind_and_d_tag() {
    assert_eq!(tombstone_retention_d_tag(30175, "slug"), "30175:slug");
    assert_eq!(tombstone_retention_d_tag(0, ""), "0:");
    assert_eq!(tombstone_retention_d_tag(u32::MAX, "a:b"), "4294967295:a:b");
}

#[test]
fn tombstones_of_different_targets_do_not_collide() {
    let keys = [
        tombstone_retention_d_tag(30175, "x"),
        tombstone_retention_d_tag(30176, "x"),
        tombstone_retention_d_tag(30175, "y"),
        tombstone_retention_d_tag(1, "2:x"),
        tombstone_retention_d_tag(12, ":x"),
    ];
    for (i, a) in keys.iter().enumerate() {
        for (j, b) in keys.iter().enumerate() {
            assert_eq!(a == b, i == j);
        }
    }
}

#[test]
fn a_failed_tombstone_defers_its_replacement_only() {
    let failed = failed(&[("other", "1:z"), ("author", "30175:slug")]);
    assert!(deferred_behind_failed_tombstone(30175, "author", "slug", &failed));
    assert!(!deferred_behind_failed_tombstone(30176, "author", "slug", &failed));
    assert!(!deferred_behind_failed_tombstone(30175, "other", "slug", &failed));
    assert!(!deferred_behind_failed_tombstone(30175, "author", "slug2", &failed));
    assert!(deferred_behind_failed_tombstone(1, "other", "z", &failed));
    assert!(!deferred_behind_failed_tombstone(30175, "author", "slug", &[]));
}

#[test]
fn tombstones_are_never_deferred() {
    let failed = failed(&[("author", "5:slug"), ("author", "slug")]);
    assert!(!deferred_behind_failed_tombstone(5, "author", "slug", &failed));
}
