use std::path::Path;

use buzz::scope::normalized_relay_scope;
use buzz::scope::retention_db_name;
use buzz::scope::scope_for_arrival;
use buzz::scope::scoped_retention_db_path;
use buzz::scope::RetentionScope;
use nostr::Keys;

const NAME: &str = "b19f0495a2be683f99d449617a82b01aff6e262ed8546697686027dd78168e7f.db";

#[test]
fn relay_urls_are_normalized() {
    assert_eq!(normalized_relay_scope("wss://r.example"), "wss://r.example");
    assert_eq!(normalized_relay_scope("  wss://r.example/ \n"), "wss://r.example");
    assert_eq!(normalized_relay_scope("wss://r.example///"), "wss://r.example");
    assert_eq!(normalized_relay_scope("/"), "");
    assert_eq!(normalized_relay_scope(""), "");
    // Slashes are stripped after the space, and only once.
    assert_eq!(normalized_relay_scope("ws://x /"), "ws://x ");
    assert_eq!(normalized_relay_scope("WSS://R.example/a/b"), "WSS://R.example/a/b");
}

#[test]
fn database_names_are_hashes() {
    assert_eq!(retention_db_name("wss://relay.example.com", "abc"), NAME);
    assert_eq!(retention_db_name("", ""), "6e340b9cffb37a989ca544e6bb780a2c78901d3fb33738768511a30617afa01d.db");
    // Only ASCII letters of the owner are lowered, and nothing of the relay.
    assert_eq!(retention_db_name("ws://x /", "é"), "956bafbe78baa854c31251582da6fde003c0668e5a690ffb24c5e5ff2cbdaafe.db");
    assert_ne!(retention_db_name("ws://x", "É"), retention_db_name("ws://x", "é"));
    assert_ne!(retention_db_name("ws://X", "a"), retention_db_name("ws://x", "a"));
}

#[test]
fn database_path_is_below_the_base() {
    let path = scoped_retention_db_path(Path::new("/base"), "wss://relay.example.com", "abc");
    assert_eq!(path, Path::new("/base").join("retention").join(NAME));
    assert_eq!(path.file_name().expect("a file name").len(), 67);
}

#[test]
fn equivalent_urls_share_a_database() {
    for url in [
        " wss://relay.example.com",
        "wss://relay.example.com/",
        "\twss://relay.example.com// ",
    ] {
        assert_eq!(retention_db_name(url, " ABC "), NAME);
    }
}

#[test]
fn different_scopes_have_different_databases() {
    let names = [
        retention_db_name("wss://a", "x"),
        retention_db_name("wss://b", "x"),
        retention_db_name("wss://a", "y"),
        retention_db_name("a", "xwss://"),
    ];
    for (i, a) in names.iter().enumerate() {
        for (j, b) in names.iter().enumerate() {
            assert_eq!(a == b, i == j);
        }
    }
}

#[test]
fn scope_resolves_to_its_owner() {
    let keys = Keys::generate();
    let scope =
        RetentionScope::resolve(Path::new("/base"), "wss://a/".to_string(), keys.clone());
    assert_eq!(scope.relay_url, "wss://a/");
    assert_eq!(scope.owner_keys, keys);
    assert_eq!(
        scope.db_path,
        scoped_retention_db_path(Path::new("/base"), "wss://a", &keys.public_key().to_hex())
    );
}

/// For one owner the database tells the relay, and each owner has databases of its own.
#[test]
fn resolved_scopes_have_their_own_databases() {
    let keys = [Keys::generate(), Keys::generate()];
    let urls = ["wss://a", "wss://b", "wss://a/b", ""];
    let mut paths = Vec::new();
    for owner in &keys {
        for url in urls {
            let resolve = |url: String| {
                RetentionScope::resolve(Path::new("/base"), url, owner.clone()).db_path
            };
            assert_eq!(resolve(url.to_string()), resolve(format!(" {url}/ ")));
            paths.push(resolve(url.to_string()));
        }
    }
    for (i, a) in paths.iter().enumerate() {
        for (j, b) in paths.iter().enumerate() {
            assert_eq!(a == b, i == j);
        }
    }
}

#[test]
fn arrivals_belong_to_the_relay_that_delivered_them() {
    let scope = |url: &str| {
        RetentionScope::resolve(Path::new("/base"), url.to_string(), Keys::generate())
    };
    let owning = scope_for_arrival(scope("wss://a/"), " wss://a ").expect("the same relay");
    assert_eq!(owning.relay_url, "wss://a/");
    assert!(scope_for_arrival(scope("wss://a"), "wss://b").is_none());
    assert!(scope_for_arrival(scope("wss://a"), "wss://A").is_none());
}
