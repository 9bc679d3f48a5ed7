use uplink_metadata::Custom;
use uplink_metadata::Entry;
use uplink_metadata::FlatMetadata;
use uplink_metadata::System;

#[test]
fn test_with_entries_empty() {
    let custom = Custom::with_entries(&[]);
    assert_eq!(custom.count(), 0, "count of an empty store");
    assert_eq!(custom.get("any").as_deref(), None, "get on an empty store");
}

#[test]
fn test_with_entries_later_pair_wins() {
    let custom = Custom::with_entries(&[("k", "first"), ("k", "second")]);
    assert_eq!(custom.count(), 1, "a repeated key makes one entry");
    assert_eq!(
        custom.get("k").as_deref(),
        Some("second"),
        "the later pair wins"
    );
}

#[test]
fn test_export_import_round_trip_any_order() {
    let mut a = Custom::with_entries(&[("k1", "v1"), ("k2", "v2"), ("k3", "v3")]);
    let mut b = Custom::with_entries(&[("k3", "v3"), ("k1", "v1")]);
    b.insert("k2", "v2");

    let from_a = Custom::from_flat(&a.to_flat()).expect("import of an export succeeds");
    let from_b = Custom::from_flat(&b.to_flat()).expect("import of an export succeeds");

    assert_eq!(from_a.count(), 3, "count after the round trip");
    assert_eq!(from_b.count(), 3, "count after the round trip");
    for (k, v) in [("k1", "v1"), ("k2", "v2"), ("k3", "v3")] {
        assert_eq!(from_a.get(k).as_deref(), Some(v), "round-tripped value");
        assert_eq!(from_b.get(k).as_deref(), Some(v), "round-tripped value");
    }
}

#[test]
fn test_export_cache_consecutive_exports_identical() {
    let mut custom = Custom::with_entries(&[("a", "1"), ("b", "2")]);

    let first = custom.to_flat();
    let second = custom.to_flat();

    assert_eq!(first.count(), second.count(), "same record count");
    for (x, y) in first.entries.iter().zip(second.entries.iter()) {
        assert_eq!(x.key, y.key, "same record keys in the same order");
        assert_eq!(x.value, y.value, "same record values in the same order");
    }
}

#[test]
fn test_export_after_mutation_reflects_new_state() {
    let mut custom = Custom::with_entries(&[("a", "1"), ("b", "2")]);

    let first = custom.to_flat();
    assert_eq!(first.count(), 2, "count before the mutation");

    custom.delete("a");

    let second = custom.to_flat();
    assert_eq!(second.count(), 1, "count after the mutation");
    assert_eq!(second.entries[0].key.as_str(), "b");
    assert_eq!(second.entries[0].value.as_str(), "2");
}

#[test]
fn test_export_empty_store() {
    let mut custom = Custom::default();
    let flat = custom.to_flat();
    assert_eq!(flat.count(), 0, "an empty store exports count zero");
}

#[test]
fn test_import_empty_descriptor() {
    let flat = FlatMetadata::default();
    assert_eq!(flat.count(), 0, "the default descriptor is empty");
    let custom = Custom::from_flat(&flat).expect("import of an empty descriptor succeeds");
    assert_eq!(custom.count(), 0, "an empty descriptor imports an empty store");
}

#[test]
fn test_import_never_fails() {
    // The import path is typed as fallible only to leave room for future
    // validation; today every input imports successfully.
    let empty = FlatMetadata { entries: Vec::new() };
    assert!(Custom::from_flat(&empty).is_ok(), "empty record list");

    let duplicated = FlatMetadata {
        entries: vec![
            Entry {
                key: "k".to_string(),
                value: "first".to_string(),
            },
            Entry {
                key: "k".to_string(),
                value: "second".to_string(),
            },
        ],
    };
    assert!(Custom::from_flat(&duplicated).is_ok(), "repeated keys");
}

#[test]
fn test_import_duplicate_keys_later_record_wins() {
    let flat = FlatMetadata {
        entries: vec![
            Entry {
                key: "k".to_string(),
                value: "first".to_string(),
            },
            Entry {
                key: "k".to_string(),
                value: "second".to_string(),
            },
        ],
    };
    let custom = Custom::from_flat(&flat).expect("import succeeds");
    assert_eq!(custom.count(), 1, "a repeated key imports as one entry");
    assert_eq!(
        custom.get("k").as_deref(),
        Some("second"),
        "the later record wins"
    );
}

#[test]
fn test_embedded_nul_round_trip() {
    let key = "binary-ish";
    let val = "before\0after";

    let mut custom = Custom::default();
    custom.insert(key, val);

    let exported = custom.to_flat();

    // Simulate the foreign copy: rebuild every record from its bytes using
    // the explicit lengths, never scanning for a terminator.
    let mut copied: Vec<Entry> = Vec::new();
    for entry in &exported.entries {
        let key_bytes = entry.key.as_bytes()[..entry.key.len()].to_vec();
        let value_bytes = entry.value.as_bytes()[..entry.value.len()].to_vec();
        copied.push(Entry {
            key: String::from_utf8(key_bytes).expect("keys are UTF-8"),
            value: String::from_utf8(value_bytes).expect("values are UTF-8"),
        });
    }
    let foreign = FlatMetadata { entries: copied };

    let imported = Custom::from_flat(&foreign).expect("import succeeds");
    assert_eq!(imported.count(), 1, "count after the round trip");
    assert_eq!(
        imported.get(key).as_deref(),
        Some(val),
        "a value with an embedded NUL byte round-trips byte for byte"
    );
}

#[test]
fn test_iter_lists_every_pair_once() {
    let pairs = [("k1", "v1"), ("k2", "v2"), ("k3", "v3")];
    let custom = Custom::with_entries(&pairs);

    let listed = custom.iter();
    assert_eq!(listed.len(), pairs.len(), "one record per entry");
    for (k, v) in pairs {
        let found = listed
            .iter()
            .filter(|e| e.key.as_str() == k && e.value.as_str() == v)
            .count();
        assert_eq!(found, 1, "each pair is listed exactly once");
    }
}

#[test]
fn test_insert_returns_presence() {
    let mut custom = Custom::default();
    assert!(!custom.insert("k", "v1"), "a fresh key reports as new");
    assert!(custom.insert("k", "v2"), "a present key reports as replaced");
    assert_eq!(custom.count(), 1, "overwriting does not change the count");
    assert_eq!(custom.get("k").as_deref(), Some("v2"), "the later value wins");
}

#[test]
fn test_system_is_carried_by_value() {
    let system = System {
        created: 1_697_000_000,
        expires: Some(1_700_000_000),
        content_length: -1,
    };
    let copy = system;
    assert_eq!(copy.created, 1_697_000_000, "creation time is carried");
    assert_eq!(copy.expires, Some(1_700_000_000), "expiry is carried");
    assert_eq!(
        copy.content_length, -1,
        "the signed content length keeps its range"
    );

    let never_expires = System {
        created: 0,
        expires: None,
        content_length: 0,
    };
    assert_eq!(never_expires.expires, None, "absent expiry means never");
}
