//! Canonical texts, digests and the tables they are made from.

use graph_snapshot::digest::{digest_bytes, is_digest};
use graph_snapshot::json::{Json, canonical_json, digest_json, write_canonical_json};
use graph_snapshot::shards::{shard_digest, shard_key, snapshot_generation};
use graph_snapshot::snapshot::GraphSnapshotManifestEntry;

fn object(fields: Vec<(&str, Json)>) -> Json {
    Json::Object(fields.into_iter().map(|(key, value)| (key.to_owned(), value)).collect())
}

#[test]
fn canonical_json_sorts_keys_and_preserves_json_string_semantics() {
    let value = object(vec![
        ("z", Json::Text("<>&\u{2028}\u{2029}".to_owned())),
        ("a", object(vec![("d", Json::Number(2)), ("b", Json::Number(1))])),
    ]);
    let mut actual = String::new();
    write_canonical_json(&value, &mut actual);
    assert_eq!(
        actual,
        format!("{{\"a\":{{\"b\":1,\"d\":2}},\"z\":\"<>&{}{}\"}}", '\u{2028}', '\u{2029}')
    );
    assert_eq!(digest_json(&value).len(), 64);
}

#[test]
fn shard_identity_includes_the_exact_checker_source_digest() {
    let left = shard_digest(
        "target\0src/lib.rs",
        "src/lib.rs",
        "left",
        "interface",
        &vec![],
        &vec![],
        &vec![],
        &vec![],
        &vec![],
    );
    let right = shard_digest(
        "target\0src/lib.rs",
        "src/lib.rs",
        "right",
        "interface",
        &vec![],
        &vec![],
        &vec![],
        &vec![],
        &vec![],
    );

    assert_ne!(left, right);
}

#[test]
fn canonical_json_covers_every_kind_of_value() {
    let value = object(vec![
        ("nothing", Json::Null),
        ("list", Json::Array(vec![Json::Bool(true), Json::Bool(false), Json::Number(0)])),
        ("text", Json::Text("a\"b\\c\n\u{1}".to_owned())),
        ("empty", Json::Object(vec![])),
        ("large", Json::Number(u64::MAX)),
    ]);
    assert_eq!(
        canonical_json(&value),
        "{\"empty\":{},\"large\":18446744073709551615,\"list\":[true,false,0],\"nothing\":null,\
         \"text\":\"a\\\"b\\\\c\\n\\u0001\"}"
    );
}

#[test]
fn canonical_json_does_not_depend_on_field_order() {
    let left = object(vec![("b", Json::Number(1)), ("a", Json::Null)]);
    let right = object(vec![("a", Json::Null), ("b", Json::Number(1))]);
    assert_eq!(canonical_json(&left), canonical_json(&right));
    assert_eq!(digest_json(&left), digest_json(&right));
    assert_eq!(digest_json(&left), digest_bytes(b"{\"a\":null,\"b\":1}"));
}

#[test]
fn digests_are_lower_case_sha256() {
    assert_eq!(
        digest_bytes(b""),
        "e3b0c44298fc1c149afbf4c8996fb92427ae41e4649b934ca495991b7852b855"
    );
    assert_eq!(
        digest_bytes(b"abc"),
        "ba7816bf8f01cfea414140de5dae2223b00361a396177a9cb410ff61f20015ad"
    );
    assert!(is_digest(&digest_bytes(b"abc")));
    assert!(!is_digest(&digest_bytes(b"abc").to_uppercase()));
    assert!(!is_digest("ba7816bf"));
    assert!(!is_digest(""));
    assert!(!is_digest(&"g".repeat(64)));
}

#[test]
fn generations_cover_the_universe_and_the_manifest() {
    let manifest = vec![GraphSnapshotManifestEntry {
        key: shard_key("rust:x", "src/lib.rs"),
        digest: "d".to_owned(),
    }];
    assert_eq!(manifest[0].key, "rust:x\0src/lib.rs");
    let generation = snapshot_generation("u", &manifest);
    assert_eq!(
        generation,
        digest_bytes(
            b"{\"manifest\":[{\"digest\":\"d\",\"key\":\"rust:x\\u0000src/lib.rs\"}],\"universe\":\"u\"}"
        )
    );
    assert_ne!(generation, snapshot_generation("v", &manifest));
    assert_ne!(generation, snapshot_generation("u", &vec![]));
}

#[test]
fn canonical_json_tells_values_apart() {
    let text = |value: &str| Json::Text(value.to_owned());
    let texts = [
        canonical_json(&Json::Array(vec![text("a"), text("b")])),
        canonical_json(&Json::Array(vec![text("a\",\"b")])),
        canonical_json(&Json::Array(vec![Json::Array(vec![text("a")]), text("b")])),
        canonical_json(&text("null")),
        canonical_json(&Json::Null),
        canonical_json(&text("12")),
        canonical_json(&Json::Number(12)),
        canonical_json(&Json::Array(vec![Json::Number(1), Json::Number(2)])),
        canonical_json(&object(vec![("a", Json::Null), ("b", Json::Null)])),
        canonical_json(&object(vec![("a\":null,\"b", Json::Null)])),
        canonical_json(&Json::Array(vec![])),
        canonical_json(&object(vec![])),
    ];
    for (index, left) in texts.iter().enumerate() {
        for right in &texts[index + 1..] {
            assert_ne!(left, right);
        }
    }
}

/// A value that was read, as one to write.
fn json(value: serde_json::Value) -> Json {
    match value {
        serde_json::Value::Null => Json::Null,
        serde_json::Value::Bool(value) => Json::Bool(value),
        serde_json::Value::Number(value) => Json::Number(value.as_u64().unwrap()),
        serde_json::Value::String(value) => Json::Text(value),
        serde_json::Value::Array(items) => Json::Array(items.into_iter().map(json).collect()),
        serde_json::Value::Object(fields) => {
            let mut fields: Vec<(String, Json)> =
                fields.into_iter().map(|(key, value)| (key, json(value))).collect();
            fields.sort_by(|left, right| left.0.cmp(&right.0));
            Json::Object(fields)
        }
    }
}

#[test]
fn canonical_json_reads_back_and_holds_no_white_space() {
    let text = |value: &str| Json::Text(value.to_owned());
    let ordered = object(vec![
        ("", Json::Array(vec![Json::Null, Json::Bool(true), Json::Bool(false)])),
        ("a b", object(vec![("\"\\", text("\u{1}\n\t \u{7f}\u{e9}")), ("]", Json::Number(0))])),
        ("z", Json::Array(vec![object(vec![]), Json::Array(vec![]), Json::Number(u64::MAX)])),
    ]);
    let written = canonical_json(&ordered);
    let read = json(serde_json::from_str(&written).unwrap());
    assert_eq!(format!("{read:?}"), format!("{ordered:?}"));
    let shuffled = object(vec![
        ("z", Json::Array(vec![object(vec![]), Json::Array(vec![]), Json::Number(u64::MAX)])),
        ("a b", object(vec![("]", Json::Number(0)), ("\"\\", text("\u{1}\n\t \u{7f}\u{e9}"))])),
        ("", Json::Array(vec![Json::Null, Json::Bool(true), Json::Bool(false)])),
    ]);
    assert_eq!(canonical_json(&shuffled), written);
    let mut inside = false;
    let mut escape = false;
    for c in written.chars() {
        if escape {
            escape = false;
        } else if inside {
            escape = c == '\\';
            inside = c != '"';
        } else {
            assert!(!c.is_whitespace());
            inside = c == '"';
        }
    }
}
