//! What a cache holds, how it changes, and what is answered from it.

use std::sync::Arc;

use graph_snapshot::cache::{
    CachedSnapshot, GraphSnapshotCache, drain_external_input_events_at,
    drain_source_input_events_at, ensure_cache_revision, hit_phases, producer, response_for,
    response_plan,
};
use graph_snapshot::checkpoint::{install_checkpoint, validate_checkpoint};
use graph_snapshot::commit::{Commit, commit_snapshot};
use graph_snapshot::digest::digest_bytes;
use graph_snapshot::error::GraphError;
use graph_snapshot::files::{DiskPath, FileId, FileLocation, SourceFile, SourceFiles};
use graph_snapshot::fingerprints::interfaces_changed;
use graph_snapshot::order::Key;
use graph_snapshot::plain::Plain;
use graph_snapshot::shards::{BuiltShards, shard_digest, shard_key, snapshot_generation};
use graph_snapshot::snapshot::{
    GraphSnapshotCheckpoint, GraphSnapshotCoverage, GraphSnapshotManifestEntry, GraphSnapshotNode,
    GraphSnapshotPhases, GraphSnapshotProducer, GraphSnapshotResult, GraphSnapshotShard,
    GraphSnapshotSource, GraphSnapshotUniverse, PROTOCOL_VERSION, SCHEMA_VERSION,
};
use graph_snapshot::table::Table;

fn table<K: Key, V: Plain>(entries: Vec<(K, V)>) -> Table<K, V> {
    let mut table = Table::new();
    for (key, value) in entries {
        table.insert(key, value);
    }
    table
}

fn names(list: &[&str]) -> Table<String, ()> {
    table(list.iter().map(|name| (name.to_string(), ())).collect())
}

fn texts(list: &[(&str, &str)]) -> Table<String, String> {
    table(list.iter().map(|(key, value)| (key.to_string(), value.to_string())).collect())
}

fn no_phases() -> GraphSnapshotPhases {
    GraphSnapshotPhases {
        semantic_millis: 0,
        shard_millis: 0,
        encode_millis: 0,
        total_millis: 0,
        cache_hit: false,
    }
}

fn empty_snapshot() -> CachedSnapshot {
    CachedSnapshot {
        revision: 0,
        producer: GraphSnapshotProducer::default(),
        universe: GraphSnapshotUniverse::default(),
        sequence: 0,
        generation: String::new(),
        manifest: Vec::new(),
        phases: no_phases(),
        shards: Table::new(),
        interface_fingerprints: Table::new(),
        source_inputs: Table::new(),
        node_owners: Table::new(),
        delta_base: None,
        delta_upserts: Vec::new(),
        delta_deletes: Vec::new(),
    }
}

/// A shard whose key and digest are what they should be.
fn sealed_shard(target: &str, source: &str, checker: &str, node: &str) -> GraphSnapshotShard {
    let key = shard_key(target, source);
    let interface = digest_bytes(source.as_bytes());
    let nodes = vec![GraphSnapshotNode {
        id: node.to_owned(),
        kind: "function".to_owned(),
        name: node.to_owned(),
        qualified_name: None,
        file: source.to_owned(),
        external: false,
        exported: false,
        signature: None,
        evidence: None,
    }];
    let digest = shard_digest(
        &key,
        source,
        checker,
        &interface,
        &nodes,
        &vec![],
        &vec![],
        &vec![],
        &vec![],
    );
    GraphSnapshotShard {
        key,
        source: source.to_owned(),
        checker_digest: checker.to_owned(),
        interface_fingerprint: interface,
        digest,
        nodes,
        edges: Vec::new(),
        diagnostics: Vec::new(),
        coverage: Vec::new(),
        unresolved: Vec::new(),
    }
}

fn commit(revision: u64, full_rebuild: bool, dirty: &[&str], shards: Vec<GraphSnapshotShard>) -> Commit {
    Commit {
        revision,
        producer: producer("1", &None),
        universe: GraphSnapshotUniverse {
            target: "rust:u".to_owned(),
            digest: "u".to_owned(),
            ..GraphSnapshotUniverse::default()
        },
        phases: no_phases(),
        full_rebuild,
        dirty_sources: names(dirty),
        built: BuiltShards { shards, node_owners: Table::new() },
        interface_fingerprints: Table::new(),
        source_inputs: Table::new(),
    }
}

/// What a client that holds digests by key holds once it followed an answer.
fn follow(held: &[(String, String)], result: &GraphSnapshotResult) -> Vec<(String, String)> {
    let mut now: Vec<(String, String)> = match &result.base_generation {
        Some(_) => {
            held.iter().filter(|(key, _)| !result.deletes.contains(key)).cloned().collect()
        }
        None => Vec::new(),
    };
    for shard in &result.upserts {
        now.retain(|(key, _)| *key != shard.key);
        now.push((shard.key.clone(), shard.digest.clone()));
    }
    now.sort();
    now
}

fn listed(manifest: &[GraphSnapshotManifestEntry]) -> Vec<(String, String)> {
    manifest.iter().map(|entry| (entry.key.clone(), entry.digest.clone())).collect()
}

#[test]
fn cached_snapshot_selects_noop_delta_full_and_incremental_responses() {
    let shard = GraphSnapshotShard {
        key: "target\0src/lib.rs".to_owned(),
        source: "src/lib.rs".to_owned(),
        checker_digest: "checker".to_owned(),
        interface_fingerprint: "interface".to_owned(),
        digest: "digest".to_owned(),
        nodes: Vec::new(),
        edges: Vec::new(),
        diagnostics: Vec::new(),
        coverage: vec![GraphSnapshotCoverage {
            family: "calls".to_owned(),
            state: "complete".to_owned(),
        }],
        unresolved: Vec::new(),
    };
    let cached = CachedSnapshot {
        revision: 3,
        producer: GraphSnapshotProducer::default(),
        universe: GraphSnapshotUniverse::default(),
        sequence: 4,
        generation: "new".to_owned(),
        manifest: vec![GraphSnapshotManifestEntry {
            key: shard.key.clone(),
            digest: shard.digest.clone(),
        }],
        phases: GraphSnapshotPhases {
            semantic_millis: 11,
            shard_millis: 12,
            encode_millis: 13,
            total_millis: 36,
            cache_hit: false,
        },
        shards: table(vec![(shard.key.clone(), Arc::new(shard.clone()))]),
        interface_fingerprints: Table::new(),
        source_inputs: Table::new(),
        node_owners: Table::new(),
        delta_base: Some("old".to_owned()),
        delta_upserts: vec![Arc::new(shard)],
        delta_deletes: vec!["deleted".to_owned()],
    };
    let shard_arc = cached.shards.value_at(0);
    let strong_count = Arc::strong_count(shard_arc);

    let noop = response_for(&cached, &Some("new".to_owned()), true);
    assert!(noop.upserts.is_empty());
    assert!(noop.deletes.is_empty());
    assert_eq!(noop.base_generation.as_deref(), Some("new"));
    assert!(noop.phases.cache_hit);
    assert_eq!(Arc::strong_count(shard_arc), strong_count);

    let delta = response_for(&cached, &Some("old".to_owned()), false);
    assert_eq!(delta.upserts.len(), 1);
    assert_eq!(delta.deletes, ["deleted"]);
    assert_eq!(delta.base_generation.as_deref(), Some("old"));
    assert_eq!(delta.phases.total_millis, 36);
    assert!(!delta.phases.cache_hit);

    let full = response_for(&cached, &Some("unrelated".to_owned()), false);
    assert_eq!(full.upserts.len(), 1);
    assert!(full.deletes.is_empty());
    assert_eq!(full.base_generation, None);
}

#[test]
fn invalidation_distinguishes_file_edits_from_universe_changes() {
    let mut cache = GraphSnapshotCache {
        full_rebuild: false,
        committed: Some(empty_snapshot()),
        ..GraphSnapshotCache::default()
    };
    let file = FileId::from_raw(7);

    cache.invalidate_files(&[file]);
    assert!(!cache.full_rebuild);
    assert!(cache.dirty_files.contains(&file.index()));
    assert!(cache.current().is_none());

    drain_source_input_events_at(&mut cache, 1);
    assert!(!cache.full_rebuild, "a VFS-invalidated edit retains its dirty-file delta");

    cache.invalidate_all();
    assert!(cache.full_rebuild);
    assert!(cache.dirty_files.is_empty());
}

#[test]
fn interface_changes_are_limited_to_dirty_sources() {
    let cached = texts(&[("src/a.rs", "same"), ("src/b.rs", "old")]);
    let current = texts(&[("src/a.rs", "same"), ("src/b.rs", "new")]);

    assert!(!interfaces_changed(&cached, &current, &names(&["src/a.rs"])));
    assert!(interfaces_changed(&cached, &current, &names(&["src/b.rs"])));
    assert!(interfaces_changed(&cached, &current, &names(&["path-dependency/src/lib.rs"])));
}

#[test]
fn checkpoint_install_refuses_a_revision_invalidated_after_snapshot_capture() {
    let mut cache = GraphSnapshotCache::default();
    let captured = cache.revision();
    cache.revision = cache.revision.wrapping_add(1);
    cache.dirty_files.insert(FileId::from_raw(7).index());
    cache.full_rebuild = false;
    let dirty = cache.dirty_files.clone();
    let full_rebuild = cache.full_rebuild;

    let error = ensure_cache_revision(&cache, captured, "checkpoint raced an edit").unwrap_err();
    assert!(error.message().contains("checkpoint raced an edit"));
    assert_eq!(cache.dirty_files, dirty);
    assert_eq!(cache.full_rebuild, full_rebuild);
}

#[test]
fn external_input_events_invalidate_resident_snapshots_once_drained() {
    let mut cache = GraphSnapshotCache {
        full_rebuild: false,
        external_inputs_dirty: false,
        external_input_watcher_stale: false,
        ..GraphSnapshotCache::default()
    };
    let revision = cache.revision();

    drain_external_input_events_at(&mut cache, 1);

    assert_eq!(cache.revision(), revision.wrapping_add(1));
    assert_eq!(cache.external_input_revision, 1);
    assert!(cache.external_inputs_dirty);
    assert!(cache.external_input_watcher_stale);
    assert!(cache.full_rebuild);

    drain_external_input_events_at(&mut cache, 1);
    assert_eq!(cache.revision(), revision.wrapping_add(1));
    assert_eq!(cache.external_input_revision, 1);
}

#[test]
fn a_universe_change_drops_the_committed_snapshot() {
    let mut cache = GraphSnapshotCache {
        full_rebuild: false,
        committed: Some(empty_snapshot()),
        ..GraphSnapshotCache::default()
    };
    assert!(cache.current().is_some());
    cache.invalidate_universe();
    assert!(cache.committed.is_none());
    assert!(cache.full_rebuild);
    cache.invalidate_files(&[FileId::from_raw(1)]);
    assert!(cache.dirty_files.is_empty());
    assert_eq!(cache.revision(), 2);
}

#[test]
fn revisions_wrap_around() {
    let mut cache = GraphSnapshotCache { revision: u64::MAX, ..GraphSnapshotCache::default() };
    cache.invalidate_all();
    assert_eq!(cache.revision(), 0);
}

#[test]
fn source_events_invalidate_a_current_snapshot_once() {
    let mut cache = GraphSnapshotCache {
        full_rebuild: false,
        committed: Some(empty_snapshot()),
        ..GraphSnapshotCache::default()
    };
    drain_source_input_events_at(&mut cache, 5);
    assert!(cache.full_rebuild);
    assert_eq!(cache.revision(), 1);
    drain_source_input_events_at(&mut cache, 5);
    assert_eq!(cache.revision(), 1);
}

#[test]
fn committed_snapshots_answer_with_deltas() {
    let mut cache = GraphSnapshotCache::default();
    let a = sealed_shard("rust:u", "a.rs", "1", "a");
    let b = sealed_shard("rust:u", "b.rs", "1", "b");
    let first = commit_snapshot(
        &mut cache,
        0,
        0,
        0,
        commit(0, true, &[], vec![b.clone(), a.clone()]),
        &None,
    )
    .unwrap();
    assert_eq!(first.sequence, 1);
    assert_eq!(first.base_generation, None);
    assert_eq!(first.upserts.len(), 2);
    assert_eq!(
        listed(&first.manifest),
        vec![(a.key.clone(), a.digest.clone()), (b.key.clone(), b.digest.clone())]
    );
    assert_eq!(first.generation, snapshot_generation("u", &first.manifest));
    assert_eq!(follow(&[], &first), listed(&first.manifest));
    assert!(cache.current().is_some());

    cache.invalidate_files(&[FileId::from_raw(2)]);
    let revision = cache.revision();
    let changed = sealed_shard("rust:u", "a.rs", "2", "a2");
    let second = commit_snapshot(
        &mut cache,
        0,
        0,
        0,
        commit(revision, false, &["a.rs", "b.rs"], vec![changed.clone()]),
        &Some(first.generation.clone()),
    )
    .unwrap();
    assert_eq!(second.sequence, 2);
    assert_eq!(second.base_generation, Some(first.generation.clone()));
    assert_eq!(second.upserts, vec![changed.clone()]);
    assert_eq!(second.deletes, vec![b.key.clone()]);
    assert_eq!(follow(&listed(&first.manifest), &second), listed(&second.manifest));
    assert!(cache.dirty_files.is_empty());

    let cached = cache.current().unwrap();
    let full = response_plan(cached, &Some("elsewhere".to_owned()), true).into_result();
    assert_eq!(follow(&listed(&first.manifest), &full), listed(&second.manifest));
    assert_eq!(full.phases, hit_phases());
    let unknown = response_for(cached, &None, false);
    assert_eq!(follow(&[], &unknown), listed(&second.manifest));
}

#[test]
fn incremental_commits_keep_clean_shards() {
    let mut cache = GraphSnapshotCache::default();
    let a = sealed_shard("rust:u", "a.rs", "1", "a");
    let b = sealed_shard("rust:u", "b.rs", "1", "b");
    commit_snapshot(&mut cache, 0, 0, 0, commit(0, true, &[], vec![a.clone(), b.clone()]), &None)
        .unwrap();
    cache.invalidate_files(&[FileId::from_raw(2)]);
    let revision = cache.revision();
    let changed = sealed_shard("rust:u", "a.rs", "2", "a");
    commit_snapshot(
        &mut cache,
        0,
        0,
        0,
        commit(revision, false, &["a.rs"], vec![changed.clone()]),
        &None,
    )
    .unwrap();
    let cached = cache.current().unwrap();
    assert_eq!(**cached.shards.get(&b.key).unwrap(), b);
    assert_eq!(**cached.shards.get(&a.key).unwrap(), changed);
}

#[test]
fn stale_commits_are_refused() {
    let mut cache = GraphSnapshotCache::default();
    let refused = commit_snapshot(&mut cache, 0, 0, 0, commit(9, true, &[], vec![]), &None);
    assert_eq!(
        refused.unwrap_err(),
        GraphError::Retry(
            "graph snapshot was invalidated while it was being built; retry the request".to_owned()
        )
    );
    assert!(cache.committed.is_none());
    assert_eq!(cache.sequence, 0);

    let raced = commit_snapshot(&mut cache, 0, 2, 1, commit(0, true, &[], vec![]), &None);
    assert_eq!(
        raced.unwrap_err(),
        GraphError::Retry(
            "graph snapshot source inputs moved while it was being built; retry the request"
                .to_owned()
        )
    );
    assert_eq!(cache.revision(), 1);
    assert!(cache.committed.is_none());
}

#[test]
fn a_commit_that_lost_the_race_answers_from_the_current_snapshot() {
    let mut cache = GraphSnapshotCache::default();
    let a = sealed_shard("rust:u", "a.rs", "1", "a");
    commit_snapshot(&mut cache, 0, 0, 0, commit(0, true, &[], vec![a]), &None).unwrap();
    let again = commit_snapshot(&mut cache, 0, 0, 0, commit(0, true, &[], vec![]), &None).unwrap();
    assert_eq!(again.sequence, 1);
    assert_eq!(again.manifest.len(), 1);
    assert!(again.phases.cache_hit);
}

#[test]
fn commits_are_no_hits() {
    let mut cache = GraphSnapshotCache::default();
    let a = sealed_shard("rust:u", "a.rs", "1", "a");
    let phases = GraphSnapshotPhases { shard_millis: 7, cache_hit: true, ..no_phases() };
    let built = Commit { phases, ..commit(0, true, &[], vec![a]) };
    let result = commit_snapshot(&mut cache, 0, 0, 0, built, &None).unwrap();
    let expected = GraphSnapshotPhases { shard_millis: 7, ..no_phases() };
    assert_eq!(result.phases, expected);
    assert_eq!(cache.current().unwrap().phases, expected);
}

fn source_file(name: &str) -> SourceFile {
    SourceFile {
        location: FileLocation {
            name: name.to_owned(),
            disk: Some(DiskPath {
                path: format!("/workspace/{name}"),
                relative: Some(name.to_owned()),
            }),
        },
        text: None,
        positions: None,
        analysis: None,
    }
}

/// A valid checkpoint with one source file, and what it is validated against.
fn valid_checkpoint() -> (
    SourceFiles,
    GraphSnapshotProducer,
    GraphSnapshotUniverse,
    GraphSnapshotCheckpoint,
    Table<FileId, String>,
) {
    let files = table(vec![(FileId(1), source_file("a.rs"))]);
    let made_by = producer("1", &None);
    let universe = GraphSnapshotUniverse {
        target: "rust:u".to_owned(),
        digest: "u".to_owned(),
        ..GraphSnapshotUniverse::default()
    };
    let checker = digest_bytes(b"a");
    let shard = sealed_shard("rust:u", "a.rs", &checker, "a");
    let manifest = vec![GraphSnapshotManifestEntry {
        key: shard.key.clone(),
        digest: shard.digest.clone(),
    }];
    let checkpoint = GraphSnapshotCheckpoint {
        protocol_version: PROTOCOL_VERSION,
        schema_version: SCHEMA_VERSION,
        producer: made_by.clone(),
        universe: "u".to_owned(),
        generation: snapshot_generation("u", &manifest),
        sources: vec![GraphSnapshotSource {
            source: "a.rs".to_owned(),
            checker_digest: checker.clone(),
        }],
        manifest,
        shards: vec![shard],
    };
    let inputs = table(vec![(FileId(1), checker)]);
    (files, made_by, universe, checkpoint, inputs)
}

#[test]
fn valid_checkpoints_are_installed() {
    let (files, made_by, universe, checkpoint, inputs) = valid_checkpoint();
    let known = Some(checkpoint.generation.clone());
    let parts =
        validate_checkpoint(&files, &made_by, &universe, &checkpoint, &known, &inputs).unwrap();
    assert_eq!(parts.manifest, checkpoint.manifest);
    assert_eq!(parts.node_owners.get(&"a".to_owned()), Some(&"a.rs".to_owned()));
    let mut cache = GraphSnapshotCache::default();
    let result = install_checkpoint(
        &mut cache,
        0,
        0,
        0,
        0,
        made_by,
        universe,
        checkpoint.generation.clone(),
        parts,
        inputs,
        &known,
    )
    .unwrap();
    assert!(result.upserts.is_empty());
    assert_eq!(result.base_generation, known);
    assert!(result.phases.cache_hit);
    assert_eq!(listed(&result.manifest), listed(&checkpoint.manifest));
    assert!(cache.current().is_some());
    assert!(!cache.full_rebuild);
}

#[test]
fn checkpoints_are_the_same_in_every_order() {
    let (_, made_by, universe, mut checkpoint, _) = valid_checkpoint();
    let files = table(vec![(FileId(1), source_file("a.rs")), (FileId(2), source_file("b.rs"))]);
    let checker = digest_bytes(b"b");
    let inputs = table(vec![(FileId(1), digest_bytes(b"a")), (FileId(2), checker.clone())]);
    let shard = sealed_shard("rust:u", "b.rs", &checker, "b");
    checkpoint.manifest.push(GraphSnapshotManifestEntry {
        key: shard.key.clone(),
        digest: shard.digest.clone(),
    });
    checkpoint.generation = snapshot_generation("u", &checkpoint.manifest);
    checkpoint
        .sources
        .push(GraphSnapshotSource { source: "b.rs".to_owned(), checker_digest: checker });
    checkpoint.shards.push(shard);
    let known = Some(checkpoint.generation.clone());
    let parts =
        validate_checkpoint(&files, &made_by, &universe, &checkpoint, &known, &inputs).unwrap();
    let mut moved = checkpoint.clone();
    moved.sources.reverse();
    moved.manifest.reverse();
    moved.shards.reverse();
    let others = validate_checkpoint(&files, &made_by, &universe, &moved, &known, &inputs).unwrap();
    assert!(parts.same(&others));
    assert_eq!(others.manifest, checkpoint.manifest);
    assert_eq!(others.shards.len(), 2);

    // Two entries under one key are refused in either order.
    let repeated = moved.manifest[0].clone();
    moved.manifest.push(GraphSnapshotManifestEntry { digest: digest_bytes(b"c"), ..repeated });
    for _ in 0..2 {
        moved.manifest.reverse();
        assert!(
            validate_checkpoint(&files, &made_by, &universe, &moved, &known, &inputs).is_err()
        );
    }
}

#[test]
fn checkpoints_of_another_producer_universe_or_generation_are_refused() {
    let (files, made_by, universe, checkpoint, inputs) = valid_checkpoint();
    let known = Some(checkpoint.generation.clone());
    let expected = GraphError::Retry(
        "persisted graph checkpoint does not match this producer universe; rebuild and retry"
            .to_owned(),
    );
    let refusal = |checkpoint: &GraphSnapshotCheckpoint, known: &Option<String>| {
        validate_checkpoint(&files, &made_by, &universe, checkpoint, known, &inputs).unwrap_err()
    };
    assert_eq!(refusal(&checkpoint, &None), expected);
    let mut other = checkpoint.clone();
    other.universe = "v".to_owned();
    assert_eq!(refusal(&other, &known), expected);
    let mut other = checkpoint.clone();
    other.producer.version = "2".to_owned();
    assert_eq!(refusal(&other, &known), expected);
    let mut other = checkpoint.clone();
    other.schema_version += 1;
    assert_eq!(refusal(&other, &known), expected);
}

#[test]
fn checkpoints_with_moved_sources_or_broken_shards_are_refused() {
    let (files, made_by, universe, checkpoint, inputs) = valid_checkpoint();
    let known = Some(checkpoint.generation.clone());
    let refusal = |checkpoint: &GraphSnapshotCheckpoint, inputs: &Table<FileId, String>| {
        validate_checkpoint(&files, &made_by, &universe, checkpoint, &known, inputs)
            .unwrap_err()
            .message()
    };
    let moved = table(vec![(FileId(1), digest_bytes(b"b"))]);
    assert!(refusal(&checkpoint, &moved).contains("source manifest moved"));
    let mut broken = checkpoint.clone();
    broken.shards[0].nodes[0].name = "other".to_owned();
    assert!(refusal(&broken, &inputs).contains("shards are invalid"));
    let mut doubled = checkpoint.clone();
    doubled.shards.push(checkpoint.shards[0].clone());
    assert!(refusal(&doubled, &inputs).contains("shards are invalid"));
    let mut listed_twice = checkpoint.clone();
    listed_twice.manifest.push(checkpoint.manifest[0].clone());
    assert!(refusal(&listed_twice, &inputs).contains("manifest is invalid"));
}

#[test]
fn stale_checkpoints_commit_nothing() {
    let (files, made_by, universe, checkpoint, inputs) = valid_checkpoint();
    let known = Some(checkpoint.generation.clone());
    for (source_epoch, revision, reason) in
        [(1, 0, "source inputs moved"), (0, 1, "invalidated while validating")]
    {
        let parts =
            validate_checkpoint(&files, &made_by, &universe, &checkpoint, &known, &inputs).unwrap();
        let mut cache = GraphSnapshotCache::default();
        let error = install_checkpoint(
            &mut cache,
            0,
            source_epoch,
            0,
            revision,
            made_by.clone(),
            universe.clone(),
            checkpoint.generation.clone(),
            parts,
            inputs.duplicate(),
            &known,
        )
        .unwrap_err();
        assert!(error.message().contains(reason));
        assert!(cache.committed.is_none());
        assert_eq!(cache.sequence, 0);
    }
}

#[test]
fn producers_name_their_version_and_commit() {
    let known = producer("0.1.0", &Some("abc".to_owned()));
    assert_eq!(
        (known.name.as_str(), known.version.as_str(), known.commit.as_str()),
        ("samchon-rust-analyzer", "0.1.0", "abc")
    );
    assert_eq!(producer("0.1.0", &None).commit, "development");
}

#[test]
fn tables_keep_keys_in_order() {
    let mut letters = texts(&[("b", "2"), ("a", "1"), ("c", "3")]);
    assert_eq!(letters.len(), 3);
    assert_eq!(letters.key_at(0), "a");
    assert_eq!(letters.value_at(2), "3");
    assert_eq!(letters.insert("b".to_owned(), "4".to_owned()), Some("2".to_owned()));
    assert_eq!(letters.insert("d".to_owned(), "5".to_owned()), None);
    assert_eq!(letters.remove(&"a".to_owned()), Some("1".to_owned()));
    assert_eq!(letters.remove(&"a".to_owned()), None);
    assert!(!letters.contains(&"a".to_owned()));
    assert_eq!(letters.get(&"b".to_owned()), Some(&"4".to_owned()));
    let entries: Vec<String> = letters.into_entries().into_iter().map(|entry| entry.0).collect();
    assert_eq!(entries, ["b", "c", "d"]);
}
