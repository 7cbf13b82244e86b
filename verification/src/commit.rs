//! Committing a snapshot: merging new shards with retained ones, and what changed since the last.

use std::sync::Arc;

use vstd::prelude::*;

use crate::cache::{
    CachedSnapshot, CachedSnapshotModel, GraphSnapshotCache, GraphSnapshotCacheModel,
    all_invalidated, answer, current_of, drain_external_input_events_at, ensure_cache_revision,
    external_events_drained, next_number, planned, response_plan, wrapping_next,
};
use crate::checkpoint::{index_manifest, manifest_map};
use crate::error::{GraphError, GraphErrorModel, outcome, retry_error};
use crate::files::{FileId, SourceFileModel, SourceFiles, source_of, source_path};
use crate::fx::set_clear;
use crate::json::json_digest;
use crate::plain::Plain;
use crate::shards::{BuiltShards, BuiltShardsModel, generation_json, snapshot_generation};
use crate::snapshot::{
    GraphSnapshotManifestEntry, GraphSnapshotManifestEntryModel, GraphSnapshotPhases,
    GraphSnapshotPhasesModel, GraphSnapshotProducer, GraphSnapshotProducerModel,
    GraphSnapshotResult, GraphSnapshotResultModel, GraphSnapshotShard, GraphSnapshotShardModel,
    GraphSnapshotUniverse, GraphSnapshotUniverseModel,
};
use crate::table::{Table, lists, ordered, ordered_values};

verus! {

/// The paths of files.
pub open spec fn paths_of(files: Map<FileId, SourceFileModel>, ids: Seq<FileId>) -> Set<Seq<char>> {
    Set::new(
        |source: Seq<char>|
            exists|i: int| 0 <= i < ids.len() && source_of(files, #[trigger] ids[i]) == source,
    )
}

/// The paths of files.
pub fn collect_paths(files: &SourceFiles, ids: &Vec<FileId>) -> (paths: Table<String, ()>)
    ensures
        paths.deep_view().dom() == paths_of(files.deep_view(), ids@),
{
    let ghost f = files.deep_view();
    let mut paths: Table<String, ()> = Table::new();
    let mut index: usize = 0;
    assert(paths.deep_view().dom() =~= paths_of(f, ids@.take(0)));
    while index < ids.len()
        invariant
            index <= ids.len(),
            f == files.deep_view(),
            paths.deep_view().dom() == paths_of(f, ids@.take(index as int)),
        decreases ids.len() - index,
    {
        let ghost before = ids@.take(index as int);
        let ghost after = ids@.take(index + 1);
        let ghost known = paths.deep_view().dom();
        let source = source_path(files, ids[index]);
        let ghost added = source@;
        paths.insert(source, ());
        proof {
            assert(after[index as int] == ids@[index as int]);
            assert forall|i: int| 0 <= i < index implies #[trigger] after[i] == before[i] by {}
            assert forall|source: Seq<char>| #[trigger]
                paths_of(f, after).contains(source) <==> paths_of(f, before).contains(source)
                    || source == added by {
                if paths_of(f, before).contains(source) {
                    let i = choose|i: int|
                        0 <= i < before.len() && source_of(f, #[trigger] before[i]) == source;
                    assert(source_of(f, after[i]) == source);
                }
                if source == added {
                    assert(source_of(f, after[index as int]) == source);
                }
                if paths_of(f, after).contains(source) {
                    let i = choose|i: int|
                        0 <= i < after.len() && source_of(f, #[trigger] after[i]) == source;
                    if i < index {
                        assert(source_of(f, before[i]) == source);
                    }
                }
            }
            assert(paths.deep_view().dom() =~= paths_of(f, after));
        }
        index += 1;
    }
    assert(ids@.take(index as int) =~= ids@);
    paths
}

/// The shards of source files that are not among the given ones.
pub open spec fn retained(
    shards: Map<Seq<char>, GraphSnapshotShardModel>,
    dirty: Set<Seq<char>>,
) -> Map<Seq<char>, GraphSnapshotShardModel> {
    Map::new(
        |key: Seq<char>| shards.contains_key(key) && !dirty.contains(shards[key].source),
        |key: Seq<char>| shards[key],
    )
}

/// Retained shards with the first new ones.
pub open spec fn merged(
    shards: Map<Seq<char>, GraphSnapshotShardModel>,
    built: Seq<GraphSnapshotShardModel>,
    count: int,
) -> Map<Seq<char>, GraphSnapshotShardModel>
    decreases count,
{
    if count <= 0 {
        shards
    } else {
        merged(shards, built, count - 1).insert(built[count - 1].key, built[count - 1])
    }
}

/// The manifest of shards.
pub open spec fn manifest_of(shards: Seq<GraphSnapshotShardModel>) -> Seq<
    GraphSnapshotManifestEntryModel,
> {
    Seq::new(
        shards.len(),
        |i: int|
            GraphSnapshotManifestEntryModel { key: shards[i].key, digest: shards[i].digest },
    )
}

/// The first shards that are new or have another digest than before.
pub open spec fn changed_shards(
    before: Map<Seq<char>, Seq<char>>,
    shards: Seq<GraphSnapshotShardModel>,
    count: int,
) -> Seq<GraphSnapshotShardModel>
    decreases count,
{
    if count <= 0 {
        Seq::empty()
    } else {
        let changed = changed_shards(before, shards, count - 1);
        let shard = shards[count - 1];
        if before.contains_key(shard.key) && before[shard.key] == shard.digest {
            changed
        } else {
            changed.push(shard)
        }
    }
}

/// The first keys that are gone.
pub open spec fn gone_keys(
    before: Seq<(Seq<char>, Seq<char>)>,
    now: Map<Seq<char>, Seq<char>>,
    count: int,
) -> Seq<Seq<char>>
    decreases count,
{
    if count <= 0 {
        Seq::empty()
    } else {
        let gone = gone_keys(before, now, count - 1);
        if now.contains_key(before[count - 1].0) {
            gone
        } else {
            gone.push(before[count - 1].0)
        }
    }
}

fn retain_shards(shards: &Table<String, Arc<GraphSnapshotShard>>, dirty: &Table<String, ()>) -> (kept: Table<
    String,
    Arc<GraphSnapshotShard>,
>)
    ensures
        kept.deep_view() == retained(shards.deep_view(), dirty.deep_view().dom()),
{
    let ghost all = shards.deep_view();
    let ghost d = dirty.deep_view().dom();
    let ghost listing = ordered::<String, GraphSnapshotShardModel>(all);
    let count = shards.len();
    let mut kept: Table<String, Arc<GraphSnapshotShard>> = Table::new();
    let mut index: usize = 0;
    while index < count
        invariant
            index <= count,
            count == listing.len(),
            all == shards.deep_view(),
            d == dirty.deep_view().dom(),
            listing == ordered::<String, GraphSnapshotShardModel>(all),
            lists::<String, GraphSnapshotShardModel>(listing, all),
            forall|key: Seq<char>| #[trigger]
                kept.deep_view().contains_key(key) <==> is_kept(listing, d, index as int, key),
            forall|key: Seq<char>| #[trigger]
                kept.deep_view().contains_key(key) ==> kept.deep_view()[key] == all[key],
        decreases count - index,
    {
        let ghost before = kept.deep_view();
        let shard = shards.value_at(index);
        assert(all.contains_key(listing[index as int].0));
        if !dirty.contains(&shard.source) {
            kept.insert(shards.key_at(index).clone(), shard.duplicate());
        }
        proof {
            assert forall|key: Seq<char>| #[trigger]
                kept.deep_view().contains_key(key) <==> is_kept(listing, d, index + 1, key) by {
                assert(before.contains_key(key) <==> is_kept(listing, d, index as int, key));
                if is_kept(listing, d, index + 1, key) && !is_kept(listing, d, index as int, key) {
                    assert(listing[index as int].0 == key);
                }
                if key == listing[index as int].0 && !d.contains(listing[index as int].1.source) {
                    assert(is_kept(listing, d, index + 1, key));
                }
            }
        }
        index += 1;
    }
    proof {
        assert forall|key: Seq<char>| #[trigger]
            kept.deep_view().contains_key(key) <==> retained(all, d).contains_key(key) by {
            if kept.deep_view().contains_key(key) {
                let i = choose|i: int|
                    0 <= i < listing.len() && (#[trigger] listing[i]).0 == key && !d.contains(
                        listing[i].1.source,
                    );
                assert(all.contains_key(listing[i].0));
            }
            if retained(all, d).contains_key(key) {
                assert(all.contains_key(key));
                let i = choose|i: int| 0 <= i < listing.len() && (#[trigger] listing[i]).0 == key;
                assert(all[listing[i].0] == listing[i].1);
                assert(is_kept(listing, d, listing.len() as int, key));
            }
        }
        assert(kept.deep_view() =~= retained(all, d));
    }
    kept
}

spec fn is_kept(
    listing: Seq<(Seq<char>, GraphSnapshotShardModel)>,
    dirty: Set<Seq<char>>,
    count: int,
    key: Seq<char>,
) -> bool {
    exists|i: int|
        0 <= i < count && (#[trigger] listing[i]).0 == key && !dirty.contains(listing[i].1.source)
}

fn merge_shards(shards: &mut Table<String, Arc<GraphSnapshotShard>>, built: Vec<GraphSnapshotShard>)
    ensures
        final(shards).deep_view() == merged(
            old(shards).deep_view(),
            built.deep_view(),
            built.deep_view().len() as int,
        ),
{
    let ghost start = shards.deep_view();
    let ghost all = built.deep_view();
    let mut index: usize = 0;
    while index < built.len()
        invariant
            index <= built.len(),
            all == built.deep_view(),
            shards.deep_view() == merged(start, all, index as int),
        decreases built.len() - index,
    {
        assert(all[index as int] == built@[index as int].deep_view());
        shards.insert(built[index].key.clone(), Arc::new(built[index].duplicate()));
        index += 1;
    }
}

fn describe_shards(shards: &Table<String, Arc<GraphSnapshotShard>>) -> (manifest: Vec<
    GraphSnapshotManifestEntry,
>)
    ensures
        manifest.deep_view() == manifest_of(
            ordered_values::<String, GraphSnapshotShardModel>(shards.deep_view()),
        ),
{
    let ghost listing = ordered::<String, GraphSnapshotShardModel>(shards.deep_view());
    let ghost expected = manifest_of(
        ordered_values::<String, GraphSnapshotShardModel>(shards.deep_view()),
    );
    let count = shards.len();
    let mut manifest: Vec<GraphSnapshotManifestEntry> = Vec::new();
    let mut index: usize = 0;
    assert(manifest.deep_view() =~= expected.take(0));
    while index < count
        invariant
            index <= count,
            count == listing.len(),
            listing == ordered::<String, GraphSnapshotShardModel>(shards.deep_view()),
            expected == manifest_of(
                ordered_values::<String, GraphSnapshotShardModel>(shards.deep_view()),
            ),
            expected.len() == listing.len(),
            manifest.deep_view() == expected.take(index as int),
        decreases count - index,
    {
        let shard = shards.value_at(index);
        let ghost before = manifest.deep_view();
        let entry = GraphSnapshotManifestEntry {
            key: shard.key.clone(),
            digest: shard.digest.clone(),
        };
        let ghost added = entry.deep_view();
        manifest.push(entry);
        proof {
            assert(added == expected[index as int]);
            assert(manifest.deep_view() =~= before.push(added));
            assert(manifest.deep_view() =~= expected.take(index + 1));
        }
        index += 1;
    }
    assert(expected.take(index as int) =~= expected);
    manifest
}

fn collect_changed(
    before: &Table<String, String>,
    shards: &Table<String, Arc<GraphSnapshotShard>>,
) -> (changed: Vec<Arc<GraphSnapshotShard>>)
    ensures
        ({
            let all = ordered_values::<String, GraphSnapshotShardModel>(shards.deep_view());
            changed.deep_view() == changed_shards(before.deep_view(), all, all.len() as int)
        }),
{
    let ghost b = before.deep_view();
    let ghost listing = ordered::<String, GraphSnapshotShardModel>(shards.deep_view());
    let ghost all = ordered_values::<String, GraphSnapshotShardModel>(shards.deep_view());
    let count = shards.len();
    let mut changed: Vec<Arc<GraphSnapshotShard>> = Vec::new();
    let mut index: usize = 0;
    assert(changed.deep_view() =~= Seq::<GraphSnapshotShardModel>::empty());
    while index < count
        invariant
            index <= count,
            count == listing.len(),
            b == before.deep_view(),
            listing == ordered::<String, GraphSnapshotShardModel>(shards.deep_view()),
            all == ordered_values::<String, GraphSnapshotShardModel>(shards.deep_view()),
            changed.deep_view() == changed_shards(b, all, index as int),
        decreases count - index,
    {
        let shard = shards.value_at(index);
        assert(all[index as int] == shard.deep_view());
        let known = match before.get(&shard.key) {
            Some(digest) => digest.same(&shard.digest),
            None => false,
        };
        if !known {
            let ghost prior = changed.deep_view();
            changed.push(shard.duplicate());
            assert(changed.deep_view() =~= prior.push(shard.deep_view()));
        }
        index += 1;
    }
    changed
}

fn collect_gone(before: &Table<String, String>, now: &Table<String, String>) -> (gone: Vec<String>)
    ensures
        ({
            let listing = ordered::<String, Seq<char>>(before.deep_view());
            gone.deep_view() == gone_keys(listing, now.deep_view(), listing.len() as int)
        }),
{
    let ghost n = now.deep_view();
    let ghost listing = ordered::<String, Seq<char>>(before.deep_view());
    let count = before.len();
    let mut gone: Vec<String> = Vec::new();
    let mut index: usize = 0;
    assert(gone.deep_view() =~= Seq::<Seq<char>>::empty());
    while index < count
        invariant
            index <= count,
            count == listing.len(),
            n == now.deep_view(),
            listing == ordered::<String, Seq<char>>(before.deep_view()),
            gone.deep_view() == gone_keys(listing, n, index as int),
        decreases count - index,
    {
        let key = before.key_at(index);
        if !now.contains(key) {
            let ghost prior = gone.deep_view();
            gone.push(key.clone());
            assert(gone.deep_view() =~= prior.push(key@));
        }
        index += 1;
    }
    gone
}

/// What is committed: the new shards, the fingerprints and inputs that go with them, and how the
/// snapshot was built.
pub struct CommitModel {
    pub revision: u64,
    pub producer: GraphSnapshotProducerModel,
    pub universe: GraphSnapshotUniverseModel,
    pub phases: GraphSnapshotPhasesModel,
    pub full_rebuild: bool,
    pub dirty_sources: Set<Seq<char>>,
    pub built: BuiltShardsModel,
    pub interface_fingerprints: Map<Seq<char>, Seq<char>>,
    pub source_inputs: Map<FileId, Seq<char>>,
}

/// What is committed.
#[derive(Debug)]
pub struct Commit {
    /// The revision of the workspace that the snapshot shows.
    pub revision: u64,
    pub producer: GraphSnapshotProducer,
    pub universe: GraphSnapshotUniverse,
    pub phases: GraphSnapshotPhases,
    /// Whether the snapshot was built from all source files.
    pub full_rebuild: bool,
    /// The paths of the source files that changed.
    pub dirty_sources: Table<String, ()>,
    pub built: BuiltShards,
    pub interface_fingerprints: Table<String, String>,
    pub source_inputs: Table<FileId, String>,
}

impl DeepView for Commit {
    type V = CommitModel;

    open spec fn deep_view(&self) -> CommitModel {
        CommitModel {
            revision: self.revision,
            producer: self.producer.deep_view(),
            universe: self.universe.deep_view(),
            phases: self.phases.deep_view(),
            full_rebuild: self.full_rebuild,
            dirty_sources: self.dirty_sources.deep_view().dom(),
            built: self.built.deep_view(),
            interface_fingerprints: self.interface_fingerprints.deep_view(),
            source_inputs: self.source_inputs.deep_view(),
        }
    }
}

/// All shards of a snapshot: the new ones, and, unless it was built from all source files, those
/// of the source files that did not change.
pub open spec fn all_shards(committed: Option<CachedSnapshotModel>, commit: CommitModel) -> Map<
    Seq<char>,
    GraphSnapshotShardModel,
> {
    merged(
        if commit.full_rebuild || committed is None {
            Map::empty()
        } else {
            retained(committed->0.shards, commit.dirty_sources)
        },
        commit.built.shards,
        commit.built.shards.len() as int,
    )
}

/// The manifest of a committed snapshot, by key.
pub open spec fn committed_manifest(committed: Option<CachedSnapshotModel>) -> Map<
    Seq<char>,
    Seq<char>,
> {
    match committed {
        Some(cached) => manifest_map(cached.manifest, cached.manifest.len() as int),
        None => Map::empty(),
    }
}

/// The snapshot that is committed after another one. It was not at hand, so its phases are those of a
/// build.
pub open spec fn next_snapshot(
    committed: Option<CachedSnapshotModel>,
    sequence: u64,
    commit: CommitModel,
) -> CachedSnapshotModel {
    let shards = all_shards(committed, commit);
    let list = ordered_values::<String, GraphSnapshotShardModel>(shards);
    let manifest = manifest_of(list);
    let before = committed_manifest(committed);
    let listing = ordered::<String, Seq<char>>(before);
    CachedSnapshotModel {
        revision: commit.revision,
        producer: commit.producer,
        universe: commit.universe,
        sequence,
        generation: json_digest(generation_json(commit.universe.digest, manifest)),
        manifest,
        phases: GraphSnapshotPhasesModel { cache_hit: false, ..commit.phases },
        shards,
        interface_fingerprints: commit.interface_fingerprints,
        source_inputs: commit.source_inputs,
        node_owners: commit.built.node_owners,
        delta_base: match committed {
            Some(cached) => Some(cached.generation),
            None => None,
        },
        delta_upserts: changed_shards(before, list, list.len() as int),
        delta_deletes: gone_keys(
            listing,
            manifest_map(manifest, manifest.len() as int),
            listing.len() as int,
        ),
    }
}

/// Makes the snapshot that is committed after another one.
fn make_snapshot(committed: &Option<CachedSnapshot>, sequence: u64, commit: Commit) -> (cached:
    CachedSnapshot)
    ensures
        cached.deep_view() == next_snapshot(committed.deep_view(), sequence, commit.deep_view()),
{
    let Commit {
        revision,
        producer,
        universe,
        phases,
        full_rebuild,
        dirty_sources,
        built,
        interface_fingerprints,
        source_inputs,
    } = commit;
    let BuiltShards { shards: built_shards, node_owners } = built;
    let mut shards: Table<String, Arc<GraphSnapshotShard>> = Table::new();
    let mut before: Table<String, String> = Table::new();
    let mut delta_base: Option<String> = None;
    match committed {
        Some(cached) => {
            if !full_rebuild {
                shards = retain_shards(&cached.shards, &dirty_sources);
            }
            before = index_manifest(&cached.manifest);
            delta_base = Some(cached.generation.clone());
        },
        None => {},
    }
    merge_shards(&mut shards, built_shards);
    let manifest = describe_shards(&shards);
    let now = index_manifest(&manifest);
    let delta_upserts = collect_changed(&before, &shards);
    let delta_deletes = collect_gone(&before, &now);
    let generation = snapshot_generation(universe.digest.as_str(), &manifest);
    CachedSnapshot {
        revision,
        producer,
        universe,
        sequence,
        generation,
        manifest,
        phases: GraphSnapshotPhases { cache_hit: false, ..phases },
        shards,
        interface_fingerprints,
        source_inputs,
        node_owners,
        delta_base,
        delta_upserts,
        delta_deletes,
    }
}

/// What committing a snapshot does to a cache, and what is answered: an error where events on
/// source files came in or the workspace moved since, the current snapshot where there is one, and
/// the new snapshot otherwise.
pub open spec fn snapshot_committed(
    cache: GraphSnapshotCacheModel,
    external_epoch: u64,
    source_epoch: u64,
    expected_source_epoch: u64,
    commit: CommitModel,
    known: Option<Seq<char>>,
) -> (GraphSnapshotCacheModel, Result<GraphSnapshotResultModel, GraphErrorModel>) {
    let drained = external_events_drained(cache, external_epoch);
    if source_epoch != expected_source_epoch {
        (
            all_invalidated(drained),
            Err(
                GraphErrorModel::Retry(
                    "graph snapshot source inputs moved while it was being built; retry the request"@,
                ),
            ),
        )
    } else if drained.revision != commit.revision {
        (
            drained,
            Err(
                GraphErrorModel::Retry(
                    "graph snapshot was invalidated while it was being built; retry the request"@,
                ),
            ),
        )
    } else {
        match current_of(drained) {
            Some(committed) => (
                drained,
                Ok(
                    GraphSnapshotResultModel {
                        phases: GraphSnapshotPhasesModel { cache_hit: true, ..commit.phases },
                        ..answer(planned(committed, known, true))
                    },
                ),
            ),
            None => {
                let cached = next_snapshot(
                    drained.committed,
                    next_number(drained.sequence),
                    commit,
                );
                (
                    GraphSnapshotCacheModel {
                        sequence: next_number(drained.sequence),
                        committed: Some(cached),
                        dirty_files: Set::empty(),
                        full_rebuild: false,
                        ..drained
                    },
                    Ok(answer(planned(cached, known, false))),
                )
            },
        }
    }
}

/// Commits a snapshot to a cache and answers the client.
pub fn commit_snapshot(
    cache: &mut GraphSnapshotCache,
    external_epoch: u64,
    source_epoch: u64,
    expected_source_epoch: u64,
    commit: Commit,
    known_generation: &Option<String>,
) -> (result: Result<GraphSnapshotResult, GraphError>)
    ensures
        (final(cache).deep_view(), outcome(result)) == snapshot_committed(
            old(cache).deep_view(),
            external_epoch,
            source_epoch,
            expected_source_epoch,
            commit.deep_view(),
            known_generation.deep_view(),
        ),
{
    drain_external_input_events_at(cache, external_epoch);
    if source_epoch != expected_source_epoch {
        cache.invalidate_all();
        return Err(
            retry_error(
                "graph snapshot source inputs moved while it was being built; retry the request",
            ),
        );
    }
    match ensure_cache_revision(
        cache,
        commit.revision,
        "graph snapshot was invalidated while it was being built; retry the request",
    ) {
        Ok(_) => {},
        Err(error) => return Err(error),
    }
    match cache.current() {
        Some(committed) => {
            let mut response = response_plan(committed, known_generation, true);
            response.phases = commit.phases;
            response.phases.cache_hit = true;
            return Ok(response.into_result());
        },
        None => {},
    }
    let sequence = wrapping_next(cache.sequence);
    let cached = make_snapshot(&cache.committed, sequence, commit);
    cache.sequence = sequence;
    let result = response_plan(&cached, known_generation, false).into_result();
    cache.committed = Some(cached);
    set_clear(&mut cache.dirty_files);
    cache.full_rebuild = false;
    Ok(result)
}

/// A commit that is answered tells the phases of the build, and that the snapshot was at hand exactly
/// where there was a current one.
pub proof fn law_hits_are_told(
    cache: GraphSnapshotCacheModel,
    external_epoch: u64,
    source_epoch: u64,
    expected_source_epoch: u64,
    commit: CommitModel,
    known: Option<Seq<char>>,
)
    ensures
        snapshot_committed(
            cache,
            external_epoch,
            source_epoch,
            expected_source_epoch,
            commit,
            known,
        ).1 matches Ok(result) ==> result.phases == (GraphSnapshotPhasesModel {
            cache_hit: current_of(external_events_drained(cache, external_epoch)) is Some,
            ..commit.phases
        }),
{
}

} // verus!
