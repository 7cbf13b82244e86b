//! Persisted checkpoints: what a client kept of a snapshot, and whether it still holds.

use std::sync::Arc;

use vstd::prelude::*;
use vstd::string::*;

use crate::cache::{
    CachedSnapshot, CachedSnapshotModel, GraphSnapshotCache, GraphSnapshotCacheModel,
    all_invalidated, answer, current_of, drain_external_input_events_at, ensure_cache_revision,
    external_events_drained, hit_phases, next_number, planned, response_plan, wrapping_next,
};
use crate::digest::{is_digest, is_digest_text};
use crate::error::{GraphError, GraphErrorModel, outcome, retry_error};
use crate::files::{FileId, SourceFileModel, SourceFiles, source_of, source_path};
use crate::fx::set_clear;
use crate::json::json_digest;
use crate::plain::Plain;
use crate::shards::{generation_json, shard_digest, shard_json, shard_key, snapshot_generation};
use crate::snapshot::{
    GraphSnapshotCheckpoint, GraphSnapshotCheckpointModel, GraphSnapshotManifestEntry,
    GraphSnapshotManifestEntryModel, GraphSnapshotNode, GraphSnapshotNodeModel,
    GraphSnapshotPhasesModel, GraphSnapshotProducer, GraphSnapshotProducerModel,
    GraphSnapshotResult, GraphSnapshotResultModel, GraphSnapshotShard, GraphSnapshotShardModel,
    GraphSnapshotSource, GraphSnapshotSourceModel, GraphSnapshotUniverse,
    GraphSnapshotUniverseModel, PROTOCOL_VERSION, SCHEMA_VERSION, no_phases,
};
use crate::sorting::{drop_repeats, stable_sort, stable_sorted, without_repeats};
use crate::table::{Table, ordered};
use crate::text::is_text;

verus! {

/// What a valid checkpoint holds.
#[derive(Debug)]
pub struct CheckpointParts {
    pub manifest: Vec<GraphSnapshotManifestEntry>,
    pub shards: Table<String, Arc<GraphSnapshotShard>>,
    pub interface_fingerprints: Table<String, String>,
    pub node_owners: Table<String, String>,
}

/// The content of a [`CheckpointParts`].
pub struct CheckpointPartsModel {
    pub manifest: Seq<GraphSnapshotManifestEntryModel>,
    pub shards: Map<Seq<char>, GraphSnapshotShardModel>,
    pub interface_fingerprints: Map<Seq<char>, Seq<char>>,
    pub node_owners: Map<Seq<char>, Seq<char>>,
}

impl DeepView for CheckpointParts {
    type V = CheckpointPartsModel;

    open spec fn deep_view(&self) -> CheckpointPartsModel {
        CheckpointPartsModel {
            manifest: self.manifest.deep_view(),
            shards: self.shards.deep_view(),
            interface_fingerprints: self.interface_fingerprints.deep_view(),
            node_owners: self.node_owners.deep_view(),
        }
    }
}

impl Plain for CheckpointParts {
    fn duplicate(&self) -> (copy: Self) {
        CheckpointParts {
            manifest: self.manifest.duplicate(),
            shards: self.shards.duplicate(),
            interface_fingerprints: self.interface_fingerprints.duplicate(),
            node_owners: self.node_owners.duplicate(),
        }
    }

    fn same(&self, other: &Self) -> (equal: bool) {
        self.manifest.same(&other.manifest)
            && self.shards.same(&other.shards)
            && self.interface_fingerprints.same(&other.interface_fingerprints)
            && self.node_owners.same(&other.node_owners)
    }
}

/// Whether a checkpoint was made by this producer in this universe, at the generation that the
/// client knows.
pub open spec fn is_own_checkpoint(
    checkpoint: GraphSnapshotCheckpointModel,
    producer: GraphSnapshotProducerModel,
    universe: GraphSnapshotUniverseModel,
    known: Option<Seq<char>>,
) -> bool {
    &&& checkpoint.protocol_version == PROTOCOL_VERSION
    &&& checkpoint.schema_version == SCHEMA_VERSION
    &&& checkpoint.producer == producer
    &&& checkpoint.universe == universe.digest
    &&& known == Some(checkpoint.generation)
}

/// The digests of the first source files, by path.
pub open spec fn digests_by_path(
    files: Map<FileId, SourceFileModel>,
    inputs: Seq<(FileId, Seq<char>)>,
    count: int,
) -> Map<Seq<char>, Seq<char>>
    decreases count,
{
    if count <= 0 {
        Map::empty()
    } else {
        digests_by_path(files, inputs, count - 1).insert(
            source_of(files, inputs[count - 1].0),
            inputs[count - 1].1,
        )
    }
}

/// The digests that a checkpoint gives for its first source files, by path.
pub open spec fn claimed_digests(sources: Seq<GraphSnapshotSourceModel>, count: int) -> Map<
    Seq<char>,
    Seq<char>,
>
    decreases count,
{
    if count <= 0 {
        Map::empty()
    } else {
        claimed_digests(sources, count - 1).insert(
            sources[count - 1].source,
            sources[count - 1].checker_digest,
        )
    }
}

/// The digests of the first entries of a manifest, by key.
pub open spec fn manifest_map(manifest: Seq<GraphSnapshotManifestEntryModel>, count: int) -> Map<
    Seq<char>,
    Seq<char>,
>
    decreases count,
{
    if count <= 0 {
        Map::empty()
    } else {
        manifest_map(manifest, count - 1).insert(
            manifest[count - 1].key,
            manifest[count - 1].digest,
        )
    }
}

/// The manifest in key order, without repeated keys.
pub open spec fn sorted_manifest(manifest: Seq<GraphSnapshotManifestEntryModel>) -> Seq<
    GraphSnapshotManifestEntryModel,
> {
    without_repeats::<GraphSnapshotManifestEntry>(
        stable_sorted::<GraphSnapshotManifestEntry>(manifest),
    )
}

/// Whether a shard of a checkpoint has the key of its source file, the digest that its source file
/// has now, a well-formed fingerprint, and the digest that the manifest gives and its content has.
pub open spec fn is_valid_shard(
    target: Seq<char>,
    sources: Map<Seq<char>, Seq<char>>,
    manifest: Map<Seq<char>, Seq<char>>,
    shard: GraphSnapshotShardModel,
) -> bool {
    &&& shard.key == target + "\0"@ + shard.source
    &&& sources.contains_key(shard.source)
    &&& sources[shard.source] == shard.checker_digest
    &&& is_digest_text(shard.interface_fingerprint)
    &&& manifest.contains_key(shard.key)
    &&& manifest[shard.key] == shard.digest
    &&& json_digest(
        shard_json(
            shard.key,
            shard.source,
            shard.checker_digest,
            shard.interface_fingerprint,
            shard.nodes,
            shard.edges,
            shard.diagnostics,
            shard.coverage,
            shard.unresolved,
        ),
    ) == shard.digest
}

/// Makes a source file the owner of its first nodes, none of which may have an owner.
pub open spec fn nodes_owned(
    owners: Map<Seq<char>, Seq<char>>,
    nodes: Seq<GraphSnapshotNodeModel>,
    source: Seq<char>,
    count: int,
) -> Option<Map<Seq<char>, Seq<char>>>
    decreases count,
{
    if count <= 0 {
        Some(owners)
    } else {
        match nodes_owned(owners, nodes, source, count - 1) {
            None => None,
            Some(before) => if before.contains_key(nodes[count - 1].id) {
                None
            } else {
                Some(before.insert(nodes[count - 1].id, source))
            },
        }
    }
}

/// What is collected of the shards of a checkpoint.
pub struct CollectedModel {
    pub shards: Map<Seq<char>, GraphSnapshotShardModel>,
    pub interface_fingerprints: Map<Seq<char>, Seq<char>>,
    pub node_owners: Map<Seq<char>, Seq<char>>,
}

/// Collects a shard of a checkpoint. No other one may have its key, its source file or its nodes.
pub open spec fn shard_collected(
    target: Seq<char>,
    sources: Map<Seq<char>, Seq<char>>,
    manifest: Map<Seq<char>, Seq<char>>,
    collected: CollectedModel,
    shard: GraphSnapshotShardModel,
) -> Option<CollectedModel> {
    if !is_valid_shard(target, sources, manifest, shard) || collected.shards.contains_key(shard.key)
        || collected.interface_fingerprints.contains_key(shard.source) {
        None
    } else {
        match nodes_owned(
            collected.node_owners,
            shard.nodes,
            shard.source,
            shard.nodes.len() as int,
        ) {
            None => None,
            Some(node_owners) => Some(
                CollectedModel {
                    shards: collected.shards.insert(shard.key, shard),
                    interface_fingerprints: collected.interface_fingerprints.insert(
                        shard.source,
                        shard.interface_fingerprint,
                    ),
                    node_owners,
                },
            ),
        }
    }
}

/// Collects the first shards of a checkpoint.
pub open spec fn shards_collected(
    target: Seq<char>,
    sources: Map<Seq<char>, Seq<char>>,
    manifest: Map<Seq<char>, Seq<char>>,
    shards: Seq<GraphSnapshotShardModel>,
    count: int,
) -> Option<CollectedModel>
    decreases count,
{
    if count <= 0 {
        Some(
            CollectedModel {
                shards: Map::empty(),
                interface_fingerprints: Map::empty(),
                node_owners: Map::empty(),
            },
        )
    } else {
        match shards_collected(target, sources, manifest, shards, count - 1) {
            None => None,
            Some(before) => shard_collected(target, sources, manifest, before, shards[count - 1]),
        }
    }
}

/// Whether all digests of a manifest are well formed.
pub open spec fn has_digests(manifest: Seq<GraphSnapshotManifestEntryModel>) -> bool {
    forall|i: int| 0 <= i < manifest.len() ==> is_digest_text((#[trigger] manifest[i]).digest)
}

/// What a checkpoint holds, if it is valid: it was made by this producer in this universe at the
/// generation that the client knows, from the source files as they are now, its shards are valid,
/// and its manifest has one well-formed entry for each of them and the generation as its digest.
pub open spec fn checkpoint_parts(
    files: Map<FileId, SourceFileModel>,
    producer: GraphSnapshotProducerModel,
    universe: GraphSnapshotUniverseModel,
    checkpoint: GraphSnapshotCheckpointModel,
    known: Option<Seq<char>>,
    source_inputs: Map<FileId, Seq<char>>,
) -> Result<CheckpointPartsModel, GraphErrorModel> {
    let inputs = ordered::<FileId, Seq<char>>(source_inputs);
    let sources = digests_by_path(files, inputs, inputs.len() as int);
    let claimed = claimed_digests(checkpoint.sources, checkpoint.sources.len() as int);
    let manifest = sorted_manifest(checkpoint.manifest);
    if !is_own_checkpoint(checkpoint, producer, universe, known) {
        Err(
            GraphErrorModel::Retry(
                "persisted graph checkpoint does not match this producer universe; rebuild and retry"@,
            ),
        )
    } else if claimed.len() != checkpoint.sources.len() || claimed != sources {
        Err(
            GraphErrorModel::Retry(
                "persisted graph checkpoint source manifest moved; rebuild and retry"@,
            ),
        )
    } else {
        match shards_collected(
            universe.target,
            sources,
            manifest_map(manifest, manifest.len() as int),
            checkpoint.shards,
            checkpoint.shards.len() as int,
        ) {
            None => Err(
                GraphErrorModel::Retry(
                    "persisted graph checkpoint shards are invalid; rebuild and retry"@,
                ),
            ),
            Some(collected) => {
                if manifest.len() != checkpoint.manifest.len() || manifest.len() != sources.len()
                    || checkpoint.shards.len() != sources.len() || !has_digests(manifest)
                    || json_digest(generation_json(universe.digest, manifest))
                    != checkpoint.generation {
                    Err(
                        GraphErrorModel::Retry(
                            "persisted graph checkpoint manifest is invalid; rebuild and retry"@,
                        ),
                    )
                } else {
                    Ok(
                        CheckpointPartsModel {
                            manifest,
                            shards: collected.shards,
                            interface_fingerprints: collected.interface_fingerprints,
                            node_owners: collected.node_owners,
                        },
                    )
                }
            },
        }
    }
}

fn index_inputs(files: &SourceFiles, inputs: &Table<FileId, String>) -> (sources: Table<
    String,
    String,
>)
    ensures
        sources.deep_view() == digests_by_path(
            files.deep_view(),
            ordered::<FileId, Seq<char>>(inputs.deep_view()),
            ordered::<FileId, Seq<char>>(inputs.deep_view()).len() as int,
        ),
{
    let ghost listing = ordered::<FileId, Seq<char>>(inputs.deep_view());
    let count = inputs.len();
    let mut sources: Table<String, String> = Table::new();
    let mut index: usize = 0;
    while index < count
        invariant
            index <= count,
            count == listing.len(),
            listing == ordered::<FileId, Seq<char>>(inputs.deep_view()),
            sources.deep_view() == digests_by_path(files.deep_view(), listing, index as int),
        decreases count - index,
    {
        let source = source_path(files, *inputs.key_at(index));
        sources.insert(source, inputs.value_at(index).clone());
        index += 1;
    }
    sources
}

fn index_claims(claims: &Vec<GraphSnapshotSource>) -> (sources: Table<String, String>)
    ensures
        sources.deep_view() == claimed_digests(
            claims.deep_view(),
            claims.deep_view().len() as int,
        ),
{
    let ghost all = claims.deep_view();
    let mut sources: Table<String, String> = Table::new();
    let mut index: usize = 0;
    while index < claims.len()
        invariant
            index <= claims.len(),
            all == claims.deep_view(),
            sources.deep_view() == claimed_digests(all, index as int),
        decreases claims.len() - index,
    {
        assert(all[index as int] == claims@[index as int].deep_view());
        sources.insert(claims[index].source.clone(), claims[index].checker_digest.clone());
        index += 1;
    }
    sources
}

/// The digests of the entries of a manifest, by key.
pub fn index_manifest(manifest: &Vec<GraphSnapshotManifestEntry>) -> (digests: Table<String, String>)
    ensures
        digests.deep_view() == manifest_map(
            manifest.deep_view(),
            manifest.deep_view().len() as int,
        ),
{
    let ghost all = manifest.deep_view();
    let mut digests: Table<String, String> = Table::new();
    let mut index: usize = 0;
    while index < manifest.len()
        invariant
            index <= manifest.len(),
            all == manifest.deep_view(),
            digests.deep_view() == manifest_map(all, index as int),
        decreases manifest.len() - index,
    {
        assert(all[index as int] == manifest@[index as int].deep_view());
        digests.insert(manifest[index].key.clone(), manifest[index].digest.clone());
        index += 1;
    }
    digests
}

fn has_value(table: &Table<String, String>, key: &String, value: &String) -> (found: bool)
    ensures
        found == (table.deep_view().contains_key(key@) && table.deep_view()[key@] == value@),
{
    match table.get(key) {
        Some(found) => found.same(value),
        None => false,
    }
}

fn validate_shard(
    target: &str,
    sources: &Table<String, String>,
    manifest: &Table<String, String>,
    shard: &GraphSnapshotShard,
) -> (valid: bool)
    ensures
        valid == is_valid_shard(
            target@,
            sources.deep_view(),
            manifest.deep_view(),
            shard.deep_view(),
        ),
{
    shard.key.same(&shard_key(target, shard.source.as_str())) && has_value(
        sources,
        &shard.source,
        &shard.checker_digest,
    ) && is_digest(shard.interface_fingerprint.as_str()) && has_value(
        manifest,
        &shard.key,
        &shard.digest,
    ) && shard_digest(
        shard.key.as_str(),
        shard.source.as_str(),
        shard.checker_digest.as_str(),
        shard.interface_fingerprint.as_str(),
        &shard.nodes,
        &shard.edges,
        &shard.diagnostics,
        &shard.coverage,
        &shard.unresolved,
    ).same(&shard.digest)
}

proof fn lemma_nodes_none(
    owners: Map<Seq<char>, Seq<char>>,
    nodes: Seq<GraphSnapshotNodeModel>,
    source: Seq<char>,
    count: int,
    more: int,
)
    requires
        0 <= count <= more,
        nodes_owned(owners, nodes, source, count) is None,
    ensures
        nodes_owned(owners, nodes, source, more) is None,
    decreases more - count,
{
    if count < more {
        lemma_nodes_none(owners, nodes, source, count, more - 1);
    }
}

fn own_nodes(owners: &mut Table<String, String>, nodes: &Vec<GraphSnapshotNode>, source: &String) -> (owned:
    bool)
    ensures
        match nodes_owned(
            old(owners).deep_view(),
            nodes.deep_view(),
            source@,
            nodes.deep_view().len() as int,
        ) {
            Some(expected) => owned && final(owners).deep_view() == expected,
            None => !owned,
        },
{
    let ghost start = owners.deep_view();
    let ghost all = nodes.deep_view();
    let mut index: usize = 0;
    while index < nodes.len()
        invariant
            index <= nodes.len(),
            all == nodes.deep_view(),
            start == old(owners).deep_view(),
            nodes_owned(start, all, source@, index as int) == Some(owners.deep_view()),
        decreases nodes.len() - index,
    {
        assert(all[index as int] == nodes@[index as int].deep_view());
        if owners.insert(nodes[index].id.clone(), source.clone()).is_some() {
            proof {
                lemma_nodes_none(start, all, source@, index + 1, all.len() as int);
            }
            return false;
        }
        index += 1;
    }
    true
}

struct Collected {
    shards: Table<String, Arc<GraphSnapshotShard>>,
    interface_fingerprints: Table<String, String>,
    node_owners: Table<String, String>,
}

spec fn collected_model(collected: Collected) -> CollectedModel {
    CollectedModel {
        shards: collected.shards.deep_view(),
        interface_fingerprints: collected.interface_fingerprints.deep_view(),
        node_owners: collected.node_owners.deep_view(),
    }
}

fn collect_shard(
    target: &str,
    sources: &Table<String, String>,
    manifest: &Table<String, String>,
    collected: &mut Collected,
    shard: &GraphSnapshotShard,
) -> (valid: bool)
    ensures
        match shard_collected(
            target@,
            sources.deep_view(),
            manifest.deep_view(),
            collected_model(*old(collected)),
            shard.deep_view(),
        ) {
            Some(expected) => valid && collected_model(*final(collected)) == expected,
            None => !valid,
        },
{
    validate_shard(target, sources, manifest, shard) && collected.shards.insert(
        shard.key.clone(),
        Arc::new(shard.duplicate()),
    ).is_none() && collected.interface_fingerprints.insert(
        shard.source.clone(),
        shard.interface_fingerprint.clone(),
    ).is_none() && own_nodes(&mut collected.node_owners, &shard.nodes, &shard.source)
}

proof fn lemma_shards_none(
    target: Seq<char>,
    sources: Map<Seq<char>, Seq<char>>,
    manifest: Map<Seq<char>, Seq<char>>,
    shards: Seq<GraphSnapshotShardModel>,
    count: int,
    more: int,
)
    requires
        0 <= count <= more,
        shards_collected(target, sources, manifest, shards, count) is None,
    ensures
        shards_collected(target, sources, manifest, shards, more) is None,
    decreases more - count,
{
    if count < more {
        lemma_shards_none(target, sources, manifest, shards, count, more - 1);
    }
}

fn collect_shards(
    target: &str,
    sources: &Table<String, String>,
    manifest: &Table<String, String>,
    shards: &Vec<GraphSnapshotShard>,
) -> (result: Option<Collected>)
    ensures
        match shards_collected(
            target@,
            sources.deep_view(),
            manifest.deep_view(),
            shards.deep_view(),
            shards.deep_view().len() as int,
        ) {
            Some(expected) => result is Some && collected_model(result->0) == expected,
            None => result is None,
        },
{
    let ghost s = sources.deep_view();
    let ghost m = manifest.deep_view();
    let ghost all = shards.deep_view();
    let mut collected = Collected {
        shards: Table::new(),
        interface_fingerprints: Table::new(),
        node_owners: Table::new(),
    };
    let mut index: usize = 0;
    while index < shards.len()
        invariant
            index <= shards.len(),
            s == sources.deep_view(),
            m == manifest.deep_view(),
            all == shards.deep_view(),
            shards_collected(target@, s, m, all, index as int) == Some(collected_model(collected)),
        decreases shards.len() - index,
    {
        assert(all[index as int] == shards@[index as int].deep_view());
        if !collect_shard(target, sources, manifest, &mut collected, &shards[index]) {
            proof {
                lemma_shards_none(target@, s, m, all, index + 1, all.len() as int);
            }
            return None;
        }
        index += 1;
    }
    Some(collected)
}

fn check_digests(manifest: &Vec<GraphSnapshotManifestEntry>) -> (valid: bool)
    ensures
        valid == has_digests(manifest.deep_view()),
{
    let ghost all = manifest.deep_view();
    let mut index: usize = 0;
    while index < manifest.len()
        invariant
            index <= manifest.len(),
            all == manifest.deep_view(),
            forall|i: int| 0 <= i < index ==> is_digest_text((#[trigger] all[i]).digest),
        decreases manifest.len() - index,
    {
        assert(all[index as int] == manifest@[index as int].deep_view());
        if !is_digest(manifest[index].digest.as_str()) {
            return false;
        }
        index += 1;
    }
    true
}

/// Checks a checkpoint and takes it apart.
pub fn validate_checkpoint(
    files: &SourceFiles,
    producer: &GraphSnapshotProducer,
    universe: &GraphSnapshotUniverse,
    checkpoint: &GraphSnapshotCheckpoint,
    known_generation: &Option<String>,
    source_inputs: &Table<FileId, String>,
) -> (result: Result<CheckpointParts, GraphError>)
    ensures
        outcome(result) == checkpoint_parts(
            files.deep_view(),
            producer.deep_view(),
            universe.deep_view(),
            checkpoint.deep_view(),
            known_generation.deep_view(),
            source_inputs.deep_view(),
        ),
{
    if checkpoint.protocol_version != PROTOCOL_VERSION || checkpoint.schema_version
        != SCHEMA_VERSION || !checkpoint.producer.same(producer) || !checkpoint.universe.same(
        &universe.digest,
    ) || !is_text(known_generation, checkpoint.generation.as_str()) {
        return Err(
            retry_error(
                "persisted graph checkpoint does not match this producer universe; rebuild and retry",
            ),
        );
    }
    let expected_sources = index_inputs(files, source_inputs);
    let actual_sources = index_claims(&checkpoint.sources);
    let sources = expected_sources.len();
    let claims = actual_sources.len();
    if claims != checkpoint.sources.len() || !actual_sources.same(&expected_sources) {
        return Err(
            retry_error("persisted graph checkpoint source manifest moved; rebuild and retry"),
        );
    }
    let mut manifest = checkpoint.manifest.duplicate();
    stable_sort(&mut manifest);
    drop_repeats(&mut manifest);
    let manifest_by_key = index_manifest(&manifest);
    let collected = match collect_shards(
        universe.target.as_str(),
        &expected_sources,
        &manifest_by_key,
        &checkpoint.shards,
    ) {
        Some(collected) => collected,
        None => return Err(
            retry_error("persisted graph checkpoint shards are invalid; rebuild and retry"),
        ),
    };
    proof {
        assert(manifest.deep_view().len() == manifest.len());
        assert(checkpoint.deep_view().manifest.len() == checkpoint.manifest.len());
        assert(checkpoint.deep_view().shards.len() == checkpoint.shards.len());
        assert(checkpoint.deep_view().sources.len() == checkpoint.sources.len());
    }
    if manifest.len() != checkpoint.manifest.len() || manifest.len() != sources
        || checkpoint.shards.len() != sources || !check_digests(&manifest) || !snapshot_generation(
        universe.digest.as_str(),
        &manifest,
    ).same(&checkpoint.generation) {
        return Err(
            retry_error("persisted graph checkpoint manifest is invalid; rebuild and retry"),
        );
    }
    Ok(
        CheckpointParts {
            manifest,
            shards: collected.shards,
            interface_fingerprints: collected.interface_fingerprints,
            node_owners: collected.node_owners,
        },
    )
}

/// The snapshot that a valid checkpoint stands for.
pub open spec fn restored(
    revision: u64,
    sequence: u64,
    producer: GraphSnapshotProducerModel,
    universe: GraphSnapshotUniverseModel,
    generation: Seq<char>,
    parts: CheckpointPartsModel,
    source_inputs: Map<FileId, Seq<char>>,
) -> CachedSnapshotModel {
    CachedSnapshotModel {
        revision,
        producer,
        universe,
        sequence,
        generation,
        manifest: parts.manifest,
        phases: GraphSnapshotPhasesModel { cache_hit: true, ..no_phases() },
        shards: parts.shards,
        interface_fingerprints: parts.interface_fingerprints,
        source_inputs,
        node_owners: parts.node_owners,
        delta_base: None,
        delta_upserts: Seq::empty(),
        delta_deletes: Seq::empty(),
    }
}

/// What installing a checkpoint does to a cache, and what is answered: an error where events on
/// source files came in or the workspace moved since, the current snapshot where there is one, and
/// the snapshot that the checkpoint stands for, which is committed, otherwise.
pub open spec fn checkpoint_installed(
    cache: GraphSnapshotCacheModel,
    external_epoch: u64,
    source_epoch: u64,
    expected_source_epoch: u64,
    revision: u64,
    producer: GraphSnapshotProducerModel,
    universe: GraphSnapshotUniverseModel,
    generation: Seq<char>,
    parts: CheckpointPartsModel,
    source_inputs: Map<FileId, Seq<char>>,
    known: Option<Seq<char>>,
) -> (GraphSnapshotCacheModel, Result<GraphSnapshotResultModel, GraphErrorModel>) {
    let drained = external_events_drained(cache, external_epoch);
    if source_epoch != expected_source_epoch {
        (
            all_invalidated(drained),
            Err(
                GraphErrorModel::Retry(
                    "graph snapshot source inputs moved while validating a checkpoint; retry"@,
                ),
            ),
        )
    } else {
        match current_of(drained) {
            Some(committed) => (drained, Ok(answer(planned(committed, known, true)))),
            None => {
                if drained.revision != revision {
                    (
                        drained,
                        Err(
                            GraphErrorModel::Retry(
                                "graph snapshot was invalidated while validating a checkpoint; retry the request"@,
                            ),
                        ),
                    )
                } else {
                    let cached = restored(
                        revision,
                        next_number(drained.sequence),
                        producer,
                        universe,
                        generation,
                        parts,
                        source_inputs,
                    );
                    (
                        GraphSnapshotCacheModel {
                            sequence: next_number(drained.sequence),
                            committed: Some(cached),
                            dirty_files: Set::empty(),
                            full_rebuild: false,
                            ..drained
                        },
                        Ok(answer(planned(cached, known, true))),
                    )
                }
            },
        }
    }
}

/// Installs a valid checkpoint in a cache and answers the client.
pub fn install_checkpoint(
    cache: &mut GraphSnapshotCache,
    external_epoch: u64,
    source_epoch: u64,
    expected_source_epoch: u64,
    revision: u64,
    producer: GraphSnapshotProducer,
    universe: GraphSnapshotUniverse,
    generation: String,
    parts: CheckpointParts,
    source_inputs: Table<FileId, String>,
    known_generation: &Option<String>,
) -> (result: Result<GraphSnapshotResult, GraphError>)
    ensures
        (final(cache).deep_view(), outcome(result)) == checkpoint_installed(
            old(cache).deep_view(),
            external_epoch,
            source_epoch,
            expected_source_epoch,
            revision,
            producer.deep_view(),
            universe.deep_view(),
            generation@,
            parts.deep_view(),
            source_inputs.deep_view(),
            known_generation.deep_view(),
        ),
{
    drain_external_input_events_at(cache, external_epoch);
    if source_epoch != expected_source_epoch {
        cache.invalidate_all();
        return Err(
            retry_error("graph snapshot source inputs moved while validating a checkpoint; retry"),
        );
    }
    match cache.current() {
        Some(committed) => {
            return Ok(response_plan(committed, known_generation, true).into_result());
        },
        None => {},
    }
    match ensure_cache_revision(
        cache,
        revision,
        "graph snapshot was invalidated while validating a checkpoint; retry the request",
    ) {
        Ok(_) => {},
        Err(error) => return Err(error),
    }
    cache.sequence = wrapping_next(cache.sequence);
    let cached = CachedSnapshot {
        revision,
        producer,
        universe,
        sequence: cache.sequence,
        generation,
        manifest: parts.manifest,
        phases: hit_phases(),
        shards: parts.shards,
        interface_fingerprints: parts.interface_fingerprints,
        source_inputs,
        node_owners: parts.node_owners,
        delta_base: None,
        delta_upserts: Vec::new(),
        delta_deletes: Vec::new(),
    };
    proof {
        assert(cached.deep_view().delta_upserts =~= Seq::<GraphSnapshotShardModel>::empty());
        assert(cached.deep_view().delta_deletes =~= Seq::<Seq<char>>::empty());
    }
    let result = response_plan(&cached, known_generation, true).into_result();
    cache.committed = Some(cached);
    set_clear(&mut cache.dirty_files);
    cache.full_rebuild = false;
    Ok(result)
}

} // verus!
