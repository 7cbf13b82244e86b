//! Digests identify what they are taken of: what has the same digest is the same, unless two
//! different texts have the same hash.

use vstd::prelude::*;

use crate::cache::{
    CachedSnapshotModel, GraphSnapshotCacheModel, answer, current_of, external_events_drained,
    next_number, planned,
};
use crate::checkpoint::{
    CheckpointPartsModel, checkpoint_parts, digests_by_path, manifest_map, shards_collected,
    sorted_manifest,
};
use crate::commit::{CommitModel, merged, next_snapshot, paths_of, retained};
use crate::consistency::{
    base_of, followed, holds_consistent, is_answer, is_consistent, is_keyed, is_sound,
    law_answer_is_complete, law_commit_is_consistent, law_delta_is_complete,
    law_requests_answer_from_current, law_requests_follow, lemma_shard_list, manifest_digests,
    shard_digests, upserted,
};
use crate::ensure::configuration_json;
use crate::error::GraphErrorModel;
use crate::files::{FileId, SourceFileModel};
use crate::fingerprints::fingerprint_of;
use crate::graph::{GraphModel, MutableShardModel};
use crate::handle::{
    HandleEventModel, HandleProgressModel, HandleRequestModel, HandleStateModel, commit_of,
    indexed_files, is_step, retained_owners,
};
use crate::json::{JsonModel, canonical, json_digest};
use crate::nodes::digests_of;
use crate::reading::lemma_fields_unambiguous;
use crate::shards::{
    BuiltShardsModel, built, generation_json, shard_json, shards_finished, tested_and_finished,
    tests_added, tests_of,
};
use crate::snapshot::{
    GraphSnapshotCheckpointModel, GraphSnapshotCoverage, GraphSnapshotDiagnostic,
    GraphSnapshotEdge, GraphSnapshotManifestEntry, GraphSnapshotManifestEntryModel,
    GraphSnapshotNode, GraphSnapshotProducer, GraphSnapshotProducerModel,
    GraphSnapshotResultModel, GraphSnapshotShard, GraphSnapshotShardModel,
    GraphSnapshotUniverseModel, GraphSnapshotUnresolved,
};
use crate::sorting::{lemma_stable_sorted, lemma_stable_sorted_contains, stable_sorted};
use crate::static_index::StaticIndexModel;
use crate::table::{ordered, ordered_values};
use crate::universe::universe_json;
use crate::wire::Encoded;

verus! {

/// Whether two values with different canonical texts have the same digest.
pub open spec fn collide(left: JsonModel, right: JsonModel) -> bool {
    canonical(left) != canonical(right) && json_digest(left) == json_digest(right)
}

/// What the digest of a shard is taken of.
pub open spec fn sealed_json(shard: GraphSnapshotShardModel) -> JsonModel {
    shard_json(
        shard.key,
        shard.source,
        shard.checker_digest,
        shard.interface_fingerprint,
        shard.nodes,
        shard.edges,
        shard.diagnostics,
        shard.coverage,
        shard.unresolved,
    )
}

/// Whether the digest of a shard is that of its content.
pub open spec fn is_sealed(shard: GraphSnapshotShardModel) -> bool {
    shard.digest == json_digest(sealed_json(shard))
}

/// Shards with the same digest are the same, unless there is a collision.
pub proof fn law_shard_digest_identifies(
    left: GraphSnapshotShardModel,
    right: GraphSnapshotShardModel,
)
    requires
        is_sealed(left),
        is_sealed(right),
        left.digest == right.digest,
        !collide(sealed_json(left), sealed_json(right)),
    ensures
        left == right,
{
    let one = sealed_json(left)->Object_0;
    let other = sealed_json(right)->Object_0;
    reveal_strlit("key");
    reveal_strlit("source");
    reveal_strlit("checkerDigest");
    reveal_strlit("interfaceFingerprint");
    reveal_strlit("nodes");
    reveal_strlit("edges");
    reveal_strlit("diagnostics");
    reveal_strlit("coverage");
    reveal_strlit("unresolved");
    assert("nodes"@[0] != "edges"@[0]);
    assert(one[0].0 == "key"@);
    assert(one[1].0 == "source"@);
    assert(one[2].0 == "checkerDigest"@);
    assert(one[3].0 == "interfaceFingerprint"@);
    assert(one[4].0 == "nodes"@);
    assert(one[5].0 == "edges"@);
    assert(one[6].0 == "diagnostics"@);
    assert(one[7].0 == "coverage"@);
    assert(one[8].0 == "unresolved"@);
    assert forall|i: int, j: int| 0 <= i < j < one.len() implies (#[trigger] one[i]).0 != (
    #[trigger] one[j]).0 by {
        assert(i == 0 || i == 1 || i == 2 || i == 3 || i == 4 || i == 5 || i == 6 || i == 7);
        assert(j == 1 || j == 2 || j == 3 || j == 4 || j == 5 || j == 6 || j == 7 || j == 8);
    }
    lemma_fields_unambiguous(one, other);
    assert(canonical(one[0].1) == canonical(other[0].1));
    String::lemma_distinct(left.key, right.key);
    assert(canonical(one[1].1) == canonical(other[1].1));
    String::lemma_distinct(left.source, right.source);
    assert(canonical(one[2].1) == canonical(other[2].1));
    String::lemma_distinct(left.checker_digest, right.checker_digest);
    assert(canonical(one[3].1) == canonical(other[3].1));
    String::lemma_distinct(left.interface_fingerprint, right.interface_fingerprint);
    assert(canonical(one[4].1) == canonical(other[4].1));
    <Vec<GraphSnapshotNode>>::lemma_distinct(left.nodes, right.nodes);
    assert(canonical(one[5].1) == canonical(other[5].1));
    <Vec<GraphSnapshotEdge>>::lemma_distinct(left.edges, right.edges);
    assert(canonical(one[6].1) == canonical(other[6].1));
    <Vec<GraphSnapshotDiagnostic>>::lemma_distinct(left.diagnostics, right.diagnostics);
    assert(canonical(one[7].1) == canonical(other[7].1));
    <Vec<GraphSnapshotCoverage>>::lemma_distinct(left.coverage, right.coverage);
    assert(canonical(one[8].1) == canonical(other[8].1));
    <Vec<GraphSnapshotUnresolved>>::lemma_distinct(left.unresolved, right.unresolved);
}

/// Snapshots with the same generation have the same universe and the same manifest, unless there is
/// a collision.
pub proof fn law_generation_identifies(
    left_universe: Seq<char>,
    left: Seq<GraphSnapshotManifestEntryModel>,
    right_universe: Seq<char>,
    right: Seq<GraphSnapshotManifestEntryModel>,
)
    requires
        json_digest(generation_json(left_universe, left)) == json_digest(
            generation_json(right_universe, right),
        ),
        !collide(generation_json(left_universe, left), generation_json(right_universe, right)),
    ensures
        left_universe == right_universe,
        left == right,
{
    let one = generation_json(left_universe, left)->Object_0;
    let other = generation_json(right_universe, right)->Object_0;
    reveal_strlit("universe");
    reveal_strlit("manifest");
    assert("universe"@[0] != "manifest"@[0]);
    assert(one[0].0 == "universe"@);
    assert(one[1].0 == "manifest"@);
    assert forall|i: int, j: int| 0 <= i < j < one.len() implies (#[trigger] one[i]).0 != (
    #[trigger] one[j]).0 by {
        assert(i == 0);
        assert(j == 1);
    }
    lemma_fields_unambiguous(one, other);
    assert(canonical(one[0].1) == canonical(other[0].1));
    String::lemma_distinct(left_universe, right_universe);
    assert(canonical(one[1].1) == canonical(other[1].1));
    <Vec<GraphSnapshotManifestEntry>>::lemma_distinct(left, right);
}

/// Universes with the same digest have the same workspaces, toolchains and configurations, and were
/// observed by the same producer, unless there is a collision.
pub proof fn law_universe_digest_identifies(
    left: GraphSnapshotUniverseModel,
    left_producer: GraphSnapshotProducerModel,
    right: GraphSnapshotUniverseModel,
    right_producer: GraphSnapshotProducerModel,
)
    requires
        left.digest == json_digest(
            universe_json(
                left.workspace_roots,
                left.toolchains,
                left.configurations,
                left_producer,
            ),
        ),
        right.digest == json_digest(
            universe_json(
                right.workspace_roots,
                right.toolchains,
                right.configurations,
                right_producer,
            ),
        ),
        left.digest == right.digest,
        !collide(
            universe_json(
                left.workspace_roots,
                left.toolchains,
                left.configurations,
                left_producer,
            ),
            universe_json(
                right.workspace_roots,
                right.toolchains,
                right.configurations,
                right_producer,
            ),
        ),
    ensures
        left.workspace_roots == right.workspace_roots,
        left.toolchains == right.toolchains,
        left.configurations == right.configurations,
        left_producer == right_producer,
{
    let one = universe_json(
        left.workspace_roots,
        left.toolchains,
        left.configurations,
        left_producer,
    )->Object_0;
    let other = universe_json(
        right.workspace_roots,
        right.toolchains,
        right.configurations,
        right_producer,
    )->Object_0;
    reveal_strlit("workspaceRoots");
    reveal_strlit("toolchains");
    reveal_strlit("configurations");
    reveal_strlit("producer");
    assert("workspaceRoots"@[0] != "configurations"@[0]);
    assert(one[0].0 == "workspaceRoots"@);
    assert(one[1].0 == "toolchains"@);
    assert(one[2].0 == "configurations"@);
    assert(one[3].0 == "producer"@);
    assert forall|i: int, j: int| 0 <= i < j < one.len() implies (#[trigger] one[i]).0 != (
    #[trigger] one[j]).0 by {
        assert(i == 0 || i == 1 || i == 2);
        assert(j == 1 || j == 2 || j == 3);
    }
    lemma_fields_unambiguous(one, other);
    assert(canonical(one[0].1) == canonical(other[0].1));
    <Vec<String>>::lemma_distinct(left.workspace_roots, right.workspace_roots);
    assert(canonical(one[1].1) == canonical(other[1].1));
    <Vec<String>>::lemma_distinct(left.toolchains, right.toolchains);
    assert(canonical(one[2].1) == canonical(other[2].1));
    <Vec<String>>::lemma_distinct(left.configurations, right.configurations);
    assert(canonical(one[3].1) == canonical(other[3].1));
    GraphSnapshotProducer::lemma_distinct(left_producer, right_producer);
}

/// Configurations with the same fingerprint describe the same workspaces and name the same macro
/// server, unless there is a collision.
pub proof fn law_configuration_identifies(
    left: Seq<Seq<char>>,
    left_server: Option<Seq<char>>,
    right: Seq<Seq<char>>,
    right_server: Option<Seq<char>>,
)
    requires
        json_digest(configuration_json(left, left_server)) == json_digest(
            configuration_json(right, right_server),
        ),
        !collide(configuration_json(left, left_server), configuration_json(right, right_server)),
    ensures
        left == right,
        left_server == right_server,
{
    let one = configuration_json(left, left_server)->Object_0;
    let other = configuration_json(right, right_server)->Object_0;
    reveal_strlit("workspaces");
    reveal_strlit("procMacroServer");
    assert(one[0].0 == "workspaces"@);
    assert(one[1].0 == "procMacroServer"@);
    assert forall|i: int, j: int| 0 <= i < j < one.len() implies (#[trigger] one[i]).0 != (
    #[trigger] one[j]).0 by {
        assert(i == 0);
        assert(j == 1);
    }
    lemma_fields_unambiguous(one, other);
    assert(canonical(one[0].1) == canonical(other[0].1));
    <Vec<String>>::lemma_distinct(left, right);
    assert(canonical(one[1].1) == canonical(other[1].1));
    <Option<String>>::lemma_distinct(left_server, right_server);
}

/// Interfaces with the same fingerprint have the same entries, unless there is a collision.
pub proof fn law_fingerprint_identifies(left: Seq<Seq<char>>, right: Seq<Seq<char>>)
    requires
        fingerprint_of(left) == fingerprint_of(right),
        !collide(
            <Vec<String>>::encoding(stable_sorted::<String>(left)),
            <Vec<String>>::encoding(stable_sorted::<String>(right)),
        ),
    ensures
        left.to_multiset() == right.to_multiset(),
{
    <Vec<String>>::lemma_distinct(stable_sorted::<String>(left), stable_sorted::<String>(right));
    lemma_stable_sorted::<String>(left);
    lemma_stable_sorted::<String>(right);
}

/// Whether all shards are sealed.
pub open spec fn are_sealed(shards: Seq<GraphSnapshotShardModel>) -> bool {
    forall|i: int| 0 <= i < shards.len() ==> is_sealed(#[trigger] shards[i])
}

/// Whether all shards that are found by key are sealed.
pub open spec fn holds_sealed(shards: Map<Seq<char>, GraphSnapshotShardModel>) -> bool {
    forall|key: Seq<char>| #[trigger] shards.contains_key(key) ==> is_sealed(shards[key])
}

proof fn lemma_finished_sealed(
    target: Seq<char>,
    listing: Seq<(Seq<char>, MutableShardModel)>,
    digests: Map<Seq<char>, Seq<char>>,
    fingerprints: Map<Seq<char>, Seq<char>>,
    count: int,
)
    requires
        shards_finished(target, listing, digests, fingerprints, count) is Ok,
    ensures
        are_sealed(shards_finished(target, listing, digests, fingerprints, count)->Ok_0),
    decreases count,
{
    if count > 0 {
        lemma_finished_sealed(target, listing, digests, fingerprints, count - 1);
    }
}

/// Every shard that is built is sealed.
pub proof fn law_built_shards_are_sealed(
    files: Map<FileId, SourceFileModel>,
    index: StaticIndexModel,
    target: Seq<char>,
    interface_fingerprints: Map<Seq<char>, Seq<char>>,
    source_inputs: Map<FileId, Seq<char>>,
    owners: Map<Seq<char>, Seq<char>>,
    result: BuiltShardsModel,
)
    requires
        built(files, index, target, interface_fingerprints, source_inputs, owners) == Ok::<
            BuiltShardsModel,
            GraphErrorModel,
        >(result),
    ensures
        are_sealed(result.shards),
{
    let graph = lemma_built_finished(
        files,
        index,
        target,
        interface_fingerprints,
        source_inputs,
        owners,
        result,
    );
    let listing = ordered::<String, MutableShardModel>(graph);
    let digests = digests_of(files, index.files, source_inputs, index.files.len() as int);
    let count = listing.len() as int;
    lemma_finished_sealed(target, listing, digests, interface_fingerprints, count);
    let unsorted = shards_finished(target, listing, digests, interface_fingerprints, count)->Ok_0;
    assert forall|i: int| 0 <= i < result.shards.len() implies is_sealed(
        #[trigger] result.shards[i],
    ) by {
        assert(result.shards.contains(result.shards[i]));
        lemma_stable_sorted_contains::<GraphSnapshotShard>(unsorted, result.shards[i]);
        let j = choose|j: int| 0 <= j < unsorted.len() && unsorted[j] == result.shards[i];
        assert(is_sealed(unsorted[j]));
    }
}

/// The shards that a build brings into their final form.
proof fn lemma_built_finished(
    files: Map<FileId, SourceFileModel>,
    index: StaticIndexModel,
    target: Seq<char>,
    interface_fingerprints: Map<Seq<char>, Seq<char>>,
    source_inputs: Map<FileId, Seq<char>>,
    owners: Map<Seq<char>, Seq<char>>,
    result: BuiltShardsModel,
) -> (shards: Map<Seq<char>, MutableShardModel>)
    requires
        built(files, index, target, interface_fingerprints, source_inputs, owners) == Ok::<
            BuiltShardsModel,
            GraphErrorModel,
        >(result),
    ensures
        ({
            let listing = ordered::<String, MutableShardModel>(shards);
            let unsorted = shards_finished(
                target,
                listing,
                digests_of(files, index.files, source_inputs, index.files.len() as int),
                interface_fingerprints,
                listing.len() as int,
            );
            unsorted is Ok && result.shards == stable_sorted::<GraphSnapshotShard>(
                unsorted->Ok_0,
            )
        }),
{
    let detailed = choose|detailed: GraphModel|
        tested_and_finished(
            files,
            index,
            target,
            interface_fingerprints,
            source_inputs,
            detailed,
        ) == Ok::<BuiltShardsModel, GraphErrorModel>(result);
    let listing = ordered::<String, MutableShardModel>(detailed.shards);
    let tests = tests_of(index.tokens, listing, listing.len() as int);
    tests_added(detailed, tests, tests.len() as int).shards
}

proof fn lemma_merged_sealed(
    shards: Map<Seq<char>, GraphSnapshotShardModel>,
    built: Seq<GraphSnapshotShardModel>,
    count: int,
)
    requires
        holds_sealed(shards),
        are_sealed(built),
        count <= built.len(),
    ensures
        holds_sealed(merged(shards, built, count)),
    decreases count,
{
    if count > 0 {
        lemma_merged_sealed(shards, built, count - 1);
    }
}

/// A snapshot that is committed holds sealed shards only, if those that were built and those of the
/// snapshot before it are sealed.
pub proof fn law_commit_stays_sealed(
    committed: Option<CachedSnapshotModel>,
    sequence: u64,
    commit: CommitModel,
)
    requires
        committed is Some ==> holds_sealed(committed->0.shards),
        are_sealed(commit.built.shards),
    ensures
        holds_sealed(next_snapshot(committed, sequence, commit).shards),
{
    let start: Map<Seq<char>, GraphSnapshotShardModel> = if commit.full_rebuild || committed is None {
        Map::empty()
    } else {
        retained(committed->0.shards, commit.dirty_sources)
    };
    assert(holds_sealed(start)) by {
        assert forall|key: Seq<char>| #[trigger] start.contains_key(key) implies is_sealed(
            start[key],
        ) by {
            assert(committed->0.shards.contains_key(key));
        }
    }
    lemma_merged_sealed(start, commit.built.shards, commit.built.shards.len() as int);
}

proof fn lemma_collected_sealed(
    target: Seq<char>,
    sources: Map<Seq<char>, Seq<char>>,
    manifest: Map<Seq<char>, Seq<char>>,
    shards: Seq<GraphSnapshotShardModel>,
    count: int,
)
    requires
        shards_collected(target, sources, manifest, shards, count) is Some,
    ensures
        holds_sealed(shards_collected(target, sources, manifest, shards, count)->0.shards),
    decreases count,
{
    if count > 0 {
        lemma_collected_sealed(target, sources, manifest, shards, count - 1);
    }
}

/// Every shard of a valid checkpoint is sealed.
pub proof fn law_checkpoint_is_sealed(
    files: Map<FileId, SourceFileModel>,
    producer: GraphSnapshotProducerModel,
    universe: GraphSnapshotUniverseModel,
    checkpoint: GraphSnapshotCheckpointModel,
    known: Option<Seq<char>>,
    source_inputs: Map<FileId, Seq<char>>,
    parts: CheckpointPartsModel,
)
    requires
        checkpoint_parts(files, producer, universe, checkpoint, known, source_inputs) == Ok::<
            CheckpointPartsModel,
            GraphErrorModel,
        >(parts),
    ensures
        holds_sealed(parts.shards),
{
    let inputs = ordered::<FileId, Seq<char>>(source_inputs);
    let sources = digests_by_path(files, inputs, inputs.len() as int);
    let manifest = sorted_manifest(checkpoint.manifest);
    lemma_collected_sealed(
        universe.target,
        sources,
        manifest_map(manifest, manifest.len() as int),
        checkpoint.shards,
        checkpoint.shards.len() as int,
    );
}

/// Shards, by key, with others put in.
pub open spec fn shards_upserted(
    held: Map<Seq<char>, GraphSnapshotShardModel>,
    upserts: Seq<GraphSnapshotShardModel>,
) -> Map<Seq<char>, GraphSnapshotShardModel>
    decreases upserts.len(),
{
    if upserts.len() == 0 {
        held
    } else {
        shards_upserted(held, upserts.drop_last()).insert(upserts.last().key, upserts.last())
    }
}

/// The shards that a client holds once it followed an answer.
pub open spec fn received(
    held: Map<Seq<char>, GraphSnapshotShardModel>,
    result: GraphSnapshotResultModel,
) -> Map<Seq<char>, GraphSnapshotShardModel> {
    shards_upserted(
        match result.base_generation {
            Some(_) => held.remove_keys(result.deletes.to_set()),
            None => Map::empty(),
        },
        result.upserts,
    )
}

/// What a client that puts shards in holds are these shards and what it held under other keys.
proof fn lemma_shards_upserted(
    held: Map<Seq<char>, GraphSnapshotShardModel>,
    upserts: Seq<GraphSnapshotShardModel>,
)
    ensures
        shard_digests(shards_upserted(held, upserts)) == upserted(shard_digests(held), upserts),
        forall|key: Seq<char>| #[trigger]
            shards_upserted(held, upserts).contains_key(key) ==> {
                ||| held.contains_key(key) && shards_upserted(held, upserts)[key] == held[key]
                ||| exists|i: int|
                    0 <= i < upserts.len() && (#[trigger] upserts[i]).key == key && shards_upserted(
                        held,
                        upserts,
                    )[key] == upserts[i]
            },
    decreases upserts.len(),
{
    let after = shards_upserted(held, upserts);
    if upserts.len() > 0 {
        let shorter = upserts.drop_last();
        let before = shards_upserted(held, shorter);
        lemma_shards_upserted(held, shorter);
        assert forall|key: Seq<char>| #[trigger] after.contains_key(key) implies {
            ||| held.contains_key(key) && after[key] == held[key]
            ||| exists|i: int|
                0 <= i < upserts.len() && (#[trigger] upserts[i]).key == key && after[key]
                    == upserts[i]
        } by {
            if key == upserts.last().key {
                assert(upserts[upserts.len() - 1].key == key);
            } else {
                assert(before.contains_key(key));
                if !(held.contains_key(key) && before[key] == held[key]) {
                    let i = choose|i: int|
                        0 <= i < shorter.len() && (#[trigger] shorter[i]).key == key && before[key]
                            == shorter[i];
                    assert(upserts[i] == shorter[i]);
                }
            }
        }
        assert(shard_digests(after) =~= upserted(shard_digests(held), upserts));
    } else {
        assert(shard_digests(after) =~= upserted(shard_digests(held), upserts));
    }
}

/// The digests of what a client holds follow from the digests of what it held.
proof fn lemma_received(
    held: Map<Seq<char>, GraphSnapshotShardModel>,
    result: GraphSnapshotResultModel,
)
    ensures
        shard_digests(received(held, result)) == followed(shard_digests(held), result),
{
    let base = match result.base_generation {
        Some(_) => held.remove_keys(result.deletes.to_set()),
        None => Map::empty(),
    };
    lemma_shards_upserted(base, result.upserts);
    assert(shard_digests(held).remove_keys(result.deletes.to_set()) =~= shard_digests(
        held.remove_keys(result.deletes.to_set()),
    ));
    assert(shard_digests(Map::empty()) =~= Map::empty());
}

/// Whether no shard collides with the one of the same key among others.
pub open spec fn collide_nowhere(
    left: Map<Seq<char>, GraphSnapshotShardModel>,
    right: Map<Seq<char>, GraphSnapshotShardModel>,
) -> bool {
    forall|key: Seq<char>|
        #[trigger] left.contains_key(key) && right.contains_key(key) ==> !collide(
            sealed_json(left[key]),
            sealed_json(right[key]),
        )
}

proof fn lemma_received_shards(
    held: Map<Seq<char>, GraphSnapshotShardModel>,
    result: GraphSnapshotResultModel,
    shards: Map<Seq<char>, GraphSnapshotShardModel>,
)
    requires
        followed(shard_digests(held), result) == shard_digests(shards),
        holds_sealed(held),
        holds_sealed(shards),
        collide_nowhere(held, shards),
        forall|i: int|
            0 <= i < result.upserts.len() ==> shards.contains_key(
                (#[trigger] result.upserts[i]).key,
            ) && shards[result.upserts[i].key] == result.upserts[i],
    ensures
        received(held, result) == shards,
{
    let after = received(held, result);
    let base = match result.base_generation {
        Some(_) => held.remove_keys(result.deletes.to_set()),
        None => Map::empty(),
    };
    lemma_received(held, result);
    lemma_shards_upserted(base, result.upserts);
    assert forall|key: Seq<char>| #[trigger] after.contains_key(key) <==> shards.contains_key(
        key,
    ) by {
        assert(shard_digests(after).contains_key(key) == shard_digests(shards).contains_key(key));
    }
    assert forall|key: Seq<char>| #[trigger] after.contains_key(key) implies after[key]
        == shards[key] by {
        assert(shards.contains_key(key));
        assert(shard_digests(after)[key] == shard_digests(shards)[key]);
        if base.contains_key(key) && after[key] == base[key] {
            assert(held.contains_key(key) && after[key] == held[key]);
            law_shard_digest_identifies(held[key], shards[key]);
        } else {
            let i = choose|i: int|
                0 <= i < result.upserts.len() && (#[trigger] result.upserts[i]).key == key
                    && after[key] == result.upserts[i];
            assert(shards[result.upserts[i].key] == result.upserts[i]);
        }
    }
    assert(after =~= shards);
}

/// A client that holds the shards of the snapshot that it asks with, or asks with one that the
/// answer does not build on, holds exactly the shards of the snapshot once it followed the answer.
pub proof fn law_answer_brings_the_shards(
    cached: CachedSnapshotModel,
    known: Option<Seq<char>>,
    cache_hit: bool,
    held: Map<Seq<char>, GraphSnapshotShardModel>,
)
    requires
        is_consistent(cached),
        known == Some(cached.generation) ==> held == cached.shards,
        known != Some(cached.generation) ==> known != cached.delta_base,
    ensures
        received(held, answer(planned(cached, known, cache_hit))) == cached.shards,
{
    let result = answer(planned(cached, known, cache_hit));
    let after = received(held, result);
    if known == Some(cached.generation) {
        assert(held.remove_keys(result.deletes.to_set()) =~= held);
    } else {
        let list = ordered_values::<String, GraphSnapshotShardModel>(cached.shards);
        lemma_shard_list(cached.shards);
        law_answer_is_complete(cached, known, cache_hit, shard_digests(held));
        lemma_received(held, result);
        lemma_shards_upserted(Map::empty(), list);
        assert forall|key: Seq<char>| #[trigger] after.contains_key(key) <==> cached.shards.contains_key(
            key,
        ) by {
            assert(shard_digests(after).contains_key(key) == shard_digests(
                cached.shards,
            ).contains_key(key));
        }
        assert forall|key: Seq<char>| #[trigger] after.contains_key(key) implies after[key]
            == cached.shards[key] by {
            let i = choose|i: int|
                0 <= i < list.len() && (#[trigger] list[i]).key == key && after[key] == list[i];
            assert(cached.shards[list[i].key] == list[i]);
        }
        assert(after =~= cached.shards);
    }
}

/// Every shard that an answer brings is one of the snapshot.
proof fn lemma_answer_shards(cached: CachedSnapshotModel, known: Option<Seq<char>>, cache_hit: bool)
    requires
        is_consistent(cached),
    ensures
        ({
            let result = answer(planned(cached, known, cache_hit));
            forall|i: int|
                0 <= i < result.upserts.len() ==> cached.shards.contains_key(
                    (#[trigger] result.upserts[i]).key,
                ) && cached.shards[result.upserts[i].key] == result.upserts[i]
        }),
{
    let result = answer(planned(cached, known, cache_hit));
    let list = ordered_values::<String, GraphSnapshotShardModel>(cached.shards);
    lemma_shard_list(cached.shards);
    assert forall|i: int| 0 <= i < result.upserts.len() implies cached.shards.contains_key(
        (#[trigger] result.upserts[i]).key,
    ) && cached.shards[result.upserts[i].key] == result.upserts[i] by {
        assert(result.upserts[i] == list[i] || result.upserts[i] == cached.delta_upserts[i]);
    }
}

/// A client that asks with the generation that a snapshot was committed after, and holds the shards
/// of that snapshot, holds exactly the shards of the new snapshot once it followed the answer,
/// unless there is a collision. One that asks without a generation for the first snapshot may hold
/// anything.
pub proof fn law_delta_brings_the_shards(
    committed: Option<CachedSnapshotModel>,
    sequence: u64,
    commit: CommitModel,
    cache_hit: bool,
    held: Map<Seq<char>, GraphSnapshotShardModel>,
)
    requires
        are_sealed(commit.built.shards),
        committed is Some ==> {
            let cached = next_snapshot(committed, sequence, commit);
            &&& is_consistent(committed->0)
            &&& holds_sealed(committed->0.shards)
            &&& held == committed->0.shards
            &&& !collide(
                generation_json(committed->0.universe.digest, committed->0.manifest),
                generation_json(commit.universe.digest, cached.manifest),
            )
            &&& collide_nowhere(committed->0.shards, cached.shards)
        },
    ensures
        ({
            let cached = next_snapshot(committed, sequence, commit);
            received(held, answer(planned(cached, cached.delta_base, cache_hit))) == cached.shards
        }),
{
    let cached = next_snapshot(committed, sequence, commit);
    let result = answer(planned(cached, cached.delta_base, cache_hit));
    let start = if committed is Some {
        held
    } else {
        Map::<Seq<char>, GraphSnapshotShardModel>::empty()
    };
    law_commit_is_consistent(committed, sequence, commit);
    law_commit_stays_sealed(committed, sequence, commit);
    law_delta_is_complete(committed, sequence, commit, cache_hit, shard_digests(start));
    lemma_answer_shards(cached, cached.delta_base, cache_hit);
    lemma_received_shards(start, result, cached.shards);
}

/// Whether a request has built nothing but sealed shards so far.
pub open spec fn has_sealed(state: HandleStateModel) -> bool {
    match state {
        HandleStateModel::BuildInputs(pending) => are_sealed(pending.built.shards),
        HandleStateModel::BuildModel(pending) => are_sealed(pending.built.shards),
        HandleStateModel::BuildUniverse(pending) => are_sealed(pending.built.shards),
        HandleStateModel::BuildFence(pending) => are_sealed(pending.built.shards),
        _ => true,
    }
}

/// Whether a snapshot holds and hands out nothing but sealed shards.
pub open spec fn is_sealed_snapshot(cached: CachedSnapshotModel) -> bool {
    holds_sealed(cached.shards) && are_sealed(cached.delta_upserts)
}

/// Whether a cache holds no snapshot but one with sealed shards.
pub open spec fn is_sealed_cache(cache: GraphSnapshotCacheModel) -> bool {
    cache.committed is Some ==> is_sealed_snapshot(cache.committed->0)
}

proof fn lemma_listed_sealed(shards: Map<Seq<char>, GraphSnapshotShardModel>)
    requires
        is_keyed(shards),
        holds_sealed(shards),
    ensures
        are_sealed(ordered_values::<String, GraphSnapshotShardModel>(shards)),
{
    lemma_shard_list(shards);
}

proof fn lemma_next_sealed(
    committed: Option<CachedSnapshotModel>,
    sequence: u64,
    commit: CommitModel,
)
    requires
        committed is Some ==> is_consistent(committed->0) && holds_sealed(committed->0.shards),
        are_sealed(commit.built.shards),
    ensures
        is_sealed_snapshot(next_snapshot(committed, sequence, commit)),
{
    let cached = next_snapshot(committed, sequence, commit);
    law_commit_is_consistent(committed, sequence, commit);
    law_commit_stays_sealed(committed, sequence, commit);
    assert forall|i: int| 0 <= i < cached.delta_upserts.len() implies is_sealed(
        #[trigger] cached.delta_upserts[i],
    ) by {
        assert(cached.shards.contains_key(cached.delta_upserts[i].key));
    }
}

proof fn lemma_answer_sealed(cached: CachedSnapshotModel, known: Option<Seq<char>>, cache_hit: bool)
    requires
        is_consistent(cached),
        is_sealed_snapshot(cached),
    ensures
        are_sealed(answer(planned(cached, known, cache_hit)).upserts),
{
    lemma_listed_sealed(cached.shards);
}

/// Every step of a request keeps the shards in a cache sealed, and every shard that is handed out is
/// sealed: the digests by which clients are told what changed are those of the shards.
pub proof fn law_requests_stay_sealed(
    files: Map<FileId, SourceFileModel>,
    request: HandleRequestModel,
    state: HandleStateModel,
    event: HandleEventModel,
    before: GraphSnapshotCacheModel,
    after: GraphSnapshotCacheModel,
    progress: HandleProgressModel,
)
    requires
        is_step(files, request, state, event, before, after, progress),
        is_sound(files, request, state),
        has_sealed(state),
        holds_consistent(before),
        is_sealed_cache(before),
    ensures
        is_sealed_cache(after),
        progress matches HandleProgressModel::Waiting(next) ==> has_sealed(next),
        progress matches HandleProgressModel::Answered(result) ==> are_sealed(result.upserts),
{
    law_requests_answer_from_current(files, request, state, event, before, after, progress);
    match (state, event) {
        (
            HandleStateModel::BuildSources(pending),
            HandleEventModel::SourcesValidated { inputs },
        ) => {
            if progress is Waiting {
                let next = progress->Waiting_0->BuildInputs_0;
                law_built_shards_are_sealed(
                    files,
                    pending.index,
                    pending.universe.target,
                    pending.interface_fingerprints,
                    next.source_inputs,
                    if pending.full_rebuild {
                        Map::<Seq<char>, Seq<char>>::empty()
                    } else {
                        retained_owners(
                            pending.plan.node_owners,
                            paths_of(files, indexed_files(pending.index.files)),
                        )
                    },
                    next.built,
                );
            }
        },
        (
            HandleStateModel::BuildFence(pending),
            HandleEventModel::Fenced { external_epoch, source_epoch, phases },
        ) => {
            let drained = external_events_drained(before, external_epoch);
            lemma_next_sealed(
                drained.committed,
                next_number(drained.sequence),
                commit_of(files, request, pending, phases),
            );
        },
        (
            HandleStateModel::CheckpointFence(pending),
            HandleEventModel::Fenced { external_epoch, source_epoch, phases },
        ) => {
            law_checkpoint_is_sealed(
                files,
                request.producer,
                pending.universe,
                request.params.checkpoint->0,
                request.params.known_generation,
                pending.source_inputs,
                pending.parts,
            );
        },
        _ => {},
    }
    if progress is Answered {
        lemma_answer_sealed(current_of(after)->0, request.params.known_generation, true);
    }
}

/// A client that asks with the generation of an earlier answer, and holds the shards that the
/// manifest of that answer lists, holds exactly the shards of the current snapshot once it followed
/// the new answer, be it a delta or not, and be it answered from the cache or not. Collisions of
/// generations and of shards are left out.
pub proof fn law_requests_bring_the_shards(
    files: Map<FileId, SourceFileModel>,
    request: HandleRequestModel,
    state: HandleStateModel,
    event: HandleEventModel,
    before: GraphSnapshotCacheModel,
    after: GraphSnapshotCacheModel,
    earlier: GraphSnapshotResultModel,
    known: Option<Seq<char>>,
    held: Map<Seq<char>, GraphSnapshotShardModel>,
    result: GraphSnapshotResultModel,
)
    requires
        is_step(files, request, state, event, before, after, HandleProgressModel::Answered(result)),
        is_sound(files, request, state),
        has_sealed(state),
        holds_consistent(before),
        is_sealed_cache(before),
        is_answer(earlier, known),
        request.params.known_generation == Some(earlier.generation),
        holds_sealed(held),
        shard_digests(held) == manifest_digests(earlier.manifest),
        !collide(
            generation_json(earlier.universe.digest, earlier.manifest),
            generation_json(result.universe.digest, result.manifest),
        ),
        current_of(after) is Some ==> !collide(
            generation_json(earlier.universe.digest, earlier.manifest),
            generation_json(
                base_of(current_of(after)->0).0,
                base_of(current_of(after)->0).1,
            ),
        ) && collide_nowhere(held, current_of(after)->0.shards),
    ensures
        current_of(after) is Some,
        received(held, result) == current_of(after)->0.shards,
{
    let progress = HandleProgressModel::Answered(result);
    law_requests_answer_from_current(files, request, state, event, before, after, progress);
    law_requests_stay_sealed(files, request, state, event, before, after, progress);
    law_requests_follow(
        files,
        request,
        state,
        event,
        before,
        after,
        earlier,
        known,
        result,
    );
    let cached = current_of(after)->0;
    lemma_answer_shards(cached, request.params.known_generation, true);
    lemma_received_shards(held, result, cached.shards);
}

} // verus!
