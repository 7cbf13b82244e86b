//! What holds of every snapshot in a cache, of every answer, and of every change of a cache.

use vstd::prelude::*;

use crate::cache::{
    CachedSnapshotModel, GraphSnapshotCacheModel, all_invalidated, answer, current_of, empty_cache,
    external_events_drained, files_invalidated, next_number, planned, source_events_drained,
    universe_invalidated,
};
use crate::checkpoint::{
    CheckpointPartsModel, checkpoint_installed, checkpoint_parts, manifest_map,
    digests_by_path, restored, shards_collected, sorted_manifest,
};
use crate::commit::{
    CommitModel, all_shards, changed_shards, committed_manifest, gone_keys, manifest_of, merged,
    next_snapshot, retained, snapshot_committed,
};
use crate::error::GraphErrorModel;
use crate::files::{FileId, SourceFileModel};
use crate::handle::{
    HandleEventModel, HandleProgressModel, HandleRequestModel, HandleStateModel,
    PendingCheckpointModel, commit_of, is_step,
};
use crate::json::json_digest;
use crate::order::Key;
use crate::sealing::{collide, law_generation_identifies};
use crate::shards::generation_json;
use crate::snapshot::{
    GraphSnapshotCheckpointModel, GraphSnapshotManifestEntry, GraphSnapshotManifestEntryModel,
    GraphSnapshotProducerModel, GraphSnapshotResultModel, GraphSnapshotShardModel,
    GraphSnapshotUniverseModel, PROTOCOL_VERSION, SCHEMA_VERSION,
};
use crate::sorting::{
    lemma_repeats_dropped, lemma_stable_sorted, ranks_before, stable_sorted,
};
use crate::table::{lemma_ordered_lists, lists, ordered, ordered_values};

verus! {

/// Whether the entries of a manifest are in strictly increasing key order.
pub open spec fn is_increasing(manifest: Seq<GraphSnapshotManifestEntryModel>) -> bool {
    forall|i: int, j: int|
        0 <= i < j < manifest.len() ==> <String as Key>::before(
            (#[trigger] manifest[i]).key,
            (#[trigger] manifest[j]).key,
        )
}

/// The digests of shards, by key.
pub open spec fn shard_digests(shards: Map<Seq<char>, GraphSnapshotShardModel>) -> Map<
    Seq<char>,
    Seq<char>,
> {
    Map::new(|key: Seq<char>| shards.contains_key(key), |key: Seq<char>| shards[key].digest)
}

/// Whether each of finitely many shards has the key under which it is found.
pub open spec fn is_keyed(shards: Map<Seq<char>, GraphSnapshotShardModel>) -> bool {
    &&& shards.dom().finite()
    &&& forall|key: Seq<char>| #[trigger] shards.contains_key(key) ==> shards[key].key == key
}

/// The digests of all entries of a manifest, by key.
pub open spec fn manifest_digests(manifest: Seq<GraphSnapshotManifestEntryModel>) -> Map<
    Seq<char>,
    Seq<char>,
> {
    manifest_map(manifest, manifest.len() as int)
}

/// Digests, by key, with those of shards put in.
pub open spec fn upserted(
    held: Map<Seq<char>, Seq<char>>,
    upserts: Seq<GraphSnapshotShardModel>,
) -> Map<Seq<char>, Seq<char>>
    decreases upserts.len(),
{
    if upserts.len() == 0 {
        held
    } else {
        upserted(held, upserts.drop_last()).insert(upserts.last().key, upserts.last().digest)
    }
}

/// Digests, by key, without those that the delta of a snapshot deletes and with those that it
/// brings.
pub open spec fn advanced(held: Map<Seq<char>, Seq<char>>, cached: CachedSnapshotModel) -> Map<
    Seq<char>,
    Seq<char>,
> {
    upserted(held.remove_keys(cached.delta_deletes.to_set()), cached.delta_upserts)
}

/// Whether the delta of a snapshot builds on a manifest under a universe: its base is the
/// generation of the two, and it leads from that manifest to the snapshot's own.
pub open spec fn is_base(
    cached: CachedSnapshotModel,
    universe: Seq<char>,
    manifest: Seq<GraphSnapshotManifestEntryModel>,
) -> bool {
    &&& cached.delta_base == Some(json_digest(generation_json(universe, manifest)))
    &&& is_increasing(manifest)
    &&& advanced(manifest_digests(manifest), cached) == manifest_digests(cached.manifest)
}

/// The universe and the manifest that the delta of a snapshot builds on.
pub open spec fn base_of(cached: CachedSnapshotModel) -> (
    Seq<char>,
    Seq<GraphSnapshotManifestEntryModel>,
) {
    choose|base: (Seq<char>, Seq<GraphSnapshotManifestEntryModel>)| #[trigger]
        is_base(cached, base.0, base.1)
}

/// Whether the delta of a snapshot is one: it brings shards of the snapshot only, it deletes no key
/// of the snapshot, and it leads from the manifest that its base stands for to that of the
/// snapshot. Without a base it deletes nothing, and brings all shards or none.
pub open spec fn is_delta(cached: CachedSnapshotModel) -> bool {
    &&& forall|i: int|
        0 <= i < cached.delta_upserts.len() ==> cached.shards.contains_key(
            (#[trigger] cached.delta_upserts[i]).key,
        ) && cached.shards[cached.delta_upserts[i].key] == cached.delta_upserts[i]
    &&& forall|i: int|
        0 <= i < cached.delta_deletes.len() ==> !cached.shards.contains_key(
            #[trigger] cached.delta_deletes[i],
        )
    &&& match cached.delta_base {
        Some(_) => exists|base: (Seq<char>, Seq<GraphSnapshotManifestEntryModel>)| #[trigger]
            is_base(cached, base.0, base.1),
        None => {
            &&& cached.delta_deletes.len() == 0
            &&& cached.delta_upserts.len() == 0 || advanced(Map::empty(), cached)
                == manifest_digests(cached.manifest)
        },
    }
}

/// Whether a snapshot is consistent: its shards have the keys under which they are found, its
/// manifest lists exactly them in increasing key order with their digests, its generation is the
/// digest of its universe and its manifest, and its delta leads to its manifest.
pub open spec fn is_consistent(cached: CachedSnapshotModel) -> bool {
    &&& is_keyed(cached.shards)
    &&& is_increasing(cached.manifest)
    &&& manifest_digests(cached.manifest) == shard_digests(cached.shards)
    &&& cached.generation == json_digest(generation_json(cached.universe.digest, cached.manifest))
    &&& is_delta(cached)
}

/// Whether a cache holds no snapshot but a consistent one.
pub open spec fn holds_consistent(cache: GraphSnapshotCacheModel) -> bool {
    cache.committed is Some ==> is_consistent(cache.committed->0)
}

proof fn lemma_distinct_keys(manifest: Seq<GraphSnapshotManifestEntryModel>, i: int, j: int)
    requires
        is_increasing(manifest),
        0 <= i < manifest.len(),
        0 <= j < manifest.len(),
        manifest[i].key == manifest[j].key,
    ensures
        i == j,
{
    if i < j {
        assert(<String as Key>::before(manifest[i].key, manifest[j].key));
        <String as Key>::lemma_irreflexive(manifest[i].key);
    } else if j < i {
        assert(<String as Key>::before(manifest[j].key, manifest[i].key));
        <String as Key>::lemma_irreflexive(manifest[i].key);
    }
}

/// A manifest in increasing order gives each of its keys the digest beside it.
pub proof fn lemma_manifest_map(manifest: Seq<GraphSnapshotManifestEntryModel>, count: int)
    requires
        is_increasing(manifest),
        0 <= count <= manifest.len(),
    ensures
        manifest_map(manifest, count).dom().finite(),
        manifest_map(manifest, count).len() == count,
        forall|i: int|
            0 <= i < count ==> manifest_map(manifest, count).contains_key(
                (#[trigger] manifest[i]).key,
            ) && manifest_map(manifest, count)[manifest[i].key] == manifest[i].digest,
        forall|key: Seq<char>| #[trigger]
            manifest_map(manifest, count).contains_key(key) ==> exists|i: int|
                0 <= i < count && (#[trigger] manifest[i]).key == key,
    decreases count,
{
    if count > 0 {
        lemma_manifest_map(manifest, count - 1);
        let before = manifest_map(manifest, count - 1);
        let last = manifest[count - 1];
        if before.contains_key(last.key) {
            let i = choose|i: int| 0 <= i < count - 1 && (#[trigger] manifest[i]).key == last.key;
            lemma_distinct_keys(manifest, i, count - 1);
        }
        assert(manifest_map(manifest, count).dom() =~= before.dom().insert(last.key));
        assert forall|i: int| 0 <= i < count implies manifest_map(manifest, count).contains_key(
            (#[trigger] manifest[i]).key,
        ) && manifest_map(manifest, count)[manifest[i].key] == manifest[i].digest by {
            if i < count - 1 && manifest[i].key == last.key {
                lemma_distinct_keys(manifest, i, count - 1);
            }
        }
        assert forall|key: Seq<char>| #[trigger]
            manifest_map(manifest, count).contains_key(key) implies exists|i: int|
            0 <= i < count && (#[trigger] manifest[i]).key == key by {
            if key == last.key {
                assert(manifest[count - 1].key == key);
            } else {
                assert(before.contains_key(key));
            }
        }
    } else {
        assert(manifest_map(manifest, 0).dom() =~= Set::empty());
    }
}

/// What is known of the list of keyed shards.
pub proof fn lemma_shard_list(shards: Map<Seq<char>, GraphSnapshotShardModel>)
    requires
        is_keyed(shards),
    ensures
        ({
            let list = ordered_values::<String, GraphSnapshotShardModel>(shards);
            &&& forall|i: int|
                0 <= i < list.len() ==> shards.contains_key((#[trigger] list[i]).key)
                    && shards[list[i].key] == list[i]
            &&& forall|key: Seq<char>| #[trigger]
                shards.contains_key(key) ==> exists|i: int|
                    0 <= i < list.len() && (#[trigger] list[i]).key == key
            &&& is_increasing(manifest_of(list))
        }),
{
    lemma_ordered_lists::<String, GraphSnapshotShardModel>(shards);
    let listing = ordered::<String, GraphSnapshotShardModel>(shards);
    let list = ordered_values::<String, GraphSnapshotShardModel>(shards);
    assert forall|i: int| 0 <= i < list.len() implies shards.contains_key((#[trigger] list[i]).key)
        && shards[list[i].key] == list[i] && list[i].key == listing[i].0 by {
        assert(list[i] == listing[i].1);
        assert(shards.contains_key(listing[i].0));
    }
    assert forall|key: Seq<char>| #[trigger] shards.contains_key(key) implies exists|i: int|
        0 <= i < list.len() && (#[trigger] list[i]).key == key by {
        let i = choose|i: int| 0 <= i < listing.len() && (#[trigger] listing[i]).0 == key;
        assert(list[i].key == key);
    }
    let manifest = manifest_of(list);
    assert forall|i: int, j: int| 0 <= i < j < manifest.len() implies <String as Key>::before(
        (#[trigger] manifest[i]).key,
        (#[trigger] manifest[j]).key,
    ) by {
        assert(manifest[i].key == list[i].key && manifest[j].key == list[j].key);
        assert(<String as Key>::before(listing[i].0, listing[j].0));
    }
}

/// The manifest of keyed shards gives each of them its digest.
proof fn lemma_manifest_of(shards: Map<Seq<char>, GraphSnapshotShardModel>)
    requires
        is_keyed(shards),
    ensures
        ({
            let manifest = manifest_of(ordered_values::<String, GraphSnapshotShardModel>(shards));
            is_increasing(manifest) && manifest_digests(manifest) == shard_digests(shards)
        }),
{
    lemma_shard_list(shards);
    let list = ordered_values::<String, GraphSnapshotShardModel>(shards);
    let manifest = manifest_of(list);
    lemma_manifest_map(manifest, manifest.len() as int);
    let digests = manifest_digests(manifest);
    assert forall|key: Seq<char>| #[trigger]
        digests.contains_key(key) <==> shard_digests(shards).contains_key(key) by {
        if digests.contains_key(key) {
            let i = choose|i: int| 0 <= i < manifest.len() && (#[trigger] manifest[i]).key == key;
            assert(list[i].key == key);
        }
        if shards.contains_key(key) {
            let i = choose|i: int| 0 <= i < list.len() && (#[trigger] list[i]).key == key;
            assert(manifest[i].key == key);
        }
    }
    assert forall|key: Seq<char>| #[trigger] digests.contains_key(key) implies digests[key]
        == shard_digests(shards)[key] by {
        let i = choose|i: int| 0 <= i < manifest.len() && (#[trigger] manifest[i]).key == key;
        assert(list[i].key == key);
    }
    assert(digests =~= shard_digests(shards));
}

proof fn lemma_merged_keyed(
    shards: Map<Seq<char>, GraphSnapshotShardModel>,
    built: Seq<GraphSnapshotShardModel>,
    count: int,
)
    requires
        is_keyed(shards),
    ensures
        is_keyed(merged(shards, built, count)),
    decreases count,
{
    if count > 0 {
        lemma_merged_keyed(shards, built, count - 1);
    }
}

proof fn lemma_gone_keys(
    before: Seq<(Seq<char>, Seq<char>)>,
    now: Map<Seq<char>, Seq<char>>,
    count: int,
    key: Seq<char>,
)
    requires
        0 <= count <= before.len(),
    ensures
        gone_keys(before, now, count).contains(key) <==> !now.contains_key(key) && exists|i: int|
            0 <= i < count && (#[trigger] before[i]).0 == key,
    decreases count,
{
    if count > 0 {
        lemma_gone_keys(before, now, count - 1, key);
        let shorter = gone_keys(before, now, count - 1);
        let gone = gone_keys(before, now, count);
        if shorter.contains(key) {
            let i = choose|i: int| 0 <= i < shorter.len() && shorter[i] == key;
            assert(gone[i] == key);
        }
        if before[count - 1].0 == key && !now.contains_key(key) {
            assert(gone[shorter.len() as int] == key);
        }
        if gone.contains(key) {
            let i = choose|i: int| 0 <= i < gone.len() && gone[i] == key;
            if i < shorter.len() {
                assert(shorter[i] == key);
            } else {
                assert(before[count - 1].0 == key);
            }
        }
    }
}

/// Whether a key is that of one of the first shards.
spec fn is_among(list: Seq<GraphSnapshotShardModel>, count: int, key: Seq<char>) -> bool {
    exists|i: int| 0 <= i < count && (#[trigger] list[i]).key == key
}

/// Putting in the changed ones of the first shards gives each of the first shards its digest and
/// leaves other keys alone, where those that did not change are held already.
proof fn lemma_upserted(
    before: Map<Seq<char>, Seq<char>>,
    held: Map<Seq<char>, Seq<char>>,
    list: Seq<GraphSnapshotShardModel>,
    count: int,
)
    requires
        0 <= count <= list.len(),
        is_increasing(manifest_of(list)),
        forall|i: int|
            0 <= i < list.len() && before.contains_key((#[trigger] list[i]).key)
                && before[list[i].key] == list[i].digest ==> held.contains_key(list[i].key)
                && held[list[i].key] == list[i].digest,
    ensures
        ({
            let result = upserted(held, changed_shards(before, list, count));
            &&& forall|i: int|
                0 <= i < count ==> result.contains_key((#[trigger] list[i]).key)
                    && result[list[i].key] == list[i].digest
            &&& forall|key: Seq<char>|
                !#[trigger] is_among(list, count, key) ==> (result.contains_key(key)
                    <==> held.contains_key(key)) && (held.contains_key(key) ==> result[key]
                    == held[key])
        }),
    decreases count,
{
    if count > 0 {
        lemma_upserted(before, held, list, count - 1);
        let shard = list[count - 1];
        let changed = changed_shards(before, list, count - 1);
        let prior = upserted(held, changed);
        let result = upserted(held, changed_shards(before, list, count));
        let known = before.contains_key(shard.key) && before[shard.key] == shard.digest;
        if !known {
            assert(changed.push(shard).drop_last() =~= changed);
            assert(result == prior.insert(shard.key, shard.digest));
        }
        if is_among(list, count - 1, shard.key) {
            let i = choose|i: int| 0 <= i < count - 1 && (#[trigger] list[i]).key == shard.key;
            let manifest = manifest_of(list);
            assert(manifest[i].key == manifest[count - 1].key);
            lemma_distinct_keys(manifest, i, count - 1);
        }
        assert forall|i: int| 0 <= i < count implies result.contains_key((#[trigger] list[i]).key)
            && result[list[i].key] == list[i].digest by {
            if i < count - 1 {
                assert(is_among(list, count - 1, list[i].key));
            }
        }
        assert forall|key: Seq<char>| !#[trigger] is_among(list, count, key) implies (
        result.contains_key(key) <==> held.contains_key(key)) && (held.contains_key(key)
            ==> result[key] == held[key]) by {
            if is_among(list, count - 1, key) {
                let i = choose|i: int| 0 <= i < count - 1 && (#[trigger] list[i]).key == key;
                assert(list[i].key == key);
            }
            assert(list[count - 1].key != key);
        }
    } else {
        assert(changed_shards(before, list, count) =~= Seq::empty());
    }
}

proof fn lemma_changed_shards(
    before: Map<Seq<char>, Seq<char>>,
    list: Seq<GraphSnapshotShardModel>,
    count: int,
    index: int,
)
    requires
        0 <= count <= list.len(),
        0 <= index < changed_shards(before, list, count).len(),
    ensures
        list.contains(changed_shards(before, list, count)[index]),
    decreases count,
{
    if count > 0 {
        if index < changed_shards(before, list, count - 1).len() {
            lemma_changed_shards(before, list, count - 1, index);
        } else {
            assert(changed_shards(before, list, count)[index] == list[count - 1]);
        }
    }
}

/// The delta of a committed snapshot leads from what was committed before to what is now.
proof fn lemma_advanced(committed: Option<CachedSnapshotModel>, sequence: u64, commit: CommitModel)
    requires
        committed is Some ==> is_increasing(committed->0.manifest),
        is_keyed(all_shards(committed, commit)),
    ensures
        ({
            let cached = next_snapshot(committed, sequence, commit);
            advanced(committed_manifest(committed), cached) == manifest_digests(cached.manifest)
        }),
{
    let cached = next_snapshot(committed, sequence, commit);
    let list = ordered_values::<String, GraphSnapshotShardModel>(cached.shards);
    lemma_shard_list(cached.shards);
    lemma_manifest_of(cached.shards);
    let before = committed_manifest(committed);
    let listing = ordered::<String, Seq<char>>(before);
    let now = manifest_digests(cached.manifest);
    if committed is Some {
        lemma_manifest_map(committed->0.manifest, committed->0.manifest.len() as int);
    }
    lemma_ordered_lists::<String, Seq<char>>(before);
    let base = before.remove_keys(cached.delta_deletes.to_set());
    assert forall|key: Seq<char>| #[trigger] base.contains_key(key) <==> before.contains_key(key)
        && now.contains_key(key) by {
        lemma_gone_keys(listing, now, listing.len() as int, key);
        if before.contains_key(key) {
            let i = choose|i: int| 0 <= i < listing.len() && (#[trigger] listing[i]).0 == key;
            assert(listing[i].0 == key);
        }
    }
    assert forall|i: int|
        0 <= i < list.len() && before.contains_key((#[trigger] list[i]).key)
            && before[list[i].key] == list[i].digest implies base.contains_key(list[i].key)
        && base[list[i].key] == list[i].digest by {
        assert(cached.shards.contains_key(list[i].key));
        assert(shard_digests(cached.shards).contains_key(list[i].key));
        assert(base.contains_key(list[i].key));
    }
    lemma_upserted(before, base, list, list.len() as int);
    let after = advanced(before, cached);
    assert forall|key: Seq<char>| #[trigger]
        after.contains_key(key) <==> shard_digests(cached.shards).contains_key(key) by {
        if cached.shards.contains_key(key) {
            let i = choose|i: int| 0 <= i < list.len() && (#[trigger] list[i]).key == key;
            assert(after.contains_key(list[i].key));
        } else {
            assert(!is_among(list, list.len() as int, key));
            assert(!now.contains_key(key));
            assert(!base.contains_key(key));
        }
    }
    assert forall|key: Seq<char>| #[trigger] after.contains_key(key) implies after[key]
        == shard_digests(cached.shards)[key] by {
        assert(cached.shards.contains_key(key));
        let i = choose|i: int| 0 <= i < list.len() && (#[trigger] list[i]).key == key;
        assert(after[list[i].key] == list[i].digest);
    }
    assert(after =~= shard_digests(cached.shards));
}

proof fn lemma_delta(committed: Option<CachedSnapshotModel>, sequence: u64, commit: CommitModel)
    requires
        committed is Some ==> is_consistent(committed->0),
        is_keyed(all_shards(committed, commit)),
    ensures
        is_delta(next_snapshot(committed, sequence, commit)),
{
    let cached = next_snapshot(committed, sequence, commit);
    let list = ordered_values::<String, GraphSnapshotShardModel>(cached.shards);
    let before = committed_manifest(committed);
    let listing = ordered::<String, Seq<char>>(before);
    let now = manifest_digests(cached.manifest);
    lemma_shard_list(cached.shards);
    lemma_manifest_of(cached.shards);
    if committed is Some {
        lemma_manifest_map(committed->0.manifest, committed->0.manifest.len() as int);
    }
    lemma_ordered_lists::<String, Seq<char>>(before);
    assert forall|i: int| 0 <= i < cached.delta_upserts.len() implies cached.shards.contains_key(
        (#[trigger] cached.delta_upserts[i]).key,
    ) && cached.shards[cached.delta_upserts[i].key] == cached.delta_upserts[i] by {
        lemma_changed_shards(before, list, list.len() as int, i);
    }
    assert forall|i: int| 0 <= i < cached.delta_deletes.len() implies !cached.shards.contains_key(
        #[trigger] cached.delta_deletes[i],
    ) by {
        lemma_gone_keys(listing, now, listing.len() as int, cached.delta_deletes[i]);
        assert(!shard_digests(cached.shards).contains_key(cached.delta_deletes[i]));
    }
    lemma_advanced(committed, sequence, commit);
    match committed {
        Some(last) => {
            let base = (last.universe.digest, last.manifest);
            assert(is_base(cached, base.0, base.1));
        },
        None => {
            if listing.len() > 0 {
                assert(before.contains_key(listing[0].0));
            }
            assert(before =~= Map::empty());
        },
    }
}

/// A committed snapshot is consistent, whatever was built, if the one before it was.
pub proof fn law_commit_is_consistent(
    committed: Option<CachedSnapshotModel>,
    sequence: u64,
    commit: CommitModel,
)
    requires
        committed is Some ==> is_consistent(committed->0),
    ensures
        is_consistent(next_snapshot(committed, sequence, commit)),
{
    let start: Map<Seq<char>, GraphSnapshotShardModel> = if commit.full_rebuild || committed is None {
        Map::empty()
    } else {
        retained(committed->0.shards, commit.dirty_sources)
    };
    if !commit.full_rebuild && committed is Some {
        assert(start.dom().subset_of(committed->0.shards.dom()));
        vstd::set_lib::lemma_set_subset_finite(committed->0.shards.dom(), start.dom());
    }
    lemma_merged_keyed(start, commit.built.shards, commit.built.shards.len() as int);
    lemma_manifest_of(all_shards(committed, commit));
    lemma_delta(committed, sequence, commit);
}

/// The manifest of a checkpoint, once sorted, is in increasing key order.
proof fn lemma_sorted_manifest(manifest: Seq<GraphSnapshotManifestEntryModel>)
    ensures
        is_increasing(sorted_manifest(manifest)),
{
    let sorted = stable_sorted::<GraphSnapshotManifestEntry>(manifest);
    lemma_stable_sorted::<GraphSnapshotManifestEntry>(manifest);
    lemma_repeats_dropped::<GraphSnapshotManifestEntry>(sorted);
    let kept = sorted_manifest(manifest);
    assert forall|i: int, j: int| 0 <= i < j < kept.len() implies <String as Key>::before(
        (#[trigger] kept[i]).key,
        (#[trigger] kept[j]).key,
    ) by {
        assert(ranks_before::<GraphSnapshotManifestEntry>(kept[i], kept[j]));
    }
}

/// The shards that are collected of a checkpoint are keyed, as many as were looked at, and have the
/// digests that the manifest gives.
proof fn lemma_shards_collected(
    target: Seq<char>,
    sources: Map<Seq<char>, Seq<char>>,
    manifest: Map<Seq<char>, Seq<char>>,
    shards: Seq<GraphSnapshotShardModel>,
    count: int,
)
    requires
        0 <= count,
        shards_collected(target, sources, manifest, shards, count) is Some,
    ensures
        ({
            let found = shards_collected(target, sources, manifest, shards, count)->0.shards;
            &&& is_keyed(found)
            &&& found.len() == count
            &&& forall|key: Seq<char>| #[trigger]
                found.contains_key(key) ==> manifest.contains_key(key) && manifest[key]
                    == found[key].digest
        }),
    decreases count,
{
    if count > 0 {
        lemma_shards_collected(target, sources, manifest, shards, count - 1);
        let before = shards_collected(target, sources, manifest, shards, count - 1)->0.shards;
        let shard = shards[count - 1];
        let found = shards_collected(target, sources, manifest, shards, count)->0.shards;
        assert(found == before.insert(shard.key, shard));
        assert(found.dom() =~= before.dom().insert(shard.key));
    } else {
        assert(shards_collected(target, sources, manifest, shards, count)->0.shards.dom()
            =~= Set::empty());
    }
}

/// The snapshot that a valid checkpoint stands for is consistent.
pub proof fn law_checkpoint_is_consistent(
    files: Map<FileId, SourceFileModel>,
    producer: GraphSnapshotProducerModel,
    universe: GraphSnapshotUniverseModel,
    checkpoint: GraphSnapshotCheckpointModel,
    known: Option<Seq<char>>,
    source_inputs: Map<FileId, Seq<char>>,
    parts: CheckpointPartsModel,
    revision: u64,
    sequence: u64,
)
    requires
        checkpoint_parts(files, producer, universe, checkpoint, known, source_inputs) == Ok::<
            CheckpointPartsModel,
            GraphErrorModel,
        >(parts),
    ensures
        is_consistent(
            restored(
                revision,
                sequence,
                producer,
                universe,
                checkpoint.generation,
                parts,
                source_inputs,
            ),
        ),
{
    let inputs = ordered::<FileId, Seq<char>>(source_inputs);
    let sources = digests_by_path(files, inputs, inputs.len() as int);
    let manifest = sorted_manifest(checkpoint.manifest);
    let digests = manifest_digests(manifest);
    lemma_sorted_manifest(checkpoint.manifest);
    lemma_manifest_map(manifest, manifest.len() as int);
    lemma_shards_collected(
        universe.target,
        sources,
        digests,
        checkpoint.shards,
        checkpoint.shards.len() as int,
    );
    let shards = parts.shards;
    assert(shards.dom().subset_of(digests.dom()));
    vstd::set_lib::lemma_subset_equality(shards.dom(), digests.dom());
    assert(digests =~= shard_digests(shards)) by {
        assert forall|key: Seq<char>| #[trigger] digests.contains_key(key) implies digests[key]
            == shard_digests(shards)[key] by {
            assert(shards.dom().contains(key));
        }
    }
}

/// A cache holds no snapshot but a consistent one: an empty cache does, and everything that changes
/// a cache keeps it so.
pub proof fn law_cache_stays_consistent(
    cache: GraphSnapshotCacheModel,
    changed: Seq<FileId>,
    external_epoch: u64,
    source_epoch: u64,
    expected_source_epoch: u64,
    commit: CommitModel,
    known: Option<Seq<char>>,
)
    requires
        holds_consistent(cache),
    ensures
        holds_consistent(empty_cache()),
        holds_consistent(all_invalidated(cache)),
        holds_consistent(universe_invalidated(cache)),
        holds_consistent(files_invalidated(cache, changed)),
        holds_consistent(external_events_drained(cache, external_epoch)),
        holds_consistent(source_events_drained(cache, source_epoch)),
        holds_consistent(
            snapshot_committed(
                cache,
                external_epoch,
                source_epoch,
                expected_source_epoch,
                commit,
                known,
            ).0,
        ),
{
    let drained = external_events_drained(cache, external_epoch);
    law_commit_is_consistent(drained.committed, next_number(drained.sequence), commit);
}

/// Installing a valid checkpoint keeps a cache consistent.
pub proof fn law_install_stays_consistent(
    cache: GraphSnapshotCacheModel,
    external_epoch: u64,
    source_epoch: u64,
    expected_source_epoch: u64,
    revision: u64,
    files: Map<FileId, SourceFileModel>,
    producer: GraphSnapshotProducerModel,
    universe: GraphSnapshotUniverseModel,
    checkpoint: GraphSnapshotCheckpointModel,
    parts: CheckpointPartsModel,
    source_inputs: Map<FileId, Seq<char>>,
    known: Option<Seq<char>>,
)
    requires
        holds_consistent(cache),
        checkpoint_parts(files, producer, universe, checkpoint, known, source_inputs) == Ok::<
            CheckpointPartsModel,
            GraphErrorModel,
        >(parts),
    ensures
        holds_consistent(
            checkpoint_installed(
                cache,
                external_epoch,
                source_epoch,
                expected_source_epoch,
                revision,
                producer,
                universe,
                checkpoint.generation,
                parts,
                source_inputs,
                known,
            ).0,
        ),
{
    law_checkpoint_is_consistent(
        files,
        producer,
        universe,
        checkpoint,
        known,
        source_inputs,
        parts,
        revision,
        next_number(external_events_drained(cache, external_epoch).sequence),
    );
}

/// What a client that holds shards, of which the digests are given by key, holds once it followed
/// an answer: without a base generation it drops what it holds, and otherwise it drops what the
/// answer deletes; then it puts in what the answer brings.
pub open spec fn followed(
    held: Map<Seq<char>, Seq<char>>,
    result: GraphSnapshotResultModel,
) -> Map<Seq<char>, Seq<char>> {
    upserted(
        match result.base_generation {
            Some(_) => held.remove_keys(result.deletes.to_set()),
            None => Map::empty(),
        },
        result.upserts,
    )
}

/// Every shard of a list changed for a client that holds nothing.
proof fn lemma_all_changed(list: Seq<GraphSnapshotShardModel>, count: int)
    requires
        0 <= count <= list.len(),
    ensures
        changed_shards(Map::empty(), list, count) == list.take(count),
    decreases count,
{
    if count > 0 {
        lemma_all_changed(list, count - 1);
        assert(list.take(count) =~= list.take(count - 1).push(list[count - 1]));
    } else {
        assert(changed_shards(Map::empty(), list, count) =~= list.take(0));
    }
}

/// A client that follows an answer holds exactly what the manifest of the answer lists, where it
/// held the snapshot that it asked with, or asked with one that the answer does not build on. This
/// is so of every consistent snapshot.
pub proof fn law_answer_is_complete(
    cached: CachedSnapshotModel,
    known: Option<Seq<char>>,
    cache_hit: bool,
    held: Map<Seq<char>, Seq<char>>,
)
    requires
        is_consistent(cached),
        known == Some(cached.generation) ==> held == manifest_digests(cached.manifest),
        known != Some(cached.generation) ==> known != cached.delta_base,
    ensures
        followed(held, answer(planned(cached, known, cache_hit))) == manifest_digests(
            cached.manifest,
        ),
{
    let result = answer(planned(cached, known, cache_hit));
    if known == Some(cached.generation) {
        assert(held.remove_keys(result.deletes.to_set()) =~= held);
    } else {
        let list = ordered_values::<String, GraphSnapshotShardModel>(cached.shards);
        lemma_shard_list(cached.shards);
        lemma_all_changed(list, list.len() as int);
        assert(list.take(list.len() as int) =~= list);
        lemma_upserted(Map::empty(), Map::empty(), list, list.len() as int);
        let after = followed(held, result);
        assert forall|key: Seq<char>| #[trigger]
            after.contains_key(key) <==> shard_digests(cached.shards).contains_key(key) by {
            if cached.shards.contains_key(key) {
                let i = choose|i: int| 0 <= i < list.len() && (#[trigger] list[i]).key == key;
                assert(after.contains_key(list[i].key));
            } else {
                assert(!is_among(list, list.len() as int, key));
            }
        }
        assert forall|key: Seq<char>| #[trigger] after.contains_key(key) implies after[key]
            == shard_digests(cached.shards)[key] by {
            let i = choose|i: int| 0 <= i < list.len() && (#[trigger] list[i]).key == key;
            assert(after[list[i].key] == list[i].digest);
        }
        assert(after =~= shard_digests(cached.shards));
    }
}

/// A client that asks with the generation that a snapshot was committed after, and holds that
/// snapshot, holds exactly what the new manifest lists once it followed the answer, unless there is
/// a collision of the two generations.
pub proof fn law_delta_is_complete(
    committed: Option<CachedSnapshotModel>,
    sequence: u64,
    commit: CommitModel,
    cache_hit: bool,
    held: Map<Seq<char>, Seq<char>>,
)
    requires
        committed is Some ==> is_consistent(committed->0) && held == manifest_digests(
            committed->0.manifest,
        ),
        committed is Some ==> !collide(
            generation_json(committed->0.universe.digest, committed->0.manifest),
            generation_json(
                commit.universe.digest,
                next_snapshot(committed, sequence, commit).manifest,
            ),
        ),
    ensures
        ({
            let cached = next_snapshot(committed, sequence, commit);
            followed(held, answer(planned(cached, cached.delta_base, cache_hit)))
                == manifest_digests(cached.manifest)
        }),
{
    let cached = next_snapshot(committed, sequence, commit);
    law_commit_is_consistent(committed, sequence, commit);
    let result = answer(planned(cached, cached.delta_base, cache_hit));
    lemma_advanced(committed, sequence, commit);
    if cached.delta_base == Some(cached.generation) {
        law_generation_identifies(
            committed->0.universe.digest,
            committed->0.manifest,
            commit.universe.digest,
            cached.manifest,
        );
        assert(held.remove_keys(result.deletes.to_set()) =~= held);
        assert(followed(held, result) == held);
    } else if committed is None {
        let nothing = committed_manifest(committed);
        assert(nothing.remove_keys(cached.delta_deletes.to_set()) =~= nothing);
    }
}

/// A client that holds the snapshot that it asked with holds exactly what the manifest of the answer
/// lists once it followed the answer: where it asked with the generation of the answer, where the
/// answer is a delta on what it holds, be it answered again from the cache, and where it is neither.
/// A collision of the generation that it asked with and one of the two is left out.
pub proof fn law_answer_follows(
    cached: CachedSnapshotModel,
    universe: Seq<char>,
    manifest: Seq<GraphSnapshotManifestEntryModel>,
    cache_hit: bool,
)
    requires
        is_consistent(cached),
        is_increasing(manifest),
        !collide(
            generation_json(universe, manifest),
            generation_json(cached.universe.digest, cached.manifest),
        ),
        !collide(
            generation_json(universe, manifest),
            generation_json(base_of(cached).0, base_of(cached).1),
        ),
    ensures
        ({
            let known = Some(json_digest(generation_json(universe, manifest)));
            followed(manifest_digests(manifest), answer(planned(cached, known, cache_hit)))
                == manifest_digests(cached.manifest)
        }),
{
    let known = Some(json_digest(generation_json(universe, manifest)));
    let held = manifest_digests(manifest);
    if known == Some(cached.generation) {
        law_generation_identifies(universe, manifest, cached.universe.digest, cached.manifest);
        law_answer_is_complete(cached, known, cache_hit, held);
    } else if known == cached.delta_base {
        let base = base_of(cached);
        assert(is_base(cached, base.0, base.1));
        law_generation_identifies(universe, manifest, base.0, base.1);
        assert(followed(held, answer(planned(cached, known, cache_hit))) == advanced(held, cached));
    } else {
        law_answer_is_complete(cached, known, cache_hit, held);
    }
}

/// A client that asks without a generation holds exactly what the manifest of the answer lists once
/// it followed the answer, whatever it held before. The one snapshot left out is that which has
/// shards but no delta, as one that was restored and not committed since.
pub proof fn law_new_clients_receive_everything(
    cached: CachedSnapshotModel,
    cache_hit: bool,
    held: Map<Seq<char>, Seq<char>>,
)
    requires
        is_consistent(cached),
        cached.delta_base is Some || cached.delta_upserts.len() > 0 || cached.manifest.len() == 0,
    ensures
        followed(held, answer(planned(cached, None, cache_hit))) == manifest_digests(
            cached.manifest,
        ),
{
    let result = answer(planned(cached, None, cache_hit));
    if cached.delta_base is Some {
        law_answer_is_complete(cached, None, cache_hit, held);
    } else {
        let nothing = Map::<Seq<char>, Seq<char>>::empty();
        assert(nothing.remove_keys(cached.delta_deletes.to_set()) =~= nothing);
        assert(followed(held, result) == advanced(nothing, cached));
    }
}

/// Whether an answer is well formed: it is of the current protocol and schema, its manifest is in
/// strictly increasing key order, its generation is the digest of its universe and its manifest,
/// every shard that it brings is an entry of the manifest, no key that it deletes is, and it builds
/// on nothing or on the generation that was asked with.
pub open spec fn is_answer(result: GraphSnapshotResultModel, known: Option<Seq<char>>) -> bool {
    &&& result.protocol_version == PROTOCOL_VERSION
    &&& result.schema_version == SCHEMA_VERSION
    &&& is_increasing(result.manifest)
    &&& result.generation == json_digest(generation_json(result.universe.digest, result.manifest))
    &&& forall|i: int|
        0 <= i < result.upserts.len() ==> result.manifest.contains(
            entry_of(#[trigger] result.upserts[i]),
        )
    &&& forall|i: int, j: int|
        0 <= i < result.deletes.len() && 0 <= j < result.manifest.len() ==> #[trigger]
        result.deletes[i] != (#[trigger] result.manifest[j]).key
    &&& result.base_generation is None ==> result.deletes.len() == 0
    &&& result.base_generation is Some ==> result.base_generation == known
    &&& known == Some(result.generation) ==> result.base_generation == known
        && result.upserts.len() == 0 && result.deletes.len() == 0
}

/// The entry of a manifest for a shard.
pub open spec fn entry_of(shard: GraphSnapshotShardModel) -> GraphSnapshotManifestEntryModel {
    GraphSnapshotManifestEntryModel { key: shard.key, digest: shard.digest }
}

/// Every answer from a consistent snapshot is well formed.
pub proof fn law_answer_is_well_formed(
    cached: CachedSnapshotModel,
    known: Option<Seq<char>>,
    cache_hit: bool,
)
    requires
        is_consistent(cached),
    ensures
        is_answer(answer(planned(cached, known, cache_hit)), known),
{
    let result = answer(planned(cached, known, cache_hit));
    let list = ordered_values::<String, GraphSnapshotShardModel>(cached.shards);
    let digests = manifest_digests(cached.manifest);
    lemma_shard_list(cached.shards);
    lemma_manifest_map(cached.manifest, cached.manifest.len() as int);
    assert forall|i: int| 0 <= i < result.upserts.len() implies result.manifest.contains(
        entry_of(#[trigger] result.upserts[i]),
    ) by {
        let shard = result.upserts[i];
        assert(shard == list[i] || shard == cached.delta_upserts[i]);
        assert(cached.shards.contains_key(shard.key) && cached.shards[shard.key] == shard);
        assert(digests.contains_key(shard.key) && digests[shard.key] == shard.digest);
        let j = choose|j: int|
            0 <= j < cached.manifest.len() && (#[trigger] cached.manifest[j]).key == shard.key;
        assert(result.manifest[j] == entry_of(shard));
    }
    assert forall|i: int, j: int|
        0 <= i < result.deletes.len() && 0 <= j < result.manifest.len() implies #[trigger]
    result.deletes[i] != (#[trigger] result.manifest[j]).key by {
        assert(digests.contains_key(result.manifest[j].key));
        assert(shard_digests(cached.shards).contains_key(result.manifest[j].key));
        assert(!cached.shards.contains_key(cached.delta_deletes[i]));
    }
}

/// What was current is stale after every change of the workspace, and stays a base for deltas
/// unless the universe changed.
pub proof fn law_changes_make_stale(cache: GraphSnapshotCacheModel, changed: Seq<FileId>)
    requires
        current_of(cache) is Some,
    ensures
        current_of(all_invalidated(cache)) is None,
        current_of(files_invalidated(cache, changed)) is None,
        current_of(universe_invalidated(cache)) is None,
        all_invalidated(cache).committed == cache.committed,
        files_invalidated(cache, changed).committed == cache.committed,
        universe_invalidated(cache).committed is None,
{
}

/// An edit of files has just these built anew, along with those that changed before, where a
/// snapshot was committed and nothing else changed. Any other change has everything built anew.
pub proof fn law_edits_are_incremental(cache: GraphSnapshotCacheModel, changed: Seq<FileId>)
    ensures
        files_invalidated(cache, changed).full_rebuild == (cache.committed is None
            || cache.full_rebuild),
        cache.committed is Some && !cache.full_rebuild ==> forall|file: FileId|
            files_invalidated(cache, changed).dirty_files.contains(file.0) <==> (
            cache.dirty_files.contains(file.0) || #[trigger] changed.contains(file)),
        all_invalidated(cache).full_rebuild,
        universe_invalidated(cache).full_rebuild,
{
    assert forall|file: FileId| #[trigger]
        changed.contains(file) <==> crate::cache::file_numbers(changed).contains(file.0) by {
        assert(file == FileId(file.0));
    }
}

/// Events are taken into account once: the same events again change nothing.
pub proof fn law_events_are_drained_once(cache: GraphSnapshotCacheModel, epoch: u64)
    ensures
        external_events_drained(external_events_drained(cache, epoch), epoch)
            == external_events_drained(cache, epoch),
        source_events_drained(source_events_drained(cache, epoch), epoch) == source_events_drained(
            cache,
            epoch,
        ),
{
}

/// New events on external inputs make what was current stale and have the inputs captured anew;
/// new events on source files make what was current stale.
pub proof fn law_new_events_make_stale(cache: GraphSnapshotCacheModel, epoch: u64)
    requires
        current_of(cache) is Some,
    ensures
        epoch != cache.external_input_event_epoch ==> {
            let drained = external_events_drained(cache, epoch);
            &&& current_of(drained) is None
            &&& drained.full_rebuild
            &&& drained.external_inputs_dirty
            &&& drained.external_input_watcher_stale
        },
        epoch != cache.source_input_event_epoch ==> {
            let drained = source_events_drained(cache, epoch);
            &&& current_of(drained) is None
            &&& drained.full_rebuild
        },
{
}

/// Events on source files leave alone what is known to have changed, where the workspace moved
/// beyond the committed snapshot already.
pub proof fn law_source_events_keep_edits(cache: GraphSnapshotCacheModel, epoch: u64)
    requires
        cache.committed is Some,
        current_of(cache) is None,
    ensures
        source_events_drained(cache, epoch) == (GraphSnapshotCacheModel {
            source_input_event_epoch: epoch,
            ..cache
        }),
{
}

/// What was built for a revision is refused once the workspace moved, and a refusal commits
/// nothing.
pub proof fn law_stale_builds_are_refused(
    cache: GraphSnapshotCacheModel,
    external_epoch: u64,
    source_epoch: u64,
    expected_source_epoch: u64,
    commit: CommitModel,
    known: Option<Seq<char>>,
)
    ensures
        ({
            let (after, result) = snapshot_committed(
                cache,
                external_epoch,
                source_epoch,
                expected_source_epoch,
                commit,
                known,
            );
            &&& source_epoch != expected_source_epoch || external_events_drained(
                cache,
                external_epoch,
            ).revision != commit.revision ==> result is Err
            &&& result is Err ==> after.committed == cache.committed && after.sequence
                == cache.sequence
            &&& result is Ok ==> current_of(after) is Some
        }),
{
}

/// A checkpoint is refused once the workspace moved beyond the revision for which it was validated,
/// unless a snapshot is current; a refusal commits nothing.
pub proof fn law_stale_checkpoints_are_refused(
    cache: GraphSnapshotCacheModel,
    external_epoch: u64,
    source_epoch: u64,
    expected_source_epoch: u64,
    revision: u64,
    producer: GraphSnapshotProducerModel,
    universe: GraphSnapshotUniverseModel,
    generation: Seq<char>,
    parts: CheckpointPartsModel,
    source_inputs: Map<FileId, Seq<char>>,
    known: Option<Seq<char>>,
)
    ensures
        ({
            let drained = external_events_drained(cache, external_epoch);
            let (after, result) = checkpoint_installed(
                cache,
                external_epoch,
                source_epoch,
                expected_source_epoch,
                revision,
                producer,
                universe,
                generation,
                parts,
                source_inputs,
                known,
            );
            &&& source_epoch != expected_source_epoch ==> result is Err
            &&& drained.revision != revision && current_of(drained) is None ==> result is Err
            &&& result is Err ==> after.committed == cache.committed && after.sequence
                == cache.sequence
            &&& result is Ok ==> current_of(after) is Some
        }),
{
}

proof fn lemma_merged_keeps(
    shards: Map<Seq<char>, GraphSnapshotShardModel>,
    built: Seq<GraphSnapshotShardModel>,
    count: int,
    key: Seq<char>,
)
    requires
        0 <= count <= built.len(),
        shards.contains_key(key),
        forall|i: int| 0 <= i < built.len() ==> (#[trigger] built[i]).key != key,
    ensures
        merged(shards, built, count).contains_key(key),
        merged(shards, built, count)[key] == shards[key],
    decreases count,
{
    if count > 0 {
        lemma_merged_keeps(shards, built, count - 1, key);
    }
}

/// An incremental snapshot keeps, unchanged, every shard of a source file that did not change and
/// was not built anew.
pub proof fn law_clean_shards_are_kept(
    committed: CachedSnapshotModel,
    sequence: u64,
    commit: CommitModel,
    key: Seq<char>,
)
    requires
        !commit.full_rebuild,
        committed.shards.contains_key(key),
        !commit.dirty_sources.contains(committed.shards[key].source),
        forall|i: int|
            0 <= i < commit.built.shards.len() ==> (#[trigger] commit.built.shards[i]).key != key,
    ensures
        next_snapshot(Some(committed), sequence, commit).shards.contains_key(key),
        next_snapshot(Some(committed), sequence, commit).shards[key] == committed.shards[key],
{
    lemma_merged_keeps(
        retained(committed.shards, commit.dirty_sources),
        commit.built.shards,
        commit.built.shards.len() as int,
        key,
    );
}

/// The validated checkpoint that a request is busy with.
pub open spec fn pending_checkpoint(state: HandleStateModel) -> Option<PendingCheckpointModel> {
    match state {
        HandleStateModel::CheckpointInputs(pending) => Some(pending),
        HandleStateModel::CheckpointModel(pending) => Some(pending),
        HandleStateModel::CheckpointUniverse(pending) => Some(pending),
        HandleStateModel::CheckpointRecheck(pending) => Some(pending),
        HandleStateModel::CheckpointFence(pending) => Some(pending),
        _ => None,
    }
}

/// Whether the checkpoint that a request is busy with, if any, is that of the request and valid.
pub open spec fn is_sound(
    files: Map<FileId, SourceFileModel>,
    request: HandleRequestModel,
    state: HandleStateModel,
) -> bool {
    match pending_checkpoint(state) {
        Some(pending) => {
            &&& request.params.checkpoint is Some
            &&& checkpoint_parts(
                files,
                request.producer,
                pending.universe,
                request.params.checkpoint->0,
                request.params.known_generation,
                pending.source_inputs,
            ) == Ok::<CheckpointPartsModel, GraphErrorModel>(pending.parts)
        },
        None => true,
    }
}

/// Every step of a request keeps a cache consistent, and what is answered is the answer from the
/// snapshot that is then current.
pub proof fn law_requests_answer_from_current(
    files: Map<FileId, SourceFileModel>,
    request: HandleRequestModel,
    state: HandleStateModel,
    event: HandleEventModel,
    before: GraphSnapshotCacheModel,
    after: GraphSnapshotCacheModel,
    progress: HandleProgressModel,
)
    requires
        is_step(files, request, state, event, before, after, progress),
        is_sound(files, request, state),
        holds_consistent(before),
    ensures
        holds_consistent(after),
        progress matches HandleProgressModel::Waiting(next) ==> is_sound(files, request, next),
        progress matches HandleProgressModel::Answered(result) ==> {
            &&& current_of(after) is Some
            &&& result == (GraphSnapshotResultModel {
                phases: result.phases,
                ..answer(
                    planned(current_of(after)->0, request.params.known_generation, true),
                )
            })
            &&& is_answer(result, request.params.known_generation)
        },
{
    match (state, event) {
        (
            HandleStateModel::BuildFence(pending),
            HandleEventModel::Fenced { external_epoch, source_epoch, phases },
        ) => {
            law_cache_stays_consistent(
                before,
                Seq::empty(),
                external_epoch,
                source_epoch,
                pending.epoch,
                commit_of(files, request, pending, phases),
                request.params.known_generation,
            );
        },
        (
            HandleStateModel::CheckpointFence(pending),
            HandleEventModel::Fenced { external_epoch, source_epoch, phases },
        ) => {
            law_install_stays_consistent(
                before,
                external_epoch,
                source_epoch,
                pending.epoch,
                request.revision,
                files,
                request.producer,
                pending.universe,
                request.params.checkpoint->0,
                pending.parts,
                pending.source_inputs,
                request.params.known_generation,
            );
        },
        _ => {},
    }
    if progress is Answered {
        law_answer_is_well_formed(current_of(after)->0, request.params.known_generation, true);
    }
}

/// A client that asks with the generation of an earlier answer holds exactly what the manifest of
/// the new answer lists, if it held what that of the earlier one lists and followed the new answer.
/// The two generations are the same only where nothing changed, and then nothing is brought and
/// nothing is deleted. Collisions of generations are left out.
pub proof fn law_requests_follow(
    files: Map<FileId, SourceFileModel>,
    request: HandleRequestModel,
    state: HandleStateModel,
    event: HandleEventModel,
    before: GraphSnapshotCacheModel,
    after: GraphSnapshotCacheModel,
    earlier: GraphSnapshotResultModel,
    known: Option<Seq<char>>,
    result: GraphSnapshotResultModel,
)
    requires
        is_step(files, request, state, event, before, after, HandleProgressModel::Answered(result)),
        is_sound(files, request, state),
        holds_consistent(before),
        is_answer(earlier, known),
        request.params.known_generation == Some(earlier.generation),
        !collide(
            generation_json(earlier.universe.digest, earlier.manifest),
            generation_json(result.universe.digest, result.manifest),
        ),
        current_of(after) is Some ==> !collide(
            generation_json(earlier.universe.digest, earlier.manifest),
            generation_json(
                base_of(current_of(after)->0).0,
                base_of(current_of(after)->0).1,
            ),
        ),
    ensures
        followed(manifest_digests(earlier.manifest), result) == manifest_digests(result.manifest),
        result.generation == earlier.generation ==> result.manifest == earlier.manifest
            && result.upserts.len() == 0 && result.deletes.len() == 0,
{
    let cached = current_of(after)->0;
    law_requests_answer_from_current(
        files,
        request,
        state,
        event,
        before,
        after,
        HandleProgressModel::Answered(result),
    );
    law_answer_follows(cached, earlier.universe.digest, earlier.manifest, true);
    let plain = answer(planned(cached, request.params.known_generation, true));
    assert(followed(manifest_digests(earlier.manifest), result) == followed(
        manifest_digests(earlier.manifest),
        plain,
    ));
    if result.generation == earlier.generation {
        law_generation_identifies(
            earlier.universe.digest,
            earlier.manifest,
            result.universe.digest,
            result.manifest,
        );
    }
}

} // verus!
