//! What a checkpoint stands for does not depend on the order of its lists.

use vstd::prelude::*;

use crate::checkpoint::{
    CollectedModel, checkpoint_parts, claimed_digests, digests_by_path, is_valid_shard,
    has_digests, manifest_map, nodes_owned, shard_collected, shards_collected, sorted_manifest,
};
use crate::consistency::lemma_manifest_map;
use crate::files::{FileId, SourceFileModel, source_of};
use crate::json::json_digest;
use crate::order::Key;
use crate::shards::{generation_json, shard_json};
use crate::snapshot::{
    GraphSnapshotCheckpointModel, GraphSnapshotManifestEntry, GraphSnapshotManifestEntryModel,
    GraphSnapshotNodeModel, GraphSnapshotProducerModel, GraphSnapshotShardModel,
    GraphSnapshotSourceModel, GraphSnapshotUniverseModel, PROTOCOL_VERSION, SCHEMA_VERSION,
};
use crate::sorting::{
    lemma_repeats_dropped, lemma_stable_sorted, ranks_before, stable_sorted, without_repeats,
};
use crate::table::{lemma_ordered, lemma_ordered_lists, lists, ordered};

verus! {

/// Whether no two values have one name.
pub open spec fn have_distinct_names<A>(values: Seq<A>, name: spec_fn(A) -> Seq<char>) -> bool {
    forall|i: int, j: int|
        0 <= i < j < values.len() ==> name(#[trigger] values[i]) != name(#[trigger] values[j])
}

/// Values under distinct names do not repeat.
proof fn lemma_names_differ<A>(values: Seq<A>, name: spec_fn(A) -> Seq<char>)
    requires
        have_distinct_names(values, name),
    ensures
        values.no_duplicates(),
{
    assert forall|i: int, j: int|
        0 <= i < values.len() && 0 <= j < values.len() && i != j implies values[i]
        != values[j] by {
        if i < j {
            assert(name(values[i]) != name(values[j]));
        } else {
            assert(name(values[j]) != name(values[i]));
        }
    }
}

/// Where the values at two places of a list stand in another order of it.
pub proof fn lemma_places<A>(values: Seq<A>, moved: Seq<A>, i: int, j: int) -> (places: (int, int))
    requires
        values.no_duplicates(),
        values.to_multiset() == moved.to_multiset(),
        0 <= i < j < moved.len(),
    ensures
        0 <= places.0 < values.len(),
        0 <= places.1 < values.len(),
        places.0 != places.1,
        values[places.0] == moved[i],
        values[places.1] == moved[j],
{
    broadcast use vstd::seq_lib::group_to_multiset_ensures;

    values.lemma_multiset_has_no_duplicates();
    moved.lemma_multiset_has_no_duplicates_conv();
    assert(moved.contains(moved[i]) && moved.contains(moved[j]));
    assert(values.to_multiset().count(moved[i]) > 0 && values.to_multiset().count(moved[j]) > 0);
    assert(values.contains(moved[i]) && values.contains(moved[j]));
    let k = choose|k: int| 0 <= k < values.len() && values[k] == moved[i];
    let l = choose|l: int| 0 <= l < values.len() && values[l] == moved[j];
    (k, l)
}

/// Names stay distinct in every order.
proof fn lemma_names_stay_distinct<A>(
    values: Seq<A>,
    moved: Seq<A>,
    name: spec_fn(A) -> Seq<char>,
)
    requires
        have_distinct_names(values, name),
        values.to_multiset() == moved.to_multiset(),
    ensures
        have_distinct_names(moved, name),
{
    lemma_names_differ(values, name);
    assert forall|i: int, j: int| 0 <= i < j < moved.len() implies name(#[trigger] moved[i])
        != name(#[trigger] moved[j]) by {
        let (k, l) = lemma_places(values, moved, i, j);
        if k < l {
            assert(name(values[k]) != name(values[l]));
        } else {
            assert(name(values[l]) != name(values[k]));
        }
    }
}

/// A value is in every order of a list that holds it.
proof fn lemma_stays<A>(values: Seq<A>, moved: Seq<A>, i: int) -> (place: int)
    requires
        values.to_multiset() == moved.to_multiset(),
        0 <= i < values.len(),
    ensures
        0 <= place < moved.len(),
        moved[place] == values[i],
{
    broadcast use vstd::seq_lib::group_to_multiset_ensures;

    assert(values.contains(values[i]));
    assert(moved.to_multiset().count(values[i]) > 0);
    assert(moved.contains(values[i]));
    choose|k: int| 0 <= k < moved.len() && moved[k] == values[i]
}

/// The path of a source file of a checkpoint.
pub open spec fn source_name() -> spec_fn(GraphSnapshotSourceModel) -> Seq<char> {
    |source: GraphSnapshotSourceModel| source.source
}

/// The key of an entry of a manifest.
pub open spec fn entry_key() -> spec_fn(GraphSnapshotManifestEntryModel) -> Seq<char> {
    |entry: GraphSnapshotManifestEntryModel| entry.key
}

proof fn lemma_claimed(sources: Seq<GraphSnapshotSourceModel>, count: int)
    requires
        0 <= count <= sources.len(),
    ensures
        ({
            let claimed = claimed_digests(sources, count);
            &&& claimed.dom().finite()
            &&& claimed.len() <= count
            &&& claimed.len() == count <==> have_distinct_names(
                sources.take(count),
                source_name(),
            )
            &&& forall|source: Seq<char>| #[trigger]
                claimed.contains_key(source) <==> exists|i: int|
                    0 <= i < count && (#[trigger] sources[i]).source == source
            &&& claimed.len() == count ==> forall|i: int|
                0 <= i < count ==> claimed[(#[trigger] sources[i]).source]
                    == sources[i].checker_digest
        }),
    decreases count,
{
    let claimed = claimed_digests(sources, count);
    if count > 0 {
        lemma_claimed(sources, count - 1);
        let before = claimed_digests(sources, count - 1);
        let last = sources[count - 1];
        let fewer = sources.take(count - 1);
        let now = sources.take(count);
        assert(claimed.dom() =~= before.dom().insert(last.source));
        assert forall|source: Seq<char>| #[trigger]
            claimed.contains_key(source) <==> exists|i: int|
            0 <= i < count && (#[trigger] sources[i]).source == source by {
            if source == last.source {
                assert(sources[count - 1].source == source);
            }
            assert(claimed.contains_key(source) <==> before.contains_key(source) || source
                == last.source);
        }
        if before.contains_key(last.source) {
            let i = choose|i: int|
                0 <= i < count - 1 && (#[trigger] sources[i]).source == last.source;
            assert(claimed.dom() =~= before.dom());
            assert(now[i].source == now[count - 1].source);
            assert(source_name()(now[i]) == source_name()(now[count - 1]));
            assert(!have_distinct_names(now, source_name()));
        } else {
            assert(claimed.len() == before.len() + 1);
            if have_distinct_names(fewer, source_name()) {
                assert forall|i: int, j: int| 0 <= i < j < now.len() implies source_name()(
                    #[trigger] now[i],
                ) != source_name()(#[trigger] now[j]) by {
                    assert(sources[i] == now[i]);
                    if j < count - 1 {
                        assert(fewer[i] == now[i] && fewer[j] == now[j]);
                    }
                }
            }
            if have_distinct_names(now, source_name()) {
                assert forall|i: int, j: int| 0 <= i < j < fewer.len() implies source_name()(
                    #[trigger] fewer[i],
                ) != source_name()(#[trigger] fewer[j]) by {
                    assert(fewer[i] == now[i] && fewer[j] == now[j]);
                }
            }
        }
    } else {
        assert(claimed.dom() =~= Set::empty());
    }
}

/// The source files that a checkpoint names are the same in every order.
proof fn lemma_claims_moved(
    left: Seq<GraphSnapshotSourceModel>,
    right: Seq<GraphSnapshotSourceModel>,
)
    requires
        left.to_multiset() == right.to_multiset(),
        claimed_digests(left, left.len() as int).len() == left.len(),
    ensures
        claimed_digests(right, right.len() as int).len() == right.len(),
        claimed_digests(left, left.len() as int) == claimed_digests(right, right.len() as int),
{
    let l = claimed_digests(left, left.len() as int);
    let r = claimed_digests(right, right.len() as int);
    lemma_claimed(left, left.len() as int);
    lemma_claimed(right, right.len() as int);
    assert(left.take(left.len() as int) =~= left);
    assert(right.take(right.len() as int) =~= right);
    lemma_names_stay_distinct(left, right, source_name());
    assert forall|source: Seq<char>| #[trigger] l.contains_key(source) <==> r.contains_key(
        source,
    ) by {
        if l.contains_key(source) {
            let i = choose|i: int| 0 <= i < left.len() && (#[trigger] left[i]).source == source;
            let j = lemma_stays(left, right, i);
            assert(right[j].source == source);
        }
        if r.contains_key(source) {
            let j = choose|j: int| 0 <= j < right.len() && (#[trigger] right[j]).source == source;
            let i = lemma_stays(right, left, j);
            assert(left[i].source == source);
        }
    }
    assert forall|source: Seq<char>| #[trigger] l.contains_key(source) implies l[source]
        == r[source] by {
        let i = choose|i: int| 0 <= i < left.len() && (#[trigger] left[i]).source == source;
        let j = lemma_stays(left, right, i);
        assert(r[right[j].source] == right[j].checker_digest);
    }
    assert(l =~= r);
}

proof fn lemma_none_repeated(entries: Seq<GraphSnapshotManifestEntryModel>)
    ensures
        without_repeats::<GraphSnapshotManifestEntry>(entries).len() <= entries.len(),
        without_repeats::<GraphSnapshotManifestEntry>(entries).len() == entries.len()
            ==> without_repeats::<GraphSnapshotManifestEntry>(entries) == entries,
        have_distinct_names(entries, entry_key()) ==> without_repeats::<GraphSnapshotManifestEntry>(
            entries,
        ) == entries,
    decreases entries.len(),
{
    if entries.len() > 0 {
        let shorter = entries.drop_last();
        let kept = without_repeats::<GraphSnapshotManifestEntry>(shorter);
        lemma_none_repeated(shorter);
        assert(entries =~= shorter.push(entries.last()));
        if have_distinct_names(entries, entry_key()) {
            assert forall|i: int, j: int| 0 <= i < j < shorter.len() implies entry_key()(
                #[trigger] shorter[i],
            ) != entry_key()(#[trigger] shorter[j]) by {
                assert(entries[i] == shorter[i] && entries[j] == shorter[j]);
            }
            if kept.len() > 0 {
                assert(entry_key()(entries[kept.len() - 1]) != entry_key()(
                    entries[entries.len() - 1],
                ));
            }
        }
    }
}

/// A manifest keeps its length where no two entries have one key, and holds its entries then.
proof fn lemma_manifest_sorted(manifest: Seq<GraphSnapshotManifestEntryModel>)
    ensures
        sorted_manifest(manifest).len() == manifest.len() <==> have_distinct_names(
            manifest,
            entry_key(),
        ),
        sorted_manifest(manifest).len() == manifest.len() ==> sorted_manifest(
            manifest,
        ).to_multiset() == manifest.to_multiset(),
        forall|i: int, j: int|
            0 <= i < j < sorted_manifest(manifest).len() ==> <String as Key>::before(
                (#[trigger] sorted_manifest(manifest)[i]).key,
                (#[trigger] sorted_manifest(manifest)[j]).key,
            ),
{
    let sorted = stable_sorted::<GraphSnapshotManifestEntry>(manifest);
    let kept = sorted_manifest(manifest);
    lemma_stable_sorted::<GraphSnapshotManifestEntry>(manifest);
    lemma_repeats_dropped::<GraphSnapshotManifestEntry>(sorted);
    lemma_none_repeated(sorted);
    assert forall|i: int, j: int| 0 <= i < j < kept.len() implies <String as Key>::before(
        (#[trigger] kept[i]).key,
        (#[trigger] kept[j]).key,
    ) by {
        assert(ranks_before::<GraphSnapshotManifestEntry>(kept[i], kept[j]));
    }
    if kept.len() == manifest.len() {
        assert forall|i: int, j: int| 0 <= i < j < sorted.len() implies entry_key()(
            #[trigger] sorted[i],
        ) != entry_key()(#[trigger] sorted[j]) by {
            <String as Key>::lemma_irreflexive(sorted[i].key);
            assert(<String as Key>::before(kept[i].key, kept[j].key));
        }
        lemma_names_stay_distinct(sorted, manifest, entry_key());
    }
    if have_distinct_names(manifest, entry_key()) {
        lemma_names_stay_distinct(manifest, sorted, entry_key());
    }
}

/// The entries of a manifest as entries of a map.
spec fn entry_pairs(manifest: Seq<GraphSnapshotManifestEntryModel>) -> Seq<(Seq<char>, Seq<char>)> {
    manifest.map_values(|entry: GraphSnapshotManifestEntryModel| (entry.key, entry.digest))
}

/// The manifest of a checkpoint is the same in every order, where no two entries have one key.
proof fn lemma_manifest_moved(
    left: Seq<GraphSnapshotManifestEntryModel>,
    right: Seq<GraphSnapshotManifestEntryModel>,
)
    requires
        left.to_multiset() == right.to_multiset(),
        have_distinct_names(left, entry_key()),
    ensures
        sorted_manifest(left) == sorted_manifest(right),
{
    let l = sorted_manifest(left);
    let r = sorted_manifest(right);
    lemma_names_stay_distinct(left, right, entry_key());
    lemma_manifest_sorted(left);
    lemma_manifest_sorted(right);
    let map = Map::<Seq<char>, Seq<char>>::new(
        |key: Seq<char>| exists|i: int| 0 <= i < l.len() && (#[trigger] l[i]).key == key,
        |key: Seq<char>| l[choose|i: int| 0 <= i < l.len() && (#[trigger] l[i]).key == key].digest,
    );
    assert forall|i: int| 0 <= i < l.len() implies map.contains_key((#[trigger] l[i]).key)
        && map[l[i].key] == l[i].digest by {
        let k = choose|k: int| 0 <= k < l.len() && (#[trigger] l[k]).key == l[i].key;
        <String as Key>::lemma_irreflexive(l[i].key);
        if k < i {
            assert(<String as Key>::before(l[k].key, l[i].key));
        } else if i < k {
            assert(<String as Key>::before(l[i].key, l[k].key));
        }
    }
    lemma_pairs_list(l, l, map);
    lemma_pairs_list(l, r, map);
    assert(entry_pairs(l) == entry_pairs(r));
    assert forall|i: int| 0 <= i < l.len() implies l[i] == r[i] by {
        assert(entry_pairs(l)[i] == (l[i].key, l[i].digest));
        assert(entry_pairs(r)[i] == (r[i].key, r[i].digest));
    }
    assert(l.len() == entry_pairs(l).len() && r.len() == entry_pairs(r).len());
    assert(l =~= r);
}

proof fn lemma_pairs_list(
    entries: Seq<GraphSnapshotManifestEntryModel>,
    moved: Seq<GraphSnapshotManifestEntryModel>,
    map: Map<Seq<char>, Seq<char>>,
)
    requires
        entries.to_multiset() == moved.to_multiset(),
        forall|i: int, j: int|
            0 <= i < j < moved.len() ==> <String as Key>::before(
                (#[trigger] moved[i]).key,
                (#[trigger] moved[j]).key,
            ),
        forall|i: int|
            0 <= i < entries.len() ==> map.contains_key((#[trigger] entries[i]).key)
                && map[entries[i].key] == entries[i].digest,
        forall|key: Seq<char>| #[trigger]
            map.contains_key(key) ==> exists|i: int|
                0 <= i < entries.len() && (#[trigger] entries[i]).key == key,
    ensures
        ordered::<String, Seq<char>>(map) == entry_pairs(moved),
{
    let pairs = entry_pairs(moved);
    assert forall|i: int| 0 <= i < pairs.len() implies map.contains_key((#[trigger] pairs[i]).0)
        && map[pairs[i].0] == pairs[i].1 by {
        let k = lemma_stays(moved, entries, i);
        assert(map.contains_key(entries[k].key));
    }
    assert forall|key: Seq<char>| #[trigger] map.contains_key(key) implies exists|i: int|
        0 <= i < pairs.len() && (#[trigger] pairs[i]).0 == key by {
        let k = choose|k: int| 0 <= k < entries.len() && (#[trigger] entries[k]).key == key;
        let i = lemma_stays(entries, moved, k);
        assert(pairs[i].0 == key);
    }
    assert forall|i: int, j: int| 0 <= i < j < pairs.len() implies <String as Key>::before(
        (#[trigger] pairs[i]).0,
        (#[trigger] pairs[j]).0,
    ) by {
        assert(<String as Key>::before(moved[i].key, moved[j].key));
    }
    assert(lists::<String, Seq<char>>(pairs, map));
    lemma_ordered::<String, Seq<char>>(pairs, map);
}

/// Whether no two nodes have one identity.
spec fn are_nodes_apart(nodes: Seq<GraphSnapshotNodeModel>, count: int) -> bool {
    forall|i: int, j: int|
        0 <= i < j < count ==> (#[trigger] nodes[i]).id != (#[trigger] nodes[j]).id
}

/// Whether one of the first nodes has an identity.
spec fn has_node(nodes: Seq<GraphSnapshotNodeModel>, count: int, id: Seq<char>) -> bool {
    exists|i: int| 0 <= i < count && (#[trigger] nodes[i]).id == id
}

proof fn lemma_nodes_owned(
    owners: Map<Seq<char>, Seq<char>>,
    nodes: Seq<GraphSnapshotNodeModel>,
    source: Seq<char>,
    count: int,
)
    requires
        0 <= count <= nodes.len(),
    ensures
        nodes_owned(owners, nodes, source, count) is Some <==> {
            &&& are_nodes_apart(nodes, count)
            &&& forall|i: int|
                0 <= i < count ==> !owners.contains_key((#[trigger] nodes[i]).id)
        },
        nodes_owned(owners, nodes, source, count) matches Some(owned) ==> {
            &&& forall|id: Seq<char>| #[trigger]
                owned.contains_key(id) <==> owners.contains_key(id) || has_node(nodes, count, id)
            &&& forall|id: Seq<char>| #[trigger]
                owned.contains_key(id) ==> owned[id] == if has_node(nodes, count, id) {
                    source
                } else {
                    owners[id]
                }
        },
    decreases count,
{
    if count > 0 {
        lemma_nodes_owned(owners, nodes, source, count - 1);
        let last = nodes[count - 1];
        if nodes_owned(owners, nodes, source, count - 1) is Some {
            let before = nodes_owned(owners, nodes, source, count - 1)->0;
            assert forall|id: Seq<char>|
                #[trigger] has_node(nodes, count, id) <==> has_node(nodes, count - 1, id) || id
                    == last.id by {
                if id == last.id {
                    assert(nodes[count - 1].id == id);
                }
            }
            if before.contains_key(last.id) {
                if has_node(nodes, count - 1, last.id) {
                    let i = choose|i: int|
                        0 <= i < count - 1 && (#[trigger] nodes[i]).id == last.id;
                    assert(nodes[i].id == nodes[count - 1].id);
                }
            } else {
                assert(!has_node(nodes, count - 1, last.id));
                assert forall|i: int, j: int| 0 <= i < j < count implies (#[trigger] nodes[i]).id
                    != (#[trigger] nodes[j]).id by {
                    if j == count - 1 && nodes[i].id == last.id {
                        assert(has_node(nodes, count - 1, last.id));
                    }
                }
                let owned = before.insert(last.id, source);
                assert forall|id: Seq<char>| #[trigger] owned.contains_key(id) implies owned[id]
                    == if has_node(nodes, count, id) {
                    source
                } else {
                    owners[id]
                } by {
                    if id != last.id {
                        assert(before.contains_key(id));
                    }
                }
            }
        }
    }
}

/// Whether two shards share neither key nor source file nor node.
spec fn are_apart(left: GraphSnapshotShardModel, right: GraphSnapshotShardModel) -> bool {
    &&& left.key != right.key
    &&& left.source != right.source
    &&& forall|id: Seq<char>| #[trigger]
        has_node(left.nodes, left.nodes.len() as int, id) ==> !has_node(
            right.nodes,
            right.nodes.len() as int,
            id,
        )
}

/// Whether a shard is valid and no two of its nodes have one identity.
spec fn is_sound(
    target: Seq<char>,
    sources: Map<Seq<char>, Seq<char>>,
    manifest: Map<Seq<char>, Seq<char>>,
    shard: GraphSnapshotShardModel,
) -> bool {
    is_valid_shard(target, sources, manifest, shard) && are_nodes_apart(
        shard.nodes,
        shard.nodes.len() as int,
    )
}

/// Whether the first shards can be collected.
spec fn are_collectable(
    target: Seq<char>,
    sources: Map<Seq<char>, Seq<char>>,
    manifest: Map<Seq<char>, Seq<char>>,
    shards: Seq<GraphSnapshotShardModel>,
    count: int,
) -> bool {
    &&& forall|i: int|
        0 <= i < count ==> is_sound(target, sources, manifest, #[trigger] shards[i])
    &&& forall|i: int, j: int|
        0 <= i < j < count ==> are_apart(#[trigger] shards[i], #[trigger] shards[j])
}

/// Whether a shard has a node.
spec fn owns(shard: GraphSnapshotShardModel, id: Seq<char>) -> bool {
    has_node(shard.nodes, shard.nodes.len() as int, id)
}

/// Whether what was collected is what the first shards hold.
spec fn is_collection(
    collected: CollectedModel,
    shards: Seq<GraphSnapshotShardModel>,
    count: int,
) -> bool {
    &&& forall|key: Seq<char>| #[trigger]
        collected.shards.contains_key(key) ==> exists|i: int|
            0 <= i < count && (#[trigger] shards[i]).key == key
    &&& forall|source: Seq<char>| #[trigger]
        collected.interface_fingerprints.contains_key(source) ==> exists|i: int|
            0 <= i < count && (#[trigger] shards[i]).source == source
    &&& forall|id: Seq<char>| #[trigger]
        collected.node_owners.contains_key(id) ==> exists|i: int|
            0 <= i < count && owns(#[trigger] shards[i], id)
    &&& forall|i: int|
        0 <= i < count ==> collected.shards.contains_key((#[trigger] shards[i]).key)
            && collected.shards[shards[i].key] == shards[i]
    &&& forall|i: int|
        0 <= i < count ==> collected.interface_fingerprints.contains_key(
            (#[trigger] shards[i]).source,
        ) && collected.interface_fingerprints[shards[i].source] == shards[i].interface_fingerprint
    &&& forall|i: int, id: Seq<char>|
        0 <= i < count && #[trigger] owns(shards[i], id) ==> collected.node_owners.contains_key(id)
            && collected.node_owners[id] == shards[i].source
}

proof fn lemma_one_collected(
    target: Seq<char>,
    sources: Map<Seq<char>, Seq<char>>,
    manifest: Map<Seq<char>, Seq<char>>,
    before: CollectedModel,
    shards: Seq<GraphSnapshotShardModel>,
    count: int,
)
    requires
        0 <= count < shards.len(),
        is_collection(before, shards, count),
    ensures
        shard_collected(target, sources, manifest, before, shards[count]) is Some <==> {
            &&& is_sound(target, sources, manifest, shards[count])
            &&& forall|i: int| 0 <= i < count ==> are_apart(#[trigger] shards[i], shards[count])
        },
        shard_collected(target, sources, manifest, before, shards[count]) matches Some(after)
            ==> is_collection(after, shards, count + 1),
{
    let shard = shards[count];
    let nodes = shard.nodes;
    let owners = before.node_owners;
    lemma_nodes_owned(owners, nodes, shard.source, nodes.len() as int);
    let result = shard_collected(target, sources, manifest, before, shard);
    if result is Some {
        let after = result->0;
        assert forall|i: int| 0 <= i < count implies are_apart(#[trigger] shards[i], shard) by {
            assert forall|id: Seq<char>| #[trigger]
                has_node(shards[i].nodes, shards[i].nodes.len() as int, id) implies !has_node(
                nodes,
                nodes.len() as int,
                id,
            ) by {
                assert(owns(shards[i], id));
                if has_node(nodes, nodes.len() as int, id) {
                    let k = choose|k: int| 0 <= k < nodes.len() && (#[trigger] nodes[k]).id == id;
                    assert(!owners.contains_key(nodes[k].id));
                }
            }
        }
        assert forall|i: int| 0 <= i < count + 1 implies after.shards.contains_key(
            (#[trigger] shards[i]).key,
        ) && after.shards[shards[i].key] == shards[i] by {
            if i < count {
                assert(are_apart(shards[i], shard));
            }
        }
        assert forall|i: int| 0 <= i < count + 1 implies after.interface_fingerprints.contains_key(
            (#[trigger] shards[i]).source,
        ) && after.interface_fingerprints[shards[i].source] == shards[i].interface_fingerprint by {
            if i < count {
                assert(are_apart(shards[i], shard));
            }
        }
        assert forall|i: int, id: Seq<char>|
            0 <= i < count + 1 && #[trigger] owns(
                shards[i],
                id,
            ) implies after.node_owners.contains_key(id) && after.node_owners[id]
            == shards[i].source by {
            if i < count {
                assert(are_apart(shards[i], shard));
                assert(has_node(shards[i].nodes, shards[i].nodes.len() as int, id));
                assert(owners.contains_key(id));
            } else {
                assert(has_node(nodes, nodes.len() as int, id));
            }
            assert(after.node_owners.contains_key(id));
        }
        assert forall|id: Seq<char>| #[trigger] after.node_owners.contains_key(id) implies exists|
            i: int,
        |
            0 <= i < count + 1 && owns(#[trigger] shards[i], id) by {
            if owners.contains_key(id) {
                let i = choose|i: int| 0 <= i < count && owns(#[trigger] shards[i], id);
                assert(owns(shards[i], id));
            } else {
                assert(owns(shards[count], id));
            }
        }
        assert forall|key: Seq<char>| #[trigger] after.shards.contains_key(key) implies exists|
            i: int,
        |
            0 <= i < count + 1 && (#[trigger] shards[i]).key == key by {
            if key != shard.key {
                assert(before.shards.contains_key(key));
            } else {
                assert(shards[count].key == key);
            }
        }
        assert forall|source: Seq<char>| #[trigger]
            after.interface_fingerprints.contains_key(source) implies exists|i: int|
            0 <= i < count + 1 && (#[trigger] shards[i]).source == source by {
            if source != shard.source {
                assert(before.interface_fingerprints.contains_key(source));
            } else {
                assert(shards[count].source == source);
            }
        }
    } else if is_sound(target, sources, manifest, shard) && forall|i: int|
        0 <= i < count ==> are_apart(#[trigger] shards[i], shard) {
        if before.shards.contains_key(shard.key) {
            let i = choose|i: int| 0 <= i < count && (#[trigger] shards[i]).key == shard.key;
            assert(are_apart(shards[i], shard));
        }
        if before.interface_fingerprints.contains_key(shard.source) {
            let i = choose|i: int| 0 <= i < count && (#[trigger] shards[i]).source == shard.source;
            assert(are_apart(shards[i], shard));
        }
        assert forall|k: int| 0 <= k < nodes.len() implies !owners.contains_key(
            (#[trigger] nodes[k]).id,
        ) by {
            let id = nodes[k].id;
            assert(has_node(nodes, nodes.len() as int, id));
            if owners.contains_key(id) {
                let i = choose|i: int| 0 <= i < count && owns(#[trigger] shards[i], id);
                assert(are_apart(shards[i], shard));
                assert(has_node(shards[i].nodes, shards[i].nodes.len() as int, id));
            }
        }
    }
}

proof fn lemma_collected(
    target: Seq<char>,
    sources: Map<Seq<char>, Seq<char>>,
    manifest: Map<Seq<char>, Seq<char>>,
    shards: Seq<GraphSnapshotShardModel>,
    count: int,
)
    requires
        0 <= count <= shards.len(),
    ensures
        shards_collected(target, sources, manifest, shards, count) is Some <==> are_collectable(
            target,
            sources,
            manifest,
            shards,
            count,
        ),
        shards_collected(target, sources, manifest, shards, count) matches Some(collected)
            ==> is_collection(collected, shards, count),
    decreases count,
{
    if count > 0 {
        lemma_collected(target, sources, manifest, shards, count - 1);
        if shards_collected(target, sources, manifest, shards, count - 1) is Some {
            let before = shards_collected(target, sources, manifest, shards, count - 1)->0;
            lemma_one_collected(target, sources, manifest, before, shards, count - 1);
            assert(are_collectable(target, sources, manifest, shards, count) <==> {
                &&& is_sound(target, sources, manifest, shards[count - 1])
                &&& forall|i: int|
                    0 <= i < count - 1 ==> are_apart(#[trigger] shards[i], shards[count - 1])
            });
        } else {
            assert(!are_collectable(target, sources, manifest, shards, count));
        }
    }
}

/// What is collected of shards is the same in every order.
proof fn lemma_shards_moved(
    target: Seq<char>,
    sources: Map<Seq<char>, Seq<char>>,
    manifest: Map<Seq<char>, Seq<char>>,
    left: Seq<GraphSnapshotShardModel>,
    right: Seq<GraphSnapshotShardModel>,
)
    requires
        left.to_multiset() == right.to_multiset(),
        shards_collected(target, sources, manifest, left, left.len() as int) is Some,
    ensures
        shards_collected(target, sources, manifest, left, left.len() as int) == shards_collected(
            target,
            sources,
            manifest,
            right,
            right.len() as int,
        ),
{
    lemma_collected(target, sources, manifest, left, left.len() as int);
    lemma_collected(target, sources, manifest, right, right.len() as int);
    let key = |shard: GraphSnapshotShardModel| shard.key;
    assert(have_distinct_names(left, key)) by {
        assert forall|i: int, j: int| 0 <= i < j < left.len() implies key(#[trigger] left[i])
            != key(#[trigger] left[j]) by {
            assert(are_apart(left[i], left[j]));
        }
    }
    lemma_names_differ(left, key);
    assert forall|i: int| 0 <= i < right.len() implies is_sound(
        target,
        sources,
        manifest,
        #[trigger] right[i],
    ) by {
        let k = lemma_stays(right, left, i);
        assert(is_sound(target, sources, manifest, left[k]));
    }
    assert forall|i: int, j: int| 0 <= i < j < right.len() implies are_apart(
        #[trigger] right[i],
        #[trigger] right[j],
    ) by {
        let (k, l) = lemma_places(left, right, i, j);
        if k < l {
            assert(are_apart(left[k], left[l]));
        } else {
            assert(are_apart(left[l], left[k]));
        }
    }
    assert(are_collectable(target, sources, manifest, right, right.len() as int));
    let l = shards_collected(target, sources, manifest, left, left.len() as int)->0;
    let r = shards_collected(target, sources, manifest, right, right.len() as int)->0;
    lemma_collections_equal(l, r, left, right);
    lemma_collections_equal(r, l, right, left);
    assert(l.shards =~= r.shards);
    assert(l.interface_fingerprints =~= r.interface_fingerprints);
    assert(l.node_owners =~= r.node_owners);
}

proof fn lemma_collections_equal(
    l: CollectedModel,
    r: CollectedModel,
    left: Seq<GraphSnapshotShardModel>,
    right: Seq<GraphSnapshotShardModel>,
)
    requires
        left.to_multiset() == right.to_multiset(),
        is_collection(l, left, left.len() as int),
        is_collection(r, right, right.len() as int),
    ensures
        forall|key: Seq<char>| #[trigger]
            l.shards.contains_key(key) ==> r.shards.contains_key(key) && l.shards[key]
                == r.shards[key],
        forall|source: Seq<char>| #[trigger]
            l.interface_fingerprints.contains_key(source)
                ==> r.interface_fingerprints.contains_key(source)
                && l.interface_fingerprints[source] == r.interface_fingerprints[source],
        forall|id: Seq<char>| #[trigger]
            l.node_owners.contains_key(id) ==> r.node_owners.contains_key(id) && l.node_owners[id]
                == r.node_owners[id],
{
    assert forall|key: Seq<char>| #[trigger]
        l.shards.contains_key(key) implies r.shards.contains_key(key) && l.shards[key]
        == r.shards[key] by {
        let i = choose|i: int| 0 <= i < left.len() && (#[trigger] left[i]).key == key;
        let j = lemma_stays(left, right, i);
        assert(r.shards.contains_key(right[j].key));
    }
    assert forall|source: Seq<char>| #[trigger]
        l.interface_fingerprints.contains_key(
            source,
        ) implies r.interface_fingerprints.contains_key(source) && l.interface_fingerprints[source]
        == r.interface_fingerprints[source] by {
        let i = choose|i: int| 0 <= i < left.len() && (#[trigger] left[i]).source == source;
        let j = lemma_stays(left, right, i);
        assert(r.interface_fingerprints.contains_key(right[j].source));
    }
    assert forall|id: Seq<char>| #[trigger]
        l.node_owners.contains_key(id) implies r.node_owners.contains_key(id) && l.node_owners[id]
        == r.node_owners[id] by {
        let i = choose|i: int| 0 <= i < left.len() && owns(#[trigger] left[i], id);
        let j = lemma_stays(left, right, i);
        assert(owns(left[i], id) && owns(right[j], id));
    }
}

/// Whether two checkpoints are the same but for the order of their lists.
pub open spec fn is_rearranged(
    left: GraphSnapshotCheckpointModel,
    right: GraphSnapshotCheckpointModel,
) -> bool {
    &&& left.protocol_version == right.protocol_version
    &&& left.schema_version == right.schema_version
    &&& left.producer == right.producer
    &&& left.universe == right.universe
    &&& left.generation == right.generation
    &&& left.sources.to_multiset() == right.sources.to_multiset()
    &&& left.manifest.to_multiset() == right.manifest.to_multiset()
    &&& left.shards.to_multiset() == right.shards.to_multiset()
}

/// One of two checkpoints that differ in the order of their lists stands for what the other one
/// stands for.
proof fn lemma_parts_moved(
    files: Map<FileId, SourceFileModel>,
    producer: GraphSnapshotProducerModel,
    universe: GraphSnapshotUniverseModel,
    left: GraphSnapshotCheckpointModel,
    right: GraphSnapshotCheckpointModel,
    known: Option<Seq<char>>,
    source_inputs: Map<FileId, Seq<char>>,
)
    requires
        is_rearranged(left, right),
        have_distinct_names(left.manifest, entry_key()),
    ensures
        checkpoint_parts(files, producer, universe, left, known, source_inputs)
            == checkpoint_parts(files, producer, universe, right, known, source_inputs),
{
    let inputs = ordered::<FileId, Seq<char>>(source_inputs);
    let sources = digests_by_path(files, inputs, inputs.len() as int);
    let manifest = sorted_manifest(left.manifest);
    let digests = manifest_map(manifest, manifest.len() as int);
    let l = claimed_digests(left.sources, left.sources.len() as int);
    let r = claimed_digests(right.sources, right.sources.len() as int);
    vstd::seq_lib::to_multiset_len(left.sources);
    vstd::seq_lib::to_multiset_len(right.sources);
    vstd::seq_lib::to_multiset_len(left.manifest);
    vstd::seq_lib::to_multiset_len(right.manifest);
    vstd::seq_lib::to_multiset_len(left.shards);
    vstd::seq_lib::to_multiset_len(right.shards);
    lemma_manifest_moved(left.manifest, right.manifest);
    if l.len() == left.sources.len() {
        lemma_claims_moved(left.sources, right.sources);
    }
    if r.len() == right.sources.len() {
        lemma_claims_moved(right.sources, left.sources);
    }
    let shards = shards_collected(
        universe.target,
        sources,
        digests,
        left.shards,
        left.shards.len() as int,
    );
    let others = shards_collected(
        universe.target,
        sources,
        digests,
        right.shards,
        right.shards.len() as int,
    );
    if shards is Some {
        lemma_shards_moved(universe.target, sources, digests, left.shards, right.shards);
    }
    if others is Some {
        lemma_shards_moved(universe.target, sources, digests, right.shards, left.shards);
    }
    assert(shards == others);
}

/// The order in which a checkpoint lists its source files, the entries of its manifest and its shards
/// has no effect: in every order it is valid or it is not, and it stands for the same where it is. An
/// invalid one is refused for the same reason where no two entries of its manifest have one key.
pub proof fn law_checkpoint_order_is_ignored(
    files: Map<FileId, SourceFileModel>,
    producer: GraphSnapshotProducerModel,
    universe: GraphSnapshotUniverseModel,
    left: GraphSnapshotCheckpointModel,
    right: GraphSnapshotCheckpointModel,
    known: Option<Seq<char>>,
    source_inputs: Map<FileId, Seq<char>>,
)
    requires
        is_rearranged(left, right),
    ensures
        ({
            let one = checkpoint_parts(files, producer, universe, left, known, source_inputs);
            let other = checkpoint_parts(files, producer, universe, right, known, source_inputs);
            &&& one is Ok <==> other is Ok
            &&& one is Ok ==> one == other
            &&& have_distinct_names(left.manifest, entry_key()) ==> one == other
        }),
{
    lemma_manifest_sorted(left.manifest);
    lemma_manifest_sorted(right.manifest);
    if have_distinct_names(left.manifest, entry_key()) {
        lemma_parts_moved(files, producer, universe, left, right, known, source_inputs);
    } else if have_distinct_names(right.manifest, entry_key()) {
        lemma_names_stay_distinct(right.manifest, left.manifest, entry_key());
    }
}

/// Whether a file is the last of those under its path.
pub open spec fn is_last_at(
    files: Map<FileId, SourceFileModel>,
    source_inputs: Map<FileId, Seq<char>>,
    id: FileId,
) -> bool {
    &&& source_inputs.contains_key(id)
    &&& forall|other: FileId| #[trigger]
        source_inputs.contains_key(other) && source_of(files, other) == source_of(files, id)
            ==> other.0 <= id.0
}

/// Whether a source file of a checkpoint has the digest that it has now.
pub open spec fn is_up_to_date(
    files: Map<FileId, SourceFileModel>,
    source_inputs: Map<FileId, Seq<char>>,
    claim: GraphSnapshotSourceModel,
) -> bool {
    exists|id: FileId| #[trigger]
        is_last_at(files, source_inputs, id) && source_of(files, id) == claim.source
            && source_inputs[id] == claim.checker_digest
}

/// Whether a checkpoint has a source file.
pub open spec fn is_claimed(claims: Seq<GraphSnapshotSourceModel>, source: Seq<char>) -> bool {
    exists|i: int| 0 <= i < claims.len() && (#[trigger] claims[i]).source == source
}

/// Whether the source files of a checkpoint are those of now, each once and with its digest.
pub open spec fn are_up_to_date(
    files: Map<FileId, SourceFileModel>,
    source_inputs: Map<FileId, Seq<char>>,
    claims: Seq<GraphSnapshotSourceModel>,
) -> bool {
    &&& forall|i: int, j: int|
        0 <= i < j < claims.len() ==> (#[trigger] claims[i]).source != (#[trigger] claims[j]).source
    &&& forall|i: int|
        0 <= i < claims.len() ==> is_up_to_date(files, source_inputs, #[trigger] claims[i])
    &&& forall|id: FileId| #[trigger]
        source_inputs.contains_key(id) ==> is_claimed(claims, source_of(files, id))
}

/// Whether a text is a digest: as many hexadecimal digits as one has.
pub open spec fn is_hexadecimal(text: Seq<char>) -> bool {
    &&& text.len() == 64
    &&& forall|i: int|
        0 <= i < text.len() ==> ('0' <= #[trigger] text[i] <= '9' || 'a' <= text[i] <= 'f')
}

/// Whether a manifest gives a key a digest.
pub open spec fn is_entered(
    manifest: Seq<GraphSnapshotManifestEntryModel>,
    key: Seq<char>,
    digest: Seq<char>,
) -> bool {
    exists|i: int|
        0 <= i < manifest.len() && (#[trigger] manifest[i]).key == key && manifest[i].digest
            == digest
}

/// Whether a shard of a checkpoint is what it should be: its key is that of its target and its source
/// file, it was made for the digest that this has now, its interface is told by a digest, the manifest
/// lists it, its digest is that of its content, and no two of its nodes have one identity.
pub open spec fn is_genuine(
    target: Seq<char>,
    checkpoint: GraphSnapshotCheckpointModel,
    shard: GraphSnapshotShardModel,
) -> bool {
    &&& shard.key == target + "\0"@ + shard.source
    &&& exists|i: int|
        0 <= i < checkpoint.sources.len() && (#[trigger] checkpoint.sources[i]).source
            == shard.source && checkpoint.sources[i].checker_digest == shard.checker_digest
    &&& is_hexadecimal(shard.interface_fingerprint)
    &&& is_entered(checkpoint.manifest, shard.key, shard.digest)
    &&& shard.digest == json_digest(
        shard_json(
            shard.key,
            shard.source,
            shard.checker_digest,
            shard.interface_fingerprint,
            shard.nodes,
            shard.edges,
            shard.diagnostics,
            shard.coverage,
            shard.unresolved,
        ),
    )
    &&& forall|n: int, m: int|
        0 <= n < m < shard.nodes.len() ==> (#[trigger] shard.nodes[n]).id != (
        #[trigger] shard.nodes[m]).id
}

/// Whether two shards have neither key nor source file nor node in common.
pub open spec fn are_separate(
    left: GraphSnapshotShardModel,
    right: GraphSnapshotShardModel,
) -> bool {
    &&& left.key != right.key
    &&& left.source != right.source
    &&& forall|n: int, m: int|
        0 <= n < left.nodes.len() && 0 <= m < right.nodes.len() ==> (#[trigger] left.nodes[n]).id
            != (#[trigger] right.nodes[m]).id
}

/// Whether a checkpoint is valid for a workspace.
pub open spec fn is_valid_checkpoint(
    files: Map<FileId, SourceFileModel>,
    producer: GraphSnapshotProducerModel,
    universe: GraphSnapshotUniverseModel,
    checkpoint: GraphSnapshotCheckpointModel,
    known: Option<Seq<char>>,
    source_inputs: Map<FileId, Seq<char>>,
) -> bool {
    let manifest = checkpoint.manifest;
    let shards = checkpoint.shards;
    &&& checkpoint.protocol_version == PROTOCOL_VERSION
    &&& checkpoint.schema_version == SCHEMA_VERSION
    &&& checkpoint.producer == producer
    &&& checkpoint.universe == universe.digest
    &&& known == Some(checkpoint.generation)
    &&& are_up_to_date(files, source_inputs, checkpoint.sources)
    &&& shards.len() == checkpoint.sources.len()
    &&& manifest.len() == checkpoint.sources.len()
    &&& forall|i: int|
        0 <= i < shards.len() ==> is_genuine(universe.target, checkpoint, #[trigger] shards[i])
    &&& forall|i: int, j: int|
        0 <= i < j < shards.len() ==> are_separate(#[trigger] shards[i], #[trigger] shards[j])
    &&& forall|i: int, j: int|
        0 <= i < j < manifest.len() ==> (#[trigger] manifest[i]).key != (#[trigger] manifest[j]).key
    &&& forall|i: int|
        0 <= i < manifest.len() ==> is_hexadecimal((#[trigger] manifest[i]).digest)
    &&& checkpoint.generation == json_digest(
        generation_json(universe.digest, sorted_manifest(manifest)),
    )
}

proof fn lemma_by_path(
    files: Map<FileId, SourceFileModel>,
    source_inputs: Map<FileId, Seq<char>>,
    listing: Seq<(FileId, Seq<char>)>,
    count: int,
)
    requires
        lists::<FileId, Seq<char>>(listing, source_inputs),
        0 <= count <= listing.len(),
    ensures
        ({
            let found = digests_by_path(files, listing, count);
            &&& forall|k: int|
                0 <= k < count ==> found.contains_key(source_of(files, (#[trigger] listing[k]).0))
            &&& forall|source: Seq<char>| #[trigger]
                found.contains_key(source) ==> exists|k: int|
                    0 <= k < count && source_of(files, (#[trigger] listing[k]).0) == source
                        && found[source] == listing[k].1 && forall|later: int|
                        k < later < count ==> source_of(files, (#[trigger] listing[later]).0)
                            != source
        }),
    decreases count,
{
    if count > 0 {
        lemma_by_path(files, source_inputs, listing, count - 1);
        let before = digests_by_path(files, listing, count - 1);
        let found = digests_by_path(files, listing, count);
        let last = source_of(files, listing[count - 1].0);
        assert forall|source: Seq<char>| #[trigger] found.contains_key(source) implies exists|
            k: int,
        |
            0 <= k < count && source_of(files, (#[trigger] listing[k]).0) == source && found[source]
                == listing[k].1 && forall|later: int|
                k < later < count ==> source_of(files, (#[trigger] listing[later]).0) != source by {
            if source == last {
                assert(source_of(files, listing[count - 1].0) == source);
            } else {
                assert(before.contains_key(source));
                let k = choose|k: int|
                    0 <= k < count - 1 && source_of(files, (#[trigger] listing[k]).0) == source
                        && before[source] == listing[k].1 && forall|later: int|
                        k < later < count - 1 ==> source_of(files, (#[trigger] listing[later]).0)
                            != source;
                assert(source_of(files, listing[k].0) == source);
            }
        }
    }
}

/// The digests by path are those of the last file under each path.
proof fn lemma_last_at(
    files: Map<FileId, SourceFileModel>,
    source_inputs: Map<FileId, Seq<char>>,
    source: Seq<char>,
)
    requires
        source_inputs.dom().finite(),
    ensures
        ({
            let listing = ordered::<FileId, Seq<char>>(source_inputs);
            let found = digests_by_path(files, listing, listing.len() as int);
            &&& forall|id: FileId| #[trigger]
                source_inputs.contains_key(id) && source_of(files, id) == source
                    ==> found.contains_key(source)
            &&& found.contains_key(source) ==> exists|id: FileId| #[trigger]
                is_last_at(files, source_inputs, id) && source_of(files, id) == source
                    && source_inputs[id] == found[source]
            &&& forall|id: FileId| #[trigger]
                is_last_at(files, source_inputs, id) && source_of(files, id) == source
                    ==> found.contains_key(source) && found[source] == source_inputs[id]
        }),
{
    let listing = ordered::<FileId, Seq<char>>(source_inputs);
    let found = digests_by_path(files, listing, listing.len() as int);
    lemma_ordered_lists::<FileId, Seq<char>>(source_inputs);
    lemma_by_path(files, source_inputs, listing, listing.len() as int);
    assert forall|id: FileId| #[trigger]
        source_inputs.contains_key(id) && source_of(files, id) == source implies found.contains_key(
        source,
    ) by {
        let k = choose|k: int| 0 <= k < listing.len() && (#[trigger] listing[k]).0 == id;
        assert(found.contains_key(source_of(files, listing[k].0)));
    }
    if found.contains_key(source) {
        let k = choose|k: int|
            0 <= k < listing.len() && source_of(files, (#[trigger] listing[k]).0) == source
                && found[source] == listing[k].1 && forall|later: int|
                k < later < listing.len() ==> source_of(files, (#[trigger] listing[later]).0)
                    != source;
        let chosen = listing[k].0;
        assert(source_inputs.contains_key(chosen) && source_inputs[chosen] == listing[k].1);
        assert forall|other: FileId| #[trigger]
            source_inputs.contains_key(other) && source_of(files, other) == source_of(
                files,
                chosen,
            ) implies other.0 <= chosen.0 by {
            let m = choose|m: int| 0 <= m < listing.len() && (#[trigger] listing[m]).0 == other;
            if m > k {
                assert(source_of(files, listing[m].0) != source);
            } else if m < k {
                assert(<FileId as Key>::before(listing[m].0, listing[k].0));
            }
        }
        assert(is_last_at(files, source_inputs, chosen));
        assert forall|id: FileId| #[trigger]
            is_last_at(files, source_inputs, id) && source_of(files, id) == source implies id
            == chosen by {
            assert(source_inputs.contains_key(id));
            assert(chosen.0 <= id.0 && id.0 <= chosen.0);
        }
    }
}

proof fn lemma_claims(
    files: Map<FileId, SourceFileModel>,
    source_inputs: Map<FileId, Seq<char>>,
    claims: Seq<GraphSnapshotSourceModel>,
)
    requires
        source_inputs.dom().finite(),
    ensures
        ({
            let listing = ordered::<FileId, Seq<char>>(source_inputs);
            let sources = digests_by_path(files, listing, listing.len() as int);
            let claimed = claimed_digests(claims, claims.len() as int);
            &&& claimed.len() == claims.len() && claimed == sources <==> are_up_to_date(
                files,
                source_inputs,
                claims,
            )
        }),
{
    let listing = ordered::<FileId, Seq<char>>(source_inputs);
    let sources = digests_by_path(files, listing, listing.len() as int);
    let claimed = claimed_digests(claims, claims.len() as int);
    lemma_claimed(claims, claims.len() as int);
    assert(claims.take(claims.len() as int) =~= claims);
    if claimed.len() == claims.len() && claimed == sources {
        assert forall|i: int, j: int| 0 <= i < j < claims.len() implies (#[trigger] claims[i]).source
            != (#[trigger] claims[j]).source by {
            assert(source_name()(claims[i]) != source_name()(claims[j]));
        }
        assert forall|i: int| 0 <= i < claims.len() implies is_up_to_date(
            files,
            source_inputs,
            #[trigger] claims[i],
        ) by {
            lemma_last_at(files, source_inputs, claims[i].source);
            assert(claimed.contains_key(claims[i].source));
        }
        assert forall|id: FileId| #[trigger] source_inputs.contains_key(id) implies is_claimed(
            claims,
            source_of(files, id),
        ) by {
            lemma_last_at(files, source_inputs, source_of(files, id));
            assert(claimed.contains_key(source_of(files, id)));
        }
    }
    if are_up_to_date(files, source_inputs, claims) {
        assert(have_distinct_names(claims, source_name())) by {
            assert forall|i: int, j: int| 0 <= i < j < claims.len() implies source_name()(
                #[trigger] claims[i],
            ) != source_name()(#[trigger] claims[j]) by {
                assert(claims[i].source != claims[j].source);
            }
        }
        assert forall|source: Seq<char>| #[trigger] claimed.contains_key(
            source,
        ) <==> sources.contains_key(source) by {
            lemma_last_at(files, source_inputs, source);
            if claimed.contains_key(source) {
                let i = choose|i: int| 0 <= i < claims.len() && (#[trigger] claims[i]).source
                    == source;
                assert(is_up_to_date(files, source_inputs, claims[i]));
            }
            if sources.contains_key(source) {
                let id = choose|id: FileId| #[trigger]
                    is_last_at(files, source_inputs, id) && source_of(files, id) == source
                        && source_inputs[id] == sources[source];
                assert(is_claimed(claims, source_of(files, id)));
            }
        }
        assert forall|source: Seq<char>| #[trigger] claimed.contains_key(
            source,
        ) implies claimed[source] == sources[source] by {
            lemma_last_at(files, source_inputs, source);
            let i = choose|i: int| 0 <= i < claims.len() && (#[trigger] claims[i]).source == source;
            assert(is_up_to_date(files, source_inputs, claims[i]));
            assert(claimed[claims[i].source] == claims[i].checker_digest);
        }
        assert(claimed =~= sources);
    }
}

proof fn lemma_hexadecimal(text: Seq<char>)
    ensures
        is_hexadecimal(text) <==> crate::digest::is_digest_text(text),
{
    if is_hexadecimal(text) {
        assert forall|i: int| 0 <= i < text.len() implies crate::digest::is_digest_char(
            #[trigger] text[i],
        ) by {}
    }
    if crate::digest::is_digest_text(text) {
        assert forall|i: int| 0 <= i < text.len() implies ('0' <= #[trigger] text[i] <= '9' || 'a'
            <= text[i] <= 'f') by {
            assert(crate::digest::is_digest_char(text[i]));
        }
    }
}

proof fn lemma_entered(
    manifest: Seq<GraphSnapshotManifestEntryModel>,
    key: Seq<char>,
    digest: Seq<char>,
)
    requires
        sorted_manifest(manifest).len() == manifest.len(),
    ensures
        ({
            let sorted = sorted_manifest(manifest);
            let map = manifest_map(sorted, sorted.len() as int);
            map.contains_key(key) && map[key] == digest <==> is_entered(manifest, key, digest)
        }),
{
    let sorted = sorted_manifest(manifest);
    let map = manifest_map(sorted, sorted.len() as int);
    lemma_manifest_sorted(manifest);
    lemma_manifest_map(sorted, sorted.len() as int);
    if map.contains_key(key) && map[key] == digest {
        let i = choose|i: int| 0 <= i < sorted.len() && (#[trigger] sorted[i]).key == key;
        let j = lemma_stays(sorted, manifest, i);
        assert(manifest[j].key == key);
    }
    if is_entered(manifest, key, digest) {
        let i = choose|i: int|
            0 <= i < manifest.len() && (#[trigger] manifest[i]).key == key && manifest[i].digest
                == digest;
        let j = lemma_stays(manifest, sorted, i);
        assert(sorted[j].key == key);
    }
}

proof fn lemma_separate(left: GraphSnapshotShardModel, right: GraphSnapshotShardModel)
    ensures
        are_apart(left, right) <==> are_separate(left, right),
{
    if are_apart(left, right) {
        assert forall|n: int, m: int|
            0 <= n < left.nodes.len() && 0 <= m < right.nodes.len() implies (
        #[trigger] left.nodes[n]).id != (#[trigger] right.nodes[m]).id by {
            assert(has_node(left.nodes, left.nodes.len() as int, left.nodes[n].id));
            assert(!has_node(right.nodes, right.nodes.len() as int, left.nodes[n].id));
        }
    }
    if are_separate(left, right) {
        assert forall|id: Seq<char>| #[trigger]
            has_node(left.nodes, left.nodes.len() as int, id) implies !has_node(
            right.nodes,
            right.nodes.len() as int,
            id,
        ) by {
            let n = choose|n: int| 0 <= n < left.nodes.len() && (#[trigger] left.nodes[n]).id == id;
            if has_node(right.nodes, right.nodes.len() as int, id) {
                let m = choose|m: int|
                    0 <= m < right.nodes.len() && (#[trigger] right.nodes[m]).id == id;
                assert(left.nodes[n].id != right.nodes[m].id);
            }
        }
    }
}

proof fn lemma_genuine(
    target: Seq<char>,
    checkpoint: GraphSnapshotCheckpointModel,
    shard: GraphSnapshotShardModel,
)
    requires
        sorted_manifest(checkpoint.manifest).len() == checkpoint.manifest.len(),
        claimed_digests(checkpoint.sources, checkpoint.sources.len() as int).len()
            == checkpoint.sources.len(),
    ensures
        ({
            let sorted = sorted_manifest(checkpoint.manifest);
            is_sound(
                target,
                claimed_digests(checkpoint.sources, checkpoint.sources.len() as int),
                manifest_map(sorted, sorted.len() as int),
                shard,
            ) <==> is_genuine(target, checkpoint, shard)
        }),
{
    let claims = checkpoint.sources;
    let claimed = claimed_digests(claims, claims.len() as int);
    lemma_hexadecimal(shard.interface_fingerprint);
    lemma_entered(checkpoint.manifest, shard.key, shard.digest);
    lemma_claimed(claims, claims.len() as int);
    if claimed.contains_key(shard.source) && claimed[shard.source] == shard.checker_digest {
        let i = choose|i: int| 0 <= i < claims.len() && (#[trigger] claims[i]).source
            == shard.source;
        assert(claimed[claims[i].source] == claims[i].checker_digest);
        assert(checkpoint.sources[i].source == shard.source);
    }
    if exists|i: int|
        0 <= i < checkpoint.sources.len() && (#[trigger] checkpoint.sources[i]).source
            == shard.source && checkpoint.sources[i].checker_digest == shard.checker_digest {
        let i = choose|i: int|
            0 <= i < checkpoint.sources.len() && (#[trigger] checkpoint.sources[i]).source
                == shard.source && checkpoint.sources[i].checker_digest == shard.checker_digest;
        assert(claims[i].source == shard.source);
        assert(claimed.contains_key(claims[i].source));
    }
}

/// A checkpoint is accepted exactly where it is valid: it was made by this producer for this universe
/// and is the one that the client knows, its source files are those of now with the digests that they
/// have now, it has one shard for each of them, which is what it should be and shares nothing with
/// another, and its manifest lists these and has the known generation as its digest.
pub proof fn law_checkpoints_are_accepted_where_valid(
    files: Map<FileId, SourceFileModel>,
    producer: GraphSnapshotProducerModel,
    universe: GraphSnapshotUniverseModel,
    checkpoint: GraphSnapshotCheckpointModel,
    known: Option<Seq<char>>,
    source_inputs: Map<FileId, Seq<char>>,
)
    requires
        source_inputs.dom().finite(),
    ensures
        checkpoint_parts(files, producer, universe, checkpoint, known, source_inputs) is Ok
            <==> is_valid_checkpoint(files, producer, universe, checkpoint, known, source_inputs),
{
    let listing = ordered::<FileId, Seq<char>>(source_inputs);
    let sources = digests_by_path(files, listing, listing.len() as int);
    let claims = checkpoint.sources;
    let claimed = claimed_digests(claims, claims.len() as int);
    let manifest = checkpoint.manifest;
    let sorted = sorted_manifest(manifest);
    let map = manifest_map(sorted, sorted.len() as int);
    let shards = checkpoint.shards;
    lemma_claims(files, source_inputs, claims);
    lemma_manifest_sorted(manifest);
    lemma_collected(universe.target, sources, map, shards, shards.len() as int);
    assert(have_distinct_names(manifest, entry_key()) <==> forall|i: int, j: int|
        0 <= i < j < manifest.len() ==> (#[trigger] manifest[i]).key != (
        #[trigger] manifest[j]).key) by {
        if have_distinct_names(manifest, entry_key()) {
            assert forall|i: int, j: int| 0 <= i < j < manifest.len() implies (
            #[trigger] manifest[i]).key != (#[trigger] manifest[j]).key by {
                assert(entry_key()(manifest[i]) != entry_key()(manifest[j]));
            }
        }
    }
    if claimed.len() == claims.len() && claimed == sources && sorted.len() == manifest.len() {
        assert forall|i: int| 0 <= i < shards.len() implies is_sound(
            universe.target,
            sources,
            map,
            #[trigger] shards[i],
        ) == is_genuine(universe.target, checkpoint, shards[i]) by {
            lemma_genuine(universe.target, checkpoint, shards[i]);
        }
        assert forall|i: int, j: int| 0 <= i < j < shards.len() implies are_apart(
            #[trigger] shards[i],
            #[trigger] shards[j],
        ) == are_separate(shards[i], shards[j]) by {
            lemma_separate(shards[i], shards[j]);
        }
        assert(has_digests(sorted) <==> forall|i: int|
            0 <= i < manifest.len() ==> is_hexadecimal((#[trigger] manifest[i]).digest)) by {
            if has_digests(sorted) {
                assert forall|i: int| 0 <= i < manifest.len() implies is_hexadecimal(
                    (#[trigger] manifest[i]).digest,
                ) by {
                    let j = lemma_stays(manifest, sorted, i);
                    lemma_hexadecimal(sorted[j].digest);
                }
            }
            if forall|i: int|
                0 <= i < manifest.len() ==> is_hexadecimal((#[trigger] manifest[i]).digest) {
                assert forall|i: int| 0 <= i < sorted.len() implies crate::digest::is_digest_text(
                    (#[trigger] sorted[i]).digest,
                ) by {
                    let j = lemma_stays(sorted, manifest, i);
                    assert(is_hexadecimal(manifest[j].digest));
                    lemma_hexadecimal(sorted[i].digest);
                }
            }
        }
    }
}

/// What is taken over from a valid checkpoint is what its shards hold: each under its key, the
/// interface of its source file, and its nodes as those of its source file, and nothing else.
pub proof fn law_checkpoints_are_taken_over(
    files: Map<FileId, SourceFileModel>,
    producer: GraphSnapshotProducerModel,
    universe: GraphSnapshotUniverseModel,
    checkpoint: GraphSnapshotCheckpointModel,
    known: Option<Seq<char>>,
    source_inputs: Map<FileId, Seq<char>>,
)
    ensures
        checkpoint_parts(
            files,
            producer,
            universe,
            checkpoint,
            known,
            source_inputs,
        ) matches Ok(parts) ==> {
            let shards = checkpoint.shards;
            &&& forall|i: int|
                0 <= i < shards.len() ==> {
                    &&& parts.shards.contains_key((#[trigger] shards[i]).key)
                    &&& parts.shards[shards[i].key] == shards[i]
                    &&& parts.interface_fingerprints.contains_key(shards[i].source)
                    &&& parts.interface_fingerprints[shards[i].source]
                        == shards[i].interface_fingerprint
                }
            &&& forall|i: int, n: int|
                0 <= i < shards.len() && 0 <= n < shards[i].nodes.len()
                    ==> parts.node_owners.contains_key((#[trigger] shards[i].nodes[n]).id)
                    && parts.node_owners[shards[i].nodes[n].id] == shards[i].source
            &&& forall|key: Seq<char>| #[trigger]
                parts.shards.contains_key(key) ==> exists|i: int|
                    0 <= i < shards.len() && (#[trigger] shards[i]).key == key
            &&& forall|source: Seq<char>| #[trigger]
                parts.interface_fingerprints.contains_key(source) ==> exists|i: int|
                    0 <= i < shards.len() && (#[trigger] shards[i]).source == source
            &&& forall|id: Seq<char>| #[trigger]
                parts.node_owners.contains_key(id) ==> exists|i: int, n: int|
                    0 <= i < shards.len() && 0 <= n < shards[i].nodes.len() && (
                    #[trigger] shards[i].nodes[n]).id == id
        },
{
    let listing = ordered::<FileId, Seq<char>>(source_inputs);
    let sources = digests_by_path(files, listing, listing.len() as int);
    let sorted = sorted_manifest(checkpoint.manifest);
    let map = manifest_map(sorted, sorted.len() as int);
    let shards = checkpoint.shards;
    lemma_collected(universe.target, sources, map, shards, shards.len() as int);
    if checkpoint_parts(files, producer, universe, checkpoint, known, source_inputs) is Ok {
        let parts = checkpoint_parts(
            files,
            producer,
            universe,
            checkpoint,
            known,
            source_inputs,
        )->Ok_0;
        let collected = shards_collected(
            universe.target,
            sources,
            map,
            shards,
            shards.len() as int,
        )->0;
        assert(is_collection(collected, shards, shards.len() as int));
        assert forall|i: int, n: int|
            0 <= i < shards.len() && 0 <= n
                < shards[i].nodes.len() implies parts.node_owners.contains_key(
            (#[trigger] shards[i].nodes[n]).id,
        ) && parts.node_owners[shards[i].nodes[n].id] == shards[i].source by {
            assert(owns(shards[i], shards[i].nodes[n].id));
        }
        assert forall|id: Seq<char>| #[trigger] parts.node_owners.contains_key(
            id,
        ) implies exists|i: int, n: int|
            0 <= i < shards.len() && 0 <= n < shards[i].nodes.len() && (
            #[trigger] shards[i].nodes[n]).id == id by {
            assert(collected.node_owners.contains_key(id));
            let i = choose|i: int| 0 <= i < shards.len() && owns(#[trigger] shards[i], id);
            let n = choose|n: int|
                0 <= n < shards[i].nodes.len() && (#[trigger] shards[i].nodes[n]).id == id;
            assert(shards[i].nodes[n].id == id);
        }
        assert(parts.shards == collected.shards);
        assert(parts.interface_fingerprints == collected.interface_fingerprints);
        assert forall|key: Seq<char>| #[trigger] parts.shards.contains_key(key) implies exists|
            i: int,
        |
            0 <= i < shards.len() && (#[trigger] shards[i]).key == key by {
            assert(collected.shards.contains_key(key));
        }
        assert forall|source: Seq<char>| #[trigger] parts.interface_fingerprints.contains_key(
            source,
        ) implies exists|i: int| 0 <= i < shards.len() && (#[trigger] shards[i]).source
            == source by {
            assert(collected.interface_fingerprints.contains_key(source));
        }
    }
}

} // verus!
