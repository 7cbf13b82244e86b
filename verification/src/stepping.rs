//! What a request goes through before it is answered, and what it leaves behind.

use vstd::prelude::*;

use crate::cache::{
    CachedSnapshotModel, GraphSnapshotCacheModel, answer, current_of, external_events_drained,
    file_numbers, planned,
};
use crate::commit::{CommitModel, all_shards, merged, next_snapshot, paths_of, snapshot_committed};
use crate::ensure::{
    CaptureOutcomeModel, EnsureEventModel, EnsureProgressModel, EnsureStateModel, ensured,
};
use crate::error::GraphErrorModel;
use crate::files::{FileId, SourceFileModel, source_of};
use crate::fingerprints::{has_interface_change, interface_fingerprints};
use crate::handle::{
    HandleActionModel, HandleEventModel, HandleProgressModel, HandleRequestModel, HandleStateModel,
    PendingBuildModel, PendingCommitModel, PendingIndexModel, action_of, is_step, retained_owners,
};
use crate::shards::built;
use crate::snapshot::GraphSnapshotShardModel;
use crate::static_index::{StaticIndexModel, StaticIndexedFileModel};

verus! {

/// Whether a source file is one of those that files stand for.
pub open spec fn is_path_of(
    files: Map<FileId, SourceFileModel>,
    ids: Seq<FileId>,
    source: Seq<char>,
) -> bool {
    exists|i: int| 0 <= i < ids.len() && source_of(files, #[trigger] ids[i]) == source
}

/// Interfaces changed exactly where a changed source file has another interface than before, had none
/// before, or has none now. Without changed files nothing changed.
pub proof fn law_interface_changes_are_noticed(
    cached: Map<Seq<char>, Seq<char>>,
    current: Map<Seq<char>, Seq<char>>,
    dirty: Set<Seq<char>>,
    source: Seq<char>,
)
    ensures
        dirty.contains(source) && !(cached.contains_key(source) && current.contains_key(source)
            && cached[source] == current[source]) ==> has_interface_change(cached, current, dirty),
        has_interface_change(cached, current, dirty) ==> exists|moved: Seq<char>| #[trigger]
            dirty.contains(moved) && !(cached.contains_key(moved) && current.contains_key(moved)
                && cached[moved] == current[moved]),
        has_interface_change(cached, current, dirty) == has_interface_change(
            current,
            cached,
            dirty,
        ),
{
    if has_interface_change(cached, current, dirty) {
        let moved = choose|moved: Seq<char>| #[trigger]
            dirty.contains(moved) && (!cached.contains_key(moved) || !current.contains_key(moved)
                || cached[moved] != current[moved]);
        assert(dirty.contains(moved));
    }
    if has_interface_change(current, cached, dirty) {
        let moved = choose|moved: Seq<char>| #[trigger]
            dirty.contains(moved) && (!current.contains_key(moved) || !cached.contains_key(moved)
                || current[moved] != cached[moved]);
        assert(dirty.contains(moved));
    }
}

/// Whether a shard is the last of a list under its key.
pub open spec fn is_last_built(shards: Seq<GraphSnapshotShardModel>, i: int) -> bool {
    &&& 0 <= i < shards.len()
    &&& forall|j: int| i < j < shards.len() ==> (#[trigger] shards[j]).key != shards[i].key
}

proof fn lemma_merged(
    shards: Map<Seq<char>, GraphSnapshotShardModel>,
    built: Seq<GraphSnapshotShardModel>,
    count: int,
    key: Seq<char>,
)
    requires
        0 <= count <= built.len(),
    ensures
        (forall|i: int| 0 <= i < count ==> (#[trigger] built[i]).key != key) ==> merged(
            shards,
            built,
            count,
        ).contains_key(key) == shards.contains_key(key) && (shards.contains_key(key) ==> merged(
            shards,
            built,
            count,
        )[key] == shards[key]),
        forall|i: int|
            0 <= i < count && (#[trigger] built[i]).key == key && (forall|j: int|
                i < j < count ==> (#[trigger] built[j]).key != key) ==> merged(
                shards,
                built,
                count,
            ).contains_key(key) && merged(shards, built, count)[key] == built[i],
    decreases count,
{
    if count > 0 {
        lemma_merged(shards, built, count - 1, key);
        let before = merged(shards, built, count - 1);
        let after = merged(shards, built, count);
        assert(after == before.insert(built[count - 1].key, built[count - 1]));
        assert forall|i: int|
            0 <= i < count && (#[trigger] built[i]).key == key && (forall|j: int|
                i < j < count ==> (#[trigger] built[j]).key != key) implies after.contains_key(key)
            && after[key] == built[i] by {
            if i < count - 1 {
                assert(built[count - 1].key != key);
            }
        }
    }
}

proof fn lemma_some_built(built: Seq<GraphSnapshotShardModel>, count: int, key: Seq<char>)
    requires
        0 <= count <= built.len(),
        exists|i: int| 0 <= i < count && (#[trigger] built[i]).key == key,
    ensures
        exists|i: int|
            0 <= i < count && (#[trigger] built[i]).key == key && forall|j: int|
                i < j < count ==> (#[trigger] built[j]).key != key,
    decreases count,
{
    if count > 0 {
        if built[count - 1].key != key {
            let k = choose|k: int| 0 <= k < count && (#[trigger] built[k]).key == key;
            assert(k < count - 1);
            lemma_some_built(built, count - 1, key);
            let i = choose|i: int|
                0 <= i < count - 1 && (#[trigger] built[i]).key == key && forall|j: int|
                    i < j < count - 1 ==> (#[trigger] built[j]).key != key;
            assert(built[i].key == key);
        }
    }
}

/// A new snapshot has the shards that were built, under their keys. Of an earlier snapshot it keeps
/// exactly those that were not built anew and whose source files did not change; where everything was
/// built, it keeps none.
pub proof fn law_snapshots_hold_what_was_built(
    committed: Option<CachedSnapshotModel>,
    sequence: u64,
    commit: CommitModel,
    key: Seq<char>,
)
    ensures
        ({
            let shards = next_snapshot(committed, sequence, commit).shards;
            let built = commit.built.shards;
            let is_built = exists|i: int| 0 <= i < built.len() && (#[trigger] built[i]).key == key;
            let is_kept = !commit.full_rebuild && committed is Some
                && committed->0.shards.contains_key(key) && !commit.dirty_sources.contains(
                committed->0.shards[key].source,
            );
            &&& shards.contains_key(key) <==> is_built || is_kept
            &&& forall|i: int|
                is_last_built(built, i) && (#[trigger] built[i]).key == key ==> shards[key]
                    == built[i]
            &&& is_kept && !is_built ==> shards[key] == committed->0.shards[key]
        }),
{
    let built = commit.built.shards;
    let start = if commit.full_rebuild || committed is None {
        Map::empty()
    } else {
        crate::commit::retained(committed->0.shards, commit.dirty_sources)
    };
    assert(all_shards(committed, commit) == merged(start, built, built.len() as int));
    lemma_merged(start, built, built.len() as int, key);
    if exists|i: int| 0 <= i < built.len() && (#[trigger] built[i]).key == key {
        lemma_some_built(built, built.len() as int, key);
    }
}

/// A new snapshot is of the revision, the producer and the universe that it was built for, and keeps
/// the interfaces, the digests and the owners of nodes that the next one is built upon. Once it is
/// committed, nothing is left to be built.
pub proof fn law_commits_keep_what_they_were_built_for(
    cache: GraphSnapshotCacheModel,
    external_epoch: u64,
    source_epoch: u64,
    commit: CommitModel,
    known: Option<Seq<char>>,
)
    requires
        external_events_drained(cache, external_epoch).revision == commit.revision,
        current_of(external_events_drained(cache, external_epoch)) is None,
    ensures
        ({
            let (after, result) = snapshot_committed(
                cache,
                external_epoch,
                source_epoch,
                source_epoch,
                commit,
                known,
            );
            let committed = after.committed->0;
            &&& result is Ok
            &&& after.committed is Some
            &&& committed.revision == commit.revision
            &&& committed.producer == commit.producer
            &&& committed.universe == commit.universe
            &&& committed.interface_fingerprints == commit.interface_fingerprints
            &&& committed.source_inputs == commit.source_inputs
            &&& committed.node_owners == commit.built.node_owners
            &&& after.sequence == committed.sequence
            &&& cache.sequence < u64::MAX ==> after.sequence == cache.sequence + 1
            &&& !after.full_rebuild
            &&& forall|number: u32| !#[trigger] after.dirty_files.contains(number)
            &&& cache.committed matches Some(earlier) ==> committed.delta_base == Some(
                earlier.generation,
            )
            &&& cache.committed is None ==> committed.delta_base is None
        }),
{
}

/// Whether an event is what was waited for.
pub open spec fn is_reply(action: HandleActionModel, event: HandleEventModel) -> bool {
    match action {
        HandleActionModel::EnsureInputs => event is InputsEnsured,
        HandleActionModel::ObserveUniverse => event is UniverseObserved,
        HandleActionModel::ValidateModel => event is ModelValidated,
        HandleActionModel::ListSources => event is SourcesListed,
        HandleActionModel::WatchSources(_) => event is SourcesWatched,
        HandleActionModel::ReadSourceEvents => event is SourcesWatched,
        HandleActionModel::ValidateSources(_) => event is SourcesValidated,
        HandleActionModel::IndexAll => event is Indexed,
        HandleActionModel::IndexFiles(_) => event is Indexed,
        HandleActionModel::Fence => event is Fenced,
    }
}

/// An event that a request does not wait for has it refused and changes nothing.
pub proof fn law_other_events_are_refused(
    files: Map<FileId, SourceFileModel>,
    request: HandleRequestModel,
    state: HandleStateModel,
    event: HandleEventModel,
    before: GraphSnapshotCacheModel,
    after: GraphSnapshotCacheModel,
    progress: HandleProgressModel,
)
    requires
        is_step(files, request, state, event, before, after, progress),
        !is_reply(action_of(state), event),
    ensures
        progress is Refused,
        progress->Refused_0 is Failed,
        after == before,
{
}

/// A request is answered only where a snapshot is current when the universe is first observed, or at
/// a fence. The fence of a build is reached only from the universe of the build observed once more,
/// that from the project model validated once more, that from the external inputs ensured once more,
/// and that from validated sources.
pub proof fn law_builds_are_checked_before_they_are_committed(
    files: Map<FileId, SourceFileModel>,
    request: HandleRequestModel,
    state: HandleStateModel,
    event: HandleEventModel,
    before: GraphSnapshotCacheModel,
    after: GraphSnapshotCacheModel,
    progress: HandleProgressModel,
)
    requires
        is_step(files, request, state, event, before, after, progress),
    ensures
        progress is Answered ==> state is Universe || state is CheckpointFence || state is BuildFence,
        after.committed is Some && after.committed != before.committed ==> state is CheckpointFence
            || state is BuildFence,
        progress matches HandleProgressModel::Waiting(HandleStateModel::BuildFence(pending)) ==> {
            &&& state == HandleStateModel::BuildUniverse(pending)
            &&& event is UniverseObserved && event->UniverseObserved_universe == pending.universe
        },
        progress matches HandleProgressModel::Waiting(HandleStateModel::BuildUniverse(pending))
            ==> state == HandleStateModel::BuildModel(pending) && event is ModelValidated,
        progress matches HandleProgressModel::Waiting(HandleStateModel::BuildModel(pending))
            ==> state == HandleStateModel::BuildInputs(pending) && event is InputsEnsured,
        progress matches HandleProgressModel::Waiting(HandleStateModel::BuildInputs(_)) ==> state
            is BuildSources && event is SourcesValidated,
        progress matches HandleProgressModel::Waiting(HandleStateModel::BuildSources(pending)) ==> {
            &&& state is BuildWatch
            &&& event is SourcesWatched && pending.epoch == event->SourcesWatched_epoch
            &&& state->BuildWatch_0 == (PendingBuildModel {
                epoch: state->BuildWatch_0.epoch,
                ..pending
            })
        },
        progress matches HandleProgressModel::Waiting(HandleStateModel::BuildWatch(_)) ==> state
            is Index && event is Indexed,
{
}

/// The fence of a checkpoint is reached only from sources that were validated twice with the same
/// outcome, and in between from the universe observed once more to be the same, that from the project
/// model validated once more, and that from the external inputs ensured once more.
pub proof fn law_checkpoints_are_checked_before_they_are_installed(
    files: Map<FileId, SourceFileModel>,
    request: HandleRequestModel,
    state: HandleStateModel,
    event: HandleEventModel,
    before: GraphSnapshotCacheModel,
    after: GraphSnapshotCacheModel,
    progress: HandleProgressModel,
)
    requires
        is_step(files, request, state, event, before, after, progress),
    ensures
        progress matches HandleProgressModel::Waiting(HandleStateModel::CheckpointFence(pending))
            ==> {
            &&& state == HandleStateModel::CheckpointRecheck(pending)
            &&& event is SourcesValidated && event->SourcesValidated_inputs == pending.source_inputs
        },
        progress matches HandleProgressModel::Waiting(HandleStateModel::CheckpointRecheck(pending))
            ==> {
            &&& state == HandleStateModel::CheckpointUniverse(pending)
            &&& event is UniverseObserved && event->UniverseObserved_universe == pending.universe
        },
        progress matches HandleProgressModel::Waiting(HandleStateModel::CheckpointUniverse(pending))
            ==> state == HandleStateModel::CheckpointModel(pending) && event is ModelValidated,
        progress matches HandleProgressModel::Waiting(HandleStateModel::CheckpointModel(pending))
            ==> state == HandleStateModel::CheckpointInputs(pending) && event is InputsEnsured,
        progress matches HandleProgressModel::Waiting(HandleStateModel::CheckpointInputs(pending))
            ==> {
            &&& state is CheckpointSources && event is SourcesValidated
            &&& pending.source_inputs == event->SourcesValidated_inputs
            &&& pending.universe == state->CheckpointSources_universe
            &&& pending.epoch == state->CheckpointSources_epoch
            &&& request.params.checkpoint is Some
        },
        progress matches HandleProgressModel::Waiting(
            HandleStateModel::CheckpointSources { universe, files: listed, epoch },
        ) ==> {
            &&& state == (HandleStateModel::CheckpointWatch { universe, files: listed })
            &&& event == (HandleEventModel::SourcesWatched { epoch })
        },
        progress matches HandleProgressModel::Waiting(
            HandleStateModel::CheckpointWatch { universe, files: listed },
        ) ==> {
            &&& state == (HandleStateModel::SourceList { universe })
            &&& event == (HandleEventModel::SourcesListed { files: listed })
        },
        progress matches HandleProgressModel::Waiting(HandleStateModel::SourceList { universe })
            ==> state == (HandleStateModel::Model { universe }) && event is ModelValidated
            && request.params.checkpoint is Some,
{
}

/// What is validated and watched are the sources that were listed for a checkpoint, or those of the
/// index of a build; what is indexed is everything, or just what changed.
pub proof fn law_actions_concern_the_sources(state: HandleStateModel)
    ensures
        state matches HandleStateModel::Index(pending) ==> action_of(state)
            == if pending.full_rebuild {
            HandleActionModel::IndexAll
        } else {
            HandleActionModel::IndexFiles(pending.plan.dirty_files)
        },
        state matches HandleStateModel::BuildSources(pending) ==> {
            &&& action_of(state) is ValidateSources
            &&& are_files_of(action_of(state)->ValidateSources_0, pending.index.files)
        },
        state matches HandleStateModel::BuildWatch(pending) ==> {
            &&& pending.full_rebuild ==> action_of(state) is WatchSources && are_files_of(
                action_of(state)->WatchSources_0,
                pending.index.files,
            )
            &&& !pending.full_rebuild ==> action_of(state) is ReadSourceEvents
        },
        state matches HandleStateModel::CheckpointWatch { universe, files } ==> action_of(state)
            == HandleActionModel::WatchSources(files),
        state matches HandleStateModel::CheckpointSources { universe, files, epoch } ==> action_of(
            state,
        ) == HandleActionModel::ValidateSources(files),
        action_of(state) is Fence <==> state is CheckpointFence || state is BuildFence,
        action_of(state) is ListSources <==> state is SourceList,
        action_of(state) is ObserveUniverse <==> state is Universe || state is CheckpointUniverse
            || state is BuildUniverse,
        action_of(state) is ValidateModel <==> state is Model || state is CheckpointModel || state
            is BuildModel,
        action_of(state) is EnsureInputs <==> state is Inputs || state is CheckpointInputs || state
            is BuildInputs,
{
}

/// Whether files are those of an index, in its order.
pub open spec fn are_files_of(ids: Seq<FileId>, indexed: Seq<StaticIndexedFileModel>) -> bool {
    &&& ids.len() == indexed.len()
    &&& forall|i: int| 0 <= i < ids.len() ==> #[trigger] ids[i] == indexed[i].file_id
}

/// A build starts from what the cache knows: the files that changed, each once, whether everything is
/// to be built, and what was kept of the committed snapshot.
pub proof fn law_builds_start_from_the_cache(
    files: Map<FileId, SourceFileModel>,
    request: HandleRequestModel,
    state: HandleStateModel,
    event: HandleEventModel,
    before: GraphSnapshotCacheModel,
    after: GraphSnapshotCacheModel,
    pending: PendingIndexModel,
)
    requires
        is_step(
            files,
            request,
            state,
            event,
            before,
            after,
            HandleProgressModel::Waiting(HandleStateModel::Index(pending)),
        ),
        state is Model,
    ensures
        request.params.checkpoint is None,
        pending.universe == state->Model_universe,
        pending.full_rebuild == before.full_rebuild && pending.plan.full_rebuild
            == before.full_rebuild,
        forall|i: int, j: int|
            0 <= i < j < pending.plan.dirty_files.len() ==> pending.plan.dirty_files[i]
                != pending.plan.dirty_files[j],
        forall|id: FileId| #[trigger]
            pending.plan.dirty_files.contains(id) <==> before.dirty_files.contains(id.0),
        before.committed matches Some(cached) ==> {
            &&& pending.plan.universe == Some(cached.universe)
            &&& pending.plan.interface_fingerprints == cached.interface_fingerprints
            &&& pending.plan.source_inputs == cached.source_inputs
            &&& pending.plan.node_owners == cached.node_owners
        },
        before.committed is None ==> pending.plan.universe is None,
        after == before,
{
    let dirty = pending.plan.dirty_files;
    assert forall|id: FileId| #[trigger] dirty.contains(id) <==> before.dirty_files.contains(
        id.0,
    ) by {
        assert(file_numbers(dirty).contains(id.0) <==> dirty.contains(FileId(id.0)));
        assert(FileId(id.0) == id);
    }
}

/// Once some files are indexed, everything is indexed instead where the interface of a changed file
/// is another one. Otherwise a build goes on with the index. The interfaces that it keeps are those of
/// the index for its files, and those of before for the files that did not change.
pub proof fn law_changed_interfaces_rebuild_everything(
    files: Map<FileId, SourceFileModel>,
    request: HandleRequestModel,
    pending: PendingIndexModel,
    index: StaticIndexModel,
    before: GraphSnapshotCacheModel,
    after: GraphSnapshotCacheModel,
    progress: HandleProgressModel,
    source: Seq<char>,
)
    requires
        is_step(
            files,
            request,
            HandleStateModel::Index(pending),
            HandleEventModel::Indexed(index),
            before,
            after,
            progress,
        ),
    ensures
        ({
            let earlier = pending.plan.interface_fingerprints;
            let now = interface_fingerprints(files, index);
            let dirty = is_path_of(files, pending.plan.dirty_files, source);
            &&& !pending.full_rebuild && dirty && !(earlier.contains_key(source)
                && now.contains_key(source) && earlier[source] == now[source]) ==> progress
                == HandleProgressModel::Waiting(
                HandleStateModel::Index(PendingIndexModel { full_rebuild: true, ..pending }),
            )
            &&& pending.full_rebuild && index.files.len() == 0 ==> progress is Refused
                && progress->Refused_0 is Retry
            &&& pending.full_rebuild && index.files.len() > 0 ==> progress is Waiting
                && progress->Waiting_0 is BuildWatch
            &&& progress is Refused ==> pending.full_rebuild && index.files.len() == 0
            &&& progress matches HandleProgressModel::Waiting(HandleStateModel::Index(again))
                ==> !pending.full_rebuild && again.full_rebuild && again.plan == pending.plan
                && again.universe == pending.universe
            &&& progress matches HandleProgressModel::Waiting(HandleStateModel::BuildWatch(next))
                ==> {
                &&& next.universe == pending.universe
                &&& next.plan == pending.plan
                &&& next.full_rebuild == pending.full_rebuild
                &&& next.index == index
                &&& now.contains_key(source) ==> next.interface_fingerprints.contains_key(source)
                    && next.interface_fingerprints[source] == now[source]
                &&& !now.contains_key(source) && (pending.full_rebuild || dirty)
                    ==> !next.interface_fingerprints.contains_key(source)
                &&& !now.contains_key(source) && !pending.full_rebuild && !dirty
                    ==> next.interface_fingerprints.contains_key(source) == earlier.contains_key(
                    source,
                ) && (earlier.contains_key(source) ==> next.interface_fingerprints[source]
                    == earlier[source])
            }
        }),
{
    let dirty = paths_of(files, pending.plan.dirty_files);
    assert(dirty.contains(source) <==> is_path_of(files, pending.plan.dirty_files, source));
}

/// What a build takes as the digest of a file is what was just validated, and of a file that was not
/// part of it, where not everything is built, what was kept. The shards are built with the owners of
/// nodes that were kept for other source files than those indexed, or with none where everything is
/// built.
pub proof fn law_builds_use_what_was_validated(
    files: Map<FileId, SourceFileModel>,
    request: HandleRequestModel,
    pending: PendingBuildModel,
    inputs: Map<FileId, Seq<char>>,
    before: GraphSnapshotCacheModel,
    after: GraphSnapshotCacheModel,
    next: PendingCommitModel,
    file_id: FileId,
)
    requires
        is_step(
            files,
            request,
            HandleStateModel::BuildSources(pending),
            HandleEventModel::SourcesValidated { inputs },
            before,
            after,
            HandleProgressModel::Waiting(HandleStateModel::BuildInputs(next)),
        ),
    ensures
        after == before,
        next.universe == pending.universe && next.full_rebuild == pending.full_rebuild
            && next.dirty_files == pending.plan.dirty_files && next.epoch == pending.epoch,
        next.interface_fingerprints == pending.interface_fingerprints,
        !pending.plan.full_rebuild ==> pending.plan.universe == Some(pending.universe),
        inputs.contains_key(file_id) ==> next.source_inputs.contains_key(file_id)
            && next.source_inputs[file_id] == inputs[file_id],
        !inputs.contains_key(file_id) && pending.full_rebuild
            ==> !next.source_inputs.contains_key(file_id),
        !inputs.contains_key(file_id) && !pending.full_rebuild ==> next.source_inputs.contains_key(
            file_id,
        ) == pending.plan.source_inputs.contains_key(file_id) && (
        pending.plan.source_inputs.contains_key(file_id) ==> next.source_inputs[file_id]
            == pending.plan.source_inputs[file_id]),
        exists|owners: Map<Seq<char>, Seq<char>>| #[trigger]
            built(
                files,
                pending.index,
                pending.universe.target,
                pending.interface_fingerprints,
                next.source_inputs,
                owners,
            ) == Ok::<_, GraphErrorModel>(next.built) && are_owners_left(files, pending, owners),
{
    let indexed = crate::handle::indexed_files(pending.index.files);
    let dirty = paths_of(files, indexed);
    let owners = if pending.full_rebuild {
        Map::<Seq<char>, Seq<char>>::empty()
    } else {
        retained_owners(pending.plan.node_owners, dirty)
    };
    assert forall|id: Seq<char>| #[trigger]
        owners.contains_key(id) <==> !pending.full_rebuild && pending.plan.node_owners.contains_key(
            id,
        ) && !is_indexed_source(files, pending.index, pending.plan.node_owners[id]) by {
        let source = pending.plan.node_owners[id];
        if dirty.contains(source) {
            let i = choose|i: int|
                0 <= i < indexed.len() && source_of(files, #[trigger] indexed[i]) == source;
            assert(source_of(files, pending.index.files[i].file_id) == source);
        }
        if is_indexed_source(files, pending.index, source) {
            let i = choose|i: int|
                0 <= i < pending.index.files.len() && source_of(
                    files,
                    (#[trigger] pending.index.files[i]).file_id,
                ) == source;
            assert(source_of(files, indexed[i]) == source);
        }
    }
    assert(are_owners_left(files, pending, owners));
    assert(built(
        files,
        pending.index,
        pending.universe.target,
        pending.interface_fingerprints,
        next.source_inputs,
        owners,
    ) == Ok::<_, GraphErrorModel>(next.built));
}

/// Whether a source file is one of an index.
pub open spec fn is_indexed_source(
    files: Map<FileId, SourceFileModel>,
    index: StaticIndexModel,
    source: Seq<char>,
) -> bool {
    exists|i: int|
        0 <= i < index.files.len() && source_of(files, (#[trigger] index.files[i]).file_id)
            == source
}

/// Whether owners of nodes are those that were kept and whose source files are not built anew.
pub open spec fn are_owners_left(
    files: Map<FileId, SourceFileModel>,
    pending: PendingBuildModel,
    owners: Map<Seq<char>, Seq<char>>,
) -> bool {
    &&& forall|id: Seq<char>| #[trigger]
        owners.contains_key(id) <==> !pending.full_rebuild && pending.plan.node_owners.contains_key(
            id,
        ) && !is_indexed_source(files, pending.index, pending.plan.node_owners[id])
    &&& forall|id: Seq<char>| #[trigger]
        owners.contains_key(id) ==> owners[id] == pending.plan.node_owners[id]
}

/// A build or a checkpoint that was made for another universe than the one observed once more is
/// refused and commits nothing. So is a checkpoint whose sources were validated once more with another
/// outcome.
pub proof fn law_moved_universes_are_refused(
    files: Map<FileId, SourceFileModel>,
    request: HandleRequestModel,
    state: HandleStateModel,
    event: HandleEventModel,
    before: GraphSnapshotCacheModel,
    after: GraphSnapshotCacheModel,
    progress: HandleProgressModel,
)
    requires
        is_step(files, request, state, event, before, after, progress),
    ensures
        (state matches HandleStateModel::BuildUniverse(pending) && event is UniverseObserved
            && event->UniverseObserved_universe != pending.universe) ==> progress is Refused
            && after.committed == before.committed && after.full_rebuild && after.revision
            != before.revision,
        (state matches HandleStateModel::CheckpointUniverse(pending) && event is UniverseObserved
            && event->UniverseObserved_universe != pending.universe) ==> progress is Refused && after
            == before,
        (state matches HandleStateModel::CheckpointRecheck(pending) && event is SourcesValidated
            && event->SourcesValidated_inputs != pending.source_inputs) ==> progress is Refused
            && after == before,
        state is Universe && event is UniverseObserved && progress is Answered
            ==> after.committed is Some && after.committed->0.universe
            == event->UniverseObserved_universe,
{
}

/// The external inputs are settled only at a fence at which neither the configuration nor the inputs
/// moved, with the digest of a second capture that found the same links as a first one, after which
/// the links were watched. The first one is of the inputs that are watched, at the revision at which
/// they are watched.
pub proof fn law_inputs_are_captured_twice(
    cache: GraphSnapshotCacheModel,
    state: EnsureStateModel,
    event: EnsureEventModel,
)
    ensures
        ({
            let (after, progress) = ensured(cache, state, event);
            &&& progress is Settled ==> {
                &&& state is Settle && event is Fenced
                &&& after.external_input_digest == Ok::<Seq<char>, Seq<char>>(state->Settle_digest)
                &&& after.external_inputs == state->Settle_fingerprint
                &&& after.external_input_revision == state->Settle_revision
                &&& !after.external_inputs_dirty
            }
            &&& progress matches EnsureProgressModel::Waiting(
                EnsureStateModel::Settle { fingerprint, revision, digest },
            ) ==> {
                &&& state is SecondCapture && event is Captured
                &&& state->SecondCapture_fingerprint == fingerprint
                &&& state->SecondCapture_revision == revision
                &&& event->Captured_0 is Captured
                &&& event->Captured_0->Captured_0.digest == digest
                &&& event->Captured_0->Captured_0.symlink_watch_roots
                    == state->SecondCapture_first.symlink_watch_roots
            }
            &&& progress matches EnsureProgressModel::Waiting(
                EnsureStateModel::SecondCapture { fingerprint, revision, inputs, first },
            ) ==> event is Rewatched && state == (EnsureStateModel::Rewatch {
                fingerprint,
                revision,
                inputs,
                first,
            })
            &&& progress matches EnsureProgressModel::Waiting(
                EnsureStateModel::Rewatch { fingerprint, revision, inputs, first },
            ) ==> {
                &&& state == (EnsureStateModel::FirstCapture { fingerprint, revision, inputs })
                &&& event is Captured && event->Captured_0 == CaptureOutcomeModel::Captured(first)
            }
            &&& progress matches EnsureProgressModel::Waiting(
                EnsureStateModel::FirstCapture { fingerprint, revision, inputs },
            ) ==> {
                &&& state == (EnsureStateModel::Begin { fingerprint }) || state == (
                EnsureStateModel::Watch { fingerprint })
                &&& after.external_inputs == fingerprint
                &&& after.external_input_revision == revision
                &&& after.external_input_roots == inputs
                &&& after.external_input_watcher && !after.external_input_watcher_stale
                &&& after.external_inputs_dirty
            }
        }),
{
}

/// Inputs that were captured are ready where nothing about them moved since, and only then. What a
/// capture finds is forgotten where the inputs or the configuration moved in between, and a capture
/// that failed is told and has the inputs captured anew. Nothing else of a cache is touched but by the
/// events that are taken into account.
pub proof fn law_inputs_are_ready_where_nothing_moved(
    cache: GraphSnapshotCacheModel,
    state: EnsureStateModel,
    event: EnsureEventModel,
)
    ensures
        ({
            let (after, progress) = ensured(cache, state, event);
            &&& progress is Ready ==> {
                &&& state is Begin
                &&& after.external_inputs == state->Begin_fingerprint
                &&& after.external_input_digest == cache.external_input_digest
                &&& !cache.external_inputs_dirty
            }
            &&& state is Begin && event is Fenced && event->Fenced_epoch
                == cache.external_input_event_epoch && cache.external_inputs
                == state->Begin_fingerprint && cache.external_input_watcher
                && !cache.external_input_watcher_stale && !cache.external_inputs_dirty
                && cache.external_input_digest is Ok ==> progress is Ready && after == cache
            &&& state is Settle && event is Fenced && (event->Fenced_epoch
                != cache.external_input_event_epoch && state->Settle_revision
                == cache.external_input_revision || cache.external_inputs
                != state->Settle_fingerprint) ==> progress is Refused && after.external_input_digest
                == cache.external_input_digest
            &&& state is GiveUp && event is Fenced && progress is Refused && after.external_inputs
                == state->GiveUp_fingerprint && after.external_input_revision
                == state->GiveUp_revision ==> after.external_input_digest == Err::<
                Seq<char>,
                Seq<char>,
            >(state->GiveUp_error) && after.external_inputs_dirty
            &&& after.committed == cache.committed && after.sequence == cache.sequence
            &&& !(event is Fenced) ==> after.revision == cache.revision && after.dirty_files
                == cache.dirty_files && after.full_rebuild == cache.full_rebuild
            &&& after.external_input_digest != cache.external_input_digest ==> state is Settle
                || state is GiveUp
        }),
{
}

/// An answer from a snapshot that was at hand says so and took no time. Another one tells the times
/// that the snapshot was built in. Either is of the producer, the universe, the sequence and the
/// generation of the snapshot, and lists its whole manifest.
pub proof fn law_answers_tell_of_their_snapshot(
    cached: CachedSnapshotModel,
    known: Option<Seq<char>>,
    cache_hit: bool,
)
    ensures
        ({
            let result = answer(planned(cached, known, cache_hit));
            &&& cache_hit ==> result.phases.cache_hit && result.phases.semantic_millis == 0
                && result.phases.shard_millis == 0 && result.phases.encode_millis == 0
                && result.phases.total_millis == 0
            &&& !cache_hit ==> result.phases == cached.phases
            &&& result.producer == cached.producer
            &&& result.universe == cached.universe
            &&& result.sequence == cached.sequence
            &&& result.generation == cached.generation
            &&& result.manifest == cached.manifest
            &&& known == Some(cached.generation) ==> result.base_generation == known
                && result.upserts.len() == 0 && result.deletes.len() == 0
        }),
{
}

} // verus!
