//! Answering a request: the decisions between the steps that reach outside.

use vstd::prelude::*;

use crate::cache::{
    GraphSnapshotCache, GraphSnapshotCacheModel, all_invalidated, answer, current_of,
    drain_external_input_events_at, drain_source_input_events_at, external_events_drained,
    file_numbers, planned, response_plan, source_events_drained, universe_invalidated,
};
use crate::checkpoint::{
    CheckpointParts, CheckpointPartsModel, checkpoint_installed, checkpoint_parts,
    install_checkpoint, validate_checkpoint,
};
use crate::commit::{
    Commit, CommitModel, collect_paths, commit_snapshot, paths_of, snapshot_committed,
};
use crate::error::{GraphError, GraphErrorModel, failure, outcome, retry_error};
use crate::files::{FileId, SourceFileModel, SourceFiles};
use crate::fingerprints::{
    compute_interface_fingerprints, has_interface_change, interface_fingerprints,
    interfaces_changed,
};
use crate::plain::Plain;
use crate::shards::{BuiltShards, BuiltShardsModel, build_shards, built};
use crate::snapshot::{
    GraphSnapshotParams, GraphSnapshotParamsModel, GraphSnapshotPhases, GraphSnapshotPhasesModel,
    GraphSnapshotProducer, GraphSnapshotProducerModel, GraphSnapshotResult,
    GraphSnapshotResultModel, GraphSnapshotUniverse, GraphSnapshotUniverseModel,
};
use crate::static_index::{
    StaticIndex, StaticIndexModel, StaticIndexedFile, StaticIndexedFileModel,
};
use crate::table::{Table, lists, ordered, ordered_keys};

verus! {

/// A request, and the revision of the workspace it is answered for.
#[derive(Debug)]
pub struct HandleRequest {
    pub params: GraphSnapshotParams,
    pub revision: u64,
    pub producer: GraphSnapshotProducer,
}

/// The content of a [`HandleRequest`].
pub struct HandleRequestModel {
    pub params: GraphSnapshotParamsModel,
    pub revision: u64,
    pub producer: GraphSnapshotProducerModel,
}

impl DeepView for HandleRequest {
    type V = HandleRequestModel;

    open spec fn deep_view(&self) -> HandleRequestModel {
        HandleRequestModel {
            params: self.params.deep_view(),
            revision: self.revision.deep_view(),
            producer: self.producer.deep_view(),
        }
    }
}

/// What the cache held when a build started.
#[derive(Debug)]
pub struct BuildPlan {
    /// The files that changed since the last snapshot.
    pub dirty_files: Vec<FileId>,
    /// Whether the snapshot was to be built from all source files.
    pub full_rebuild: bool,
    pub universe: Option<GraphSnapshotUniverse>,
    pub interface_fingerprints: Table<String, String>,
    pub source_inputs: Table<FileId, String>,
    pub node_owners: Table<String, String>,
}

/// The content of a [`BuildPlan`].
pub struct BuildPlanModel {
    pub dirty_files: Seq<FileId>,
    pub full_rebuild: bool,
    pub universe: Option<GraphSnapshotUniverseModel>,
    pub interface_fingerprints: Map<Seq<char>, Seq<char>>,
    pub source_inputs: Map<FileId, Seq<char>>,
    pub node_owners: Map<Seq<char>, Seq<char>>,
}

impl DeepView for BuildPlan {
    type V = BuildPlanModel;

    open spec fn deep_view(&self) -> BuildPlanModel {
        BuildPlanModel {
            dirty_files: self.dirty_files.deep_view(),
            full_rebuild: self.full_rebuild.deep_view(),
            universe: self.universe.deep_view(),
            interface_fingerprints: self.interface_fingerprints.deep_view(),
            source_inputs: self.source_inputs.deep_view(),
            node_owners: self.node_owners.deep_view(),
        }
    }
}

/// A valid checkpoint that is not installed yet.
#[derive(Debug)]
pub struct PendingCheckpoint {
    pub universe: GraphSnapshotUniverse,
    pub parts: CheckpointParts,
    pub source_inputs: Table<FileId, String>,
    pub epoch: u64,
}

/// The content of a [`PendingCheckpoint`].
pub struct PendingCheckpointModel {
    pub universe: GraphSnapshotUniverseModel,
    pub parts: CheckpointPartsModel,
    pub source_inputs: Map<FileId, Seq<char>>,
    pub epoch: u64,
}

impl DeepView for PendingCheckpoint {
    type V = PendingCheckpointModel;

    open spec fn deep_view(&self) -> PendingCheckpointModel {
        PendingCheckpointModel {
            universe: self.universe.deep_view(),
            parts: self.parts.deep_view(),
            source_inputs: self.source_inputs.deep_view(),
            epoch: self.epoch.deep_view(),
        }
    }
}

/// A build that waits for its index.
#[derive(Debug)]
pub struct PendingIndex {
    pub universe: GraphSnapshotUniverse,
    pub plan: BuildPlan,
    /// Whether the index is made from all source files.
    pub full_rebuild: bool,
}

/// The content of a [`PendingIndex`].
pub struct PendingIndexModel {
    pub universe: GraphSnapshotUniverseModel,
    pub plan: BuildPlanModel,
    pub full_rebuild: bool,
}

impl DeepView for PendingIndex {
    type V = PendingIndexModel;

    open spec fn deep_view(&self) -> PendingIndexModel {
        PendingIndexModel {
            universe: self.universe.deep_view(),
            plan: self.plan.deep_view(),
            full_rebuild: self.full_rebuild.deep_view(),
        }
    }
}

/// A build that waits for the digests of its source files.
#[derive(Debug)]
pub struct PendingBuild {
    pub universe: GraphSnapshotUniverse,
    pub plan: BuildPlan,
    pub full_rebuild: bool,
    pub index: StaticIndex,
    pub interface_fingerprints: Table<String, String>,
    /// The last event on source files when they were being watched.
    pub epoch: u64,
}

/// The content of a [`PendingBuild`].
pub struct PendingBuildModel {
    pub universe: GraphSnapshotUniverseModel,
    pub plan: BuildPlanModel,
    pub full_rebuild: bool,
    pub index: StaticIndexModel,
    pub interface_fingerprints: Map<Seq<char>, Seq<char>>,
    pub epoch: u64,
}

impl DeepView for PendingBuild {
    type V = PendingBuildModel;

    open spec fn deep_view(&self) -> PendingBuildModel {
        PendingBuildModel {
            universe: self.universe.deep_view(),
            plan: self.plan.deep_view(),
            full_rebuild: self.full_rebuild.deep_view(),
            index: self.index.deep_view(),
            interface_fingerprints: self.interface_fingerprints.deep_view(),
            epoch: self.epoch.deep_view(),
        }
    }
}

/// A snapshot that is not committed yet.
#[derive(Debug)]
pub struct PendingCommit {
    pub universe: GraphSnapshotUniverse,
    pub full_rebuild: bool,
    pub dirty_files: Vec<FileId>,
    pub built: BuiltShards,
    pub interface_fingerprints: Table<String, String>,
    pub source_inputs: Table<FileId, String>,
    pub epoch: u64,
}

/// The content of a [`PendingCommit`].
pub struct PendingCommitModel {
    pub universe: GraphSnapshotUniverseModel,
    pub full_rebuild: bool,
    pub dirty_files: Seq<FileId>,
    pub built: BuiltShardsModel,
    pub interface_fingerprints: Map<Seq<char>, Seq<char>>,
    pub source_inputs: Map<FileId, Seq<char>>,
    pub epoch: u64,
}

impl DeepView for PendingCommit {
    type V = PendingCommitModel;

    open spec fn deep_view(&self) -> PendingCommitModel {
        PendingCommitModel {
            universe: self.universe.deep_view(),
            full_rebuild: self.full_rebuild.deep_view(),
            dirty_files: self.dirty_files.deep_view(),
            built: self.built.deep_view(),
            interface_fingerprints: self.interface_fingerprints.deep_view(),
            source_inputs: self.source_inputs.deep_view(),
            epoch: self.epoch.deep_view(),
        }
    }
}

/// What a request waits for.
#[derive(Debug)]
pub enum HandleState {
    /// For the external inputs to be captured.
    Inputs,
    /// For the universe to be observed.
    Universe,
    /// For the project model to be held against the disk.
    Model { universe: GraphSnapshotUniverse },
    /// For the source files that a checkpoint must cover.
    SourceList { universe: GraphSnapshotUniverse },
    /// For these source files to be watched.
    CheckpointWatch { universe: GraphSnapshotUniverse, files: Vec<FileId> },
    /// For the digests of these source files.
    CheckpointSources { universe: GraphSnapshotUniverse, files: Vec<FileId>, epoch: u64 },
    /// For the external inputs to be captured again.
    CheckpointInputs(PendingCheckpoint),
    /// For the project model to be held against the disk again.
    CheckpointModel(PendingCheckpoint),
    /// For the universe to be observed again.
    CheckpointUniverse(PendingCheckpoint),
    /// For the digests of the source files to be taken again.
    CheckpointRecheck(PendingCheckpoint),
    /// For the last events, while no other one can come in.
    CheckpointFence(PendingCheckpoint),
    /// For the index.
    Index(PendingIndex),
    /// For the indexed source files to be watched.
    BuildWatch(PendingBuild),
    /// For the digests of the indexed source files.
    BuildSources(PendingBuild),
    /// For the external inputs to be captured again.
    BuildInputs(PendingCommit),
    /// For the project model to be held against the disk again.
    BuildModel(PendingCommit),
    /// For the universe to be observed again.
    BuildUniverse(PendingCommit),
    /// For the last events, while no other one can come in.
    BuildFence(PendingCommit),
}

/// The content of a [`HandleState`].
pub enum HandleStateModel {
    Inputs,
    Universe,
    Model { universe: GraphSnapshotUniverseModel },
    SourceList { universe: GraphSnapshotUniverseModel },
    CheckpointWatch { universe: GraphSnapshotUniverseModel, files: Seq<FileId> },
    CheckpointSources { universe: GraphSnapshotUniverseModel, files: Seq<FileId>, epoch: u64 },
    CheckpointInputs(PendingCheckpointModel),
    CheckpointModel(PendingCheckpointModel),
    CheckpointUniverse(PendingCheckpointModel),
    CheckpointRecheck(PendingCheckpointModel),
    CheckpointFence(PendingCheckpointModel),
    Index(PendingIndexModel),
    BuildWatch(PendingBuildModel),
    BuildSources(PendingBuildModel),
    BuildInputs(PendingCommitModel),
    BuildModel(PendingCommitModel),
    BuildUniverse(PendingCommitModel),
    BuildFence(PendingCommitModel),
}

impl DeepView for HandleState {
    type V = HandleStateModel;

    open spec fn deep_view(&self) -> HandleStateModel {
        match self {
            HandleState::Inputs => HandleStateModel::Inputs,
            HandleState::Universe => HandleStateModel::Universe,
            HandleState::Model { universe } => HandleStateModel::Model {
                universe: universe.deep_view(),
            },
            HandleState::SourceList { universe } => HandleStateModel::SourceList {
                universe: universe.deep_view(),
            },
            HandleState::CheckpointWatch { universe, files } => HandleStateModel::CheckpointWatch {
                universe: universe.deep_view(),
                files: files.deep_view(),
            },
            HandleState::CheckpointSources { universe, files, epoch } => HandleStateModel::CheckpointSources {
                universe: universe.deep_view(),
                files: files.deep_view(),
                epoch: epoch.deep_view(),
            },
            HandleState::CheckpointInputs(value) => HandleStateModel::CheckpointInputs(value.deep_view()),
            HandleState::CheckpointModel(value) => HandleStateModel::CheckpointModel(value.deep_view()),
            HandleState::CheckpointUniverse(value) => HandleStateModel::CheckpointUniverse(value.deep_view()),
            HandleState::CheckpointRecheck(value) => HandleStateModel::CheckpointRecheck(value.deep_view()),
            HandleState::CheckpointFence(value) => HandleStateModel::CheckpointFence(value.deep_view()),
            HandleState::Index(value) => HandleStateModel::Index(value.deep_view()),
            HandleState::BuildWatch(value) => HandleStateModel::BuildWatch(value.deep_view()),
            HandleState::BuildSources(value) => HandleStateModel::BuildSources(value.deep_view()),
            HandleState::BuildInputs(value) => HandleStateModel::BuildInputs(value.deep_view()),
            HandleState::BuildModel(value) => HandleStateModel::BuildModel(value.deep_view()),
            HandleState::BuildUniverse(value) => HandleStateModel::BuildUniverse(value.deep_view()),
            HandleState::BuildFence(value) => HandleStateModel::BuildFence(value.deep_view()),
        }
    }
}

/// What a step that reached outside brought back.
#[derive(Debug)]
pub enum HandleEvent {
    /// The external inputs are captured.
    InputsEnsured,
    /// The universe, and the last events on external inputs and on source files.
    UniverseObserved { universe: GraphSnapshotUniverse, external_epoch: u64, source_epoch: u64 },
    /// The project model agrees with the disk.
    ModelValidated,
    /// The source files of the workspace.
    SourcesListed { files: Vec<FileId> },
    /// The source files are being watched since this event.
    SourcesWatched { epoch: u64 },
    /// The digests of the source files, which agree with the disk.
    SourcesValidated { inputs: Table<FileId, String> },
    /// The index.
    Indexed(StaticIndex),
    /// The last events, and the time that was spent.
    Fenced { external_epoch: u64, source_epoch: u64, phases: GraphSnapshotPhases },
}

/// The content of a [`HandleEvent`].
pub enum HandleEventModel {
    InputsEnsured,
    UniverseObserved { universe: GraphSnapshotUniverseModel, external_epoch: u64, source_epoch: u64 },
    ModelValidated,
    SourcesListed { files: Seq<FileId> },
    SourcesWatched { epoch: u64 },
    SourcesValidated { inputs: Map<FileId, Seq<char>> },
    Indexed(StaticIndexModel),
    Fenced { external_epoch: u64, source_epoch: u64, phases: GraphSnapshotPhasesModel },
}

impl DeepView for HandleEvent {
    type V = HandleEventModel;

    open spec fn deep_view(&self) -> HandleEventModel {
        match self {
            HandleEvent::InputsEnsured => HandleEventModel::InputsEnsured,
            HandleEvent::UniverseObserved { universe, external_epoch, source_epoch } => HandleEventModel::UniverseObserved {
                universe: universe.deep_view(),
                external_epoch: external_epoch.deep_view(),
                source_epoch: source_epoch.deep_view(),
            },
            HandleEvent::ModelValidated => HandleEventModel::ModelValidated,
            HandleEvent::SourcesListed { files } => HandleEventModel::SourcesListed {
                files: files.deep_view(),
            },
            HandleEvent::SourcesWatched { epoch } => HandleEventModel::SourcesWatched {
                epoch: epoch.deep_view(),
            },
            HandleEvent::SourcesValidated { inputs } => HandleEventModel::SourcesValidated {
                inputs: inputs.deep_view(),
            },
            HandleEvent::Indexed(value) => HandleEventModel::Indexed(value.deep_view()),
            HandleEvent::Fenced { external_epoch, source_epoch, phases } => HandleEventModel::Fenced {
                external_epoch: external_epoch.deep_view(),
                source_epoch: source_epoch.deep_view(),
                phases: phases.deep_view(),
            },
        }
    }
}

/// How far a request has come.
#[derive(Debug)]
pub enum HandleProgress {
    /// Another step is needed.
    Waiting(HandleState),
    /// The request is answered.
    Answered(GraphSnapshotResult),
    /// The request is refused.
    Refused(GraphError),
}

/// The content of a [`HandleProgress`].
pub enum HandleProgressModel {
    Waiting(HandleStateModel),
    Answered(GraphSnapshotResultModel),
    Refused(GraphErrorModel),
}

impl DeepView for HandleProgress {
    type V = HandleProgressModel;

    open spec fn deep_view(&self) -> HandleProgressModel {
        match self {
            HandleProgress::Waiting(value) => HandleProgressModel::Waiting(value.deep_view()),
            HandleProgress::Answered(value) => HandleProgressModel::Answered(value.deep_view()),
            HandleProgress::Refused(value) => HandleProgressModel::Refused(value.deep_view()),
        }
    }
}

/// What to do outside next.
#[derive(Debug)]
pub enum HandleAction {
    /// Capture the external inputs.
    EnsureInputs,
    /// Observe the universe, and read the last events.
    ObserveUniverse,
    /// Hold the project model against the disk.
    ValidateModel,
    /// List the source files of the workspace.
    ListSources,
    /// Watch these source files.
    WatchSources(Vec<FileId>),
    /// Read the last event on the source files that are being watched.
    ReadSourceEvents,
    /// Take the digests of these source files, and hold them against the disk.
    ValidateSources(Vec<FileId>),
    /// Index all source files.
    IndexAll,
    /// Index these source files.
    IndexFiles(Vec<FileId>),
    /// Read the last events, and let none come in until the step is done.
    Fence,
}

/// The content of a [`HandleAction`].
pub enum HandleActionModel {
    EnsureInputs,
    ObserveUniverse,
    ValidateModel,
    ListSources,
    WatchSources(Seq<FileId>),
    ReadSourceEvents,
    ValidateSources(Seq<FileId>),
    IndexAll,
    IndexFiles(Seq<FileId>),
    Fence,
}

impl DeepView for HandleAction {
    type V = HandleActionModel;

    open spec fn deep_view(&self) -> HandleActionModel {
        match self {
            HandleAction::EnsureInputs => HandleActionModel::EnsureInputs,
            HandleAction::ObserveUniverse => HandleActionModel::ObserveUniverse,
            HandleAction::ValidateModel => HandleActionModel::ValidateModel,
            HandleAction::ListSources => HandleActionModel::ListSources,
            HandleAction::WatchSources(value) => HandleActionModel::WatchSources(value.deep_view()),
            HandleAction::ReadSourceEvents => HandleActionModel::ReadSourceEvents,
            HandleAction::ValidateSources(value) => HandleActionModel::ValidateSources(value.deep_view()),
            HandleAction::IndexAll => HandleActionModel::IndexAll,
            HandleAction::IndexFiles(value) => HandleActionModel::IndexFiles(value.deep_view()),
            HandleAction::Fence => HandleActionModel::Fence,
        }
    }
}

/// What to do outside in a state.
pub open spec fn action_of(state: HandleStateModel) -> HandleActionModel {
    match state {
        HandleStateModel::Inputs => HandleActionModel::EnsureInputs,
        HandleStateModel::CheckpointInputs(_) => HandleActionModel::EnsureInputs,
        HandleStateModel::BuildInputs(_) => HandleActionModel::EnsureInputs,
        HandleStateModel::Universe => HandleActionModel::ObserveUniverse,
        HandleStateModel::CheckpointUniverse(_) => HandleActionModel::ObserveUniverse,
        HandleStateModel::BuildUniverse(_) => HandleActionModel::ObserveUniverse,
        HandleStateModel::Model { universe } => HandleActionModel::ValidateModel,
        HandleStateModel::CheckpointModel(_) => HandleActionModel::ValidateModel,
        HandleStateModel::BuildModel(_) => HandleActionModel::ValidateModel,
        HandleStateModel::SourceList { universe } => HandleActionModel::ListSources,
        HandleStateModel::CheckpointWatch { universe, files } => HandleActionModel::WatchSources(
            files,
        ),
        HandleStateModel::CheckpointSources { universe, files, epoch } => {
            HandleActionModel::ValidateSources(files)
        },
        HandleStateModel::CheckpointRecheck(pending) => HandleActionModel::ValidateSources(
            ordered_keys::<FileId, Seq<char>>(pending.source_inputs),
        ),
        HandleStateModel::Index(pending) => if pending.full_rebuild {
            HandleActionModel::IndexAll
        } else {
            HandleActionModel::IndexFiles(pending.plan.dirty_files)
        },
        HandleStateModel::BuildWatch(pending) => if pending.full_rebuild {
            HandleActionModel::WatchSources(indexed_files(pending.index.files))
        } else {
            HandleActionModel::ReadSourceEvents
        },
        HandleStateModel::BuildSources(pending) => HandleActionModel::ValidateSources(
            indexed_files(pending.index.files),
        ),
        HandleStateModel::CheckpointFence(_) => HandleActionModel::Fence,
        HandleStateModel::BuildFence(_) => HandleActionModel::Fence,
    }
}

/// The keys of a table of files, in order.
fn list_keys(table: &Table<FileId, String>) -> (files: Vec<FileId>)
    ensures
        files@ == ordered_keys::<FileId, Seq<char>>(table.deep_view()),
{
    let ghost listing = ordered::<FileId, Seq<char>>(table.deep_view());
    let count = table.len();
    let mut files: Vec<FileId> = Vec::new();
    let mut index: usize = 0;
    while index < count
        invariant
            index <= count,
            count == listing.len(),
            listing == ordered::<FileId, Seq<char>>(table.deep_view()),
            files.len() == index,
            forall|i: int| 0 <= i < index ==> #[trigger] files@[i] == listing[i].0,
        decreases count - index,
    {
        files.push(*table.key_at(index));
        index += 1;
    }
    assert(files@ =~= ordered_keys::<FileId, Seq<char>>(table.deep_view()));
    files
}

impl HandleState {
    /// What to do outside in this state.
    pub fn action(&self) -> (action: HandleAction)
        ensures
            action.deep_view() == action_of(self.deep_view()),
    {
        match self {
            HandleState::Inputs => HandleAction::EnsureInputs,
            HandleState::CheckpointInputs(_) => HandleAction::EnsureInputs,
            HandleState::BuildInputs(_) => HandleAction::EnsureInputs,
            HandleState::Universe => HandleAction::ObserveUniverse,
            HandleState::CheckpointUniverse(_) => HandleAction::ObserveUniverse,
            HandleState::BuildUniverse(_) => HandleAction::ObserveUniverse,
            HandleState::Model { universe: _ } => HandleAction::ValidateModel,
            HandleState::CheckpointModel(_) => HandleAction::ValidateModel,
            HandleState::BuildModel(_) => HandleAction::ValidateModel,
            HandleState::SourceList { universe: _ } => HandleAction::ListSources,
            HandleState::CheckpointWatch { universe: _, files } => HandleAction::WatchSources(
                files.duplicate(),
            ),
            HandleState::CheckpointSources { universe: _, files, epoch: _ } => {
                HandleAction::ValidateSources(files.duplicate())
            },
            HandleState::CheckpointRecheck(pending) => {
                let files = list_keys(&pending.source_inputs);
                assert(files.deep_view() =~= files@);
                HandleAction::ValidateSources(files)
            },
            HandleState::Index(pending) => if pending.full_rebuild {
                HandleAction::IndexAll
            } else {
                HandleAction::IndexFiles(pending.plan.dirty_files.duplicate())
            },
            HandleState::BuildWatch(pending) => if pending.full_rebuild {
                let files = list_indexed(&pending.index.files);
                assert(files.deep_view() =~= files@);
                HandleAction::WatchSources(files)
            } else {
                HandleAction::ReadSourceEvents
            },
            HandleState::BuildSources(pending) => {
                let files = list_indexed(&pending.index.files);
                assert(files.deep_view() =~= files@);
                HandleAction::ValidateSources(files)
            },
            HandleState::CheckpointFence(_) => HandleAction::Fence,
            HandleState::BuildFence(_) => HandleAction::Fence,
        }
    }
}

/// The first step of a request, which needs a workspace.
pub open spec fn begun(workspaces: nat) -> HandleProgressModel {
    if workspaces == 0 {
        HandleProgressModel::Refused(
            GraphErrorModel::Retry(
                "graph snapshot is unavailable until the workspace has loaded; retry"@,
            ),
        )
    } else {
        HandleProgressModel::Waiting(HandleStateModel::Inputs)
    }
}

/// Starts a request.
pub fn begin(workspaces: usize) -> (progress: HandleProgress)
    ensures
        progress.deep_view() == begun(workspaces as nat),
{
    if workspaces == 0 {
        HandleProgress::Refused(
            retry_error("graph snapshot is unavailable until the workspace has loaded; retry"),
        )
    } else {
        HandleProgress::Waiting(HandleState::Inputs)
    }
}

/// Takes events and the observed universe into account. A committed snapshot of another universe
/// is dropped.
pub open spec fn observed(
    cache: GraphSnapshotCacheModel,
    universe: GraphSnapshotUniverseModel,
    external_epoch: u64,
    source_epoch: u64,
) -> GraphSnapshotCacheModel {
    let drained = source_events_drained(
        external_events_drained(cache, external_epoch),
        source_epoch,
    );
    if drained.committed is Some && drained.committed->0.universe != universe {
        universe_invalidated(drained)
    } else {
        drained
    }
}

/// Answers from the current snapshot, where there is one once the universe was observed.
pub fn observe(
    cache: &mut GraphSnapshotCache,
    universe: &GraphSnapshotUniverse,
    external_epoch: u64,
    source_epoch: u64,
    known_generation: &Option<String>,
) -> (response: Option<GraphSnapshotResult>)
    ensures
        final(cache).deep_view() == observed(
            old(cache).deep_view(),
            universe.deep_view(),
            external_epoch,
            source_epoch,
        ),
        response.deep_view() == match current_of(final(cache).deep_view()) {
            Some(cached) => Some(answer(planned(cached, known_generation.deep_view(), true))),
            None => None,
        },
{
    drain_external_input_events_at(cache, external_epoch);
    drain_source_input_events_at(cache, source_epoch);
    let moved = match &cache.committed {
        Some(cached) => !cached.universe.same(universe),
        None => false,
    };
    if moved {
        cache.invalidate_universe();
    }
    match cache.current() {
        Some(cached) => Some(response_plan(cached, known_generation, true).into_result()),
        None => None,
    }
}

/// Whether a plan is what a cache holds. The files that changed come in any order.
pub open spec fn is_plan(cache: GraphSnapshotCacheModel, plan: BuildPlanModel) -> bool {
    &&& plan.dirty_files.no_duplicates()
    &&& file_numbers(plan.dirty_files) == cache.dirty_files
    &&& plan.full_rebuild == cache.full_rebuild
    &&& match cache.committed {
        Some(cached) => {
            &&& plan.universe == Some(cached.universe)
            &&& plan.interface_fingerprints == cached.interface_fingerprints
            &&& plan.source_inputs == cached.source_inputs
            &&& plan.node_owners == cached.node_owners
        },
        None => {
            &&& plan.universe is None
            &&& plan.interface_fingerprints == Map::<Seq<char>, Seq<char>>::empty()
            &&& plan.source_inputs == Map::<FileId, Seq<char>>::empty()
            &&& plan.node_owners == Map::<Seq<char>, Seq<char>>::empty()
        },
    }
}

/// Reads from a cache what a build starts from.
pub fn plan_build(cache: &GraphSnapshotCache) -> (plan: BuildPlan)
    ensures
        is_plan(cache.deep_view(), plan.deep_view()),
{
    let dirty_files = cache.dirty_list();
    assert(dirty_files.deep_view() =~= dirty_files@);
    match &cache.committed {
        Some(cached) => BuildPlan {
            dirty_files,
            full_rebuild: cache.full_rebuild,
            universe: Some(cached.universe.duplicate()),
            interface_fingerprints: cached.interface_fingerprints.duplicate(),
            source_inputs: cached.source_inputs.duplicate(),
            node_owners: cached.node_owners.duplicate(),
        },
        None => BuildPlan {
            dirty_files,
            full_rebuild: cache.full_rebuild,
            universe: None,
            interface_fingerprints: Table::new(),
            source_inputs: Table::new(),
            node_owners: Table::new(),
        },
    }
}

/// The files of an index.
pub open spec fn indexed_files(indexed: Seq<StaticIndexedFileModel>) -> Seq<FileId> {
    Seq::new(indexed.len(), |i: int| indexed[i].file_id)
}

/// The files of an index.
pub fn list_indexed(indexed: &Vec<StaticIndexedFile>) -> (files: Vec<FileId>)
    ensures
        files@ == indexed_files(indexed.deep_view()),
{
    let mut files: Vec<FileId> = Vec::new();
    let mut index: usize = 0;
    while index < indexed.len()
        invariant
            index <= indexed.len(),
            files.len() == index,
            forall|i: int| 0 <= i < index ==> #[trigger] files@[i] == indexed@[i].file_id,
        decreases indexed.len() - index,
    {
        files.push(indexed[index].file_id);
        index += 1;
    }
    assert(files@ =~= indexed_files(indexed.deep_view()));
    files
}

/// What comes after the index: an index of no files is refused, an index of changed files with
/// another interface is made again from all files, and the fingerprints of unchanged files are
/// kept.
pub open spec fn index_taken(
    files: Map<FileId, SourceFileModel>,
    pending: PendingIndexModel,
    index: StaticIndexModel,
) -> HandleProgressModel {
    let fingerprints = interface_fingerprints(files, index);
    let dirty = paths_of(files, pending.plan.dirty_files);
    if pending.full_rebuild && index.files.len() == 0 {
        HandleProgressModel::Refused(
            GraphErrorModel::Retry(
                if pending.plan.full_rebuild {
                    "graph snapshot is unavailable until the crate graph has loaded; retry"@
                } else {
                    "graph snapshot is unavailable while the crate graph is reloading; retry"@
                },
            ),
        )
    } else if !pending.full_rebuild && has_interface_change(
        pending.plan.interface_fingerprints,
        fingerprints,
        dirty,
    ) {
        HandleProgressModel::Waiting(
            HandleStateModel::Index(PendingIndexModel { full_rebuild: true, ..pending }),
        )
    } else {
        HandleProgressModel::Waiting(
            HandleStateModel::BuildWatch(
                PendingBuildModel {
                    universe: pending.universe,
                    plan: pending.plan,
                    full_rebuild: pending.full_rebuild,
                    index,
                    interface_fingerprints: if pending.full_rebuild {
                        fingerprints
                    } else {
                        pending.plan.interface_fingerprints.remove_keys(dirty).union_prefer_right(
                            fingerprints,
                        )
                    },
                    epoch: 0,
                },
            ),
        )
    }
}

/// Takes the index of a build.
pub fn take_index(files: &SourceFiles, pending: PendingIndex, index: StaticIndex) -> (progress:
    HandleProgress)
    ensures
        progress.deep_view() == index_taken(
            files.deep_view(),
            pending.deep_view(),
            index.deep_view(),
        ),
{
    let PendingIndex { universe, plan, full_rebuild } = pending;
    assert(index.deep_view().files.len() == index.files.len());
    assert(plan.dirty_files.deep_view() =~= plan.dirty_files@);
    if full_rebuild && index.files.len() == 0 {
        return HandleProgress::Refused(
            if plan.full_rebuild {
                retry_error("graph snapshot is unavailable until the crate graph has loaded; retry")
            } else {
                retry_error(
                    "graph snapshot is unavailable while the crate graph is reloading; retry",
                )
            },
        );
    }
    let fingerprints = compute_interface_fingerprints(files, &index);
    let interface_fingerprints = if full_rebuild {
        fingerprints
    } else {
        let dirty_sources = collect_paths(files, &plan.dirty_files);
        if interfaces_changed(&plan.interface_fingerprints, &fingerprints, &dirty_sources) {
            return HandleProgress::Waiting(
                HandleState::Index(PendingIndex { universe, plan, full_rebuild: true }),
            );
        }
        let mut kept = plan.interface_fingerprints.duplicate();
        kept.remove_all(&dirty_sources);
        kept.extend(&fingerprints);
        kept
    };
    HandleProgress::Waiting(
        HandleState::BuildWatch(
            PendingBuild { universe, plan, full_rebuild, index, interface_fingerprints, epoch: 0 },
        ),
    )
}

/// The owners of nodes whose source files are not among the given ones.
pub open spec fn retained_owners(
    owners: Map<Seq<char>, Seq<char>>,
    dirty: Set<Seq<char>>,
) -> Map<Seq<char>, Seq<char>> {
    Map::new(
        |id: Seq<char>| owners.contains_key(id) && !dirty.contains(owners[id]),
        |id: Seq<char>| owners[id],
    )
}

fn retain_owners(owners: &Table<String, String>, dirty: &Table<String, ()>) -> (kept: Table<
    String,
    String,
>)
    ensures
        kept.deep_view() == retained_owners(owners.deep_view(), dirty.deep_view().dom()),
{
    let ghost all = owners.deep_view();
    let ghost d = dirty.deep_view().dom();
    let ghost listing = ordered::<String, Seq<char>>(all);
    let count = owners.len();
    let mut kept: Table<String, String> = Table::new();
    let mut index: usize = 0;
    while index < count
        invariant
            index <= count,
            count == listing.len(),
            all == owners.deep_view(),
            d == dirty.deep_view().dom(),
            listing == ordered::<String, Seq<char>>(all),
            lists::<String, Seq<char>>(listing, all),
            forall|id: Seq<char>| #[trigger]
                kept.deep_view().contains_key(id) <==> is_retained(listing, d, index as int, id),
            forall|id: Seq<char>| #[trigger]
                kept.deep_view().contains_key(id) ==> kept.deep_view()[id] == all[id],
        decreases count - index,
    {
        let ghost before = kept.deep_view();
        let source = owners.value_at(index);
        assert(all.contains_key(listing[index as int].0));
        if !dirty.contains(source) {
            kept.insert(owners.key_at(index).clone(), source.clone());
        }
        proof {
            assert forall|id: Seq<char>| #[trigger]
                kept.deep_view().contains_key(id) <==> is_retained(listing, d, index + 1, id) by {
                assert(before.contains_key(id) <==> is_retained(listing, d, index as int, id));
                if is_retained(listing, d, index + 1, id) && !is_retained(
                    listing,
                    d,
                    index as int,
                    id,
                ) {
                    assert(listing[index as int].0 == id);
                }
                if id == listing[index as int].0 && !d.contains(listing[index as int].1) {
                    assert(is_retained(listing, d, index + 1, id));
                }
            }
        }
        index += 1;
    }
    proof {
        assert forall|id: Seq<char>| #[trigger]
            kept.deep_view().contains_key(id) <==> retained_owners(all, d).contains_key(id) by {
            if kept.deep_view().contains_key(id) {
                let i = choose|i: int|
                    0 <= i < listing.len() && (#[trigger] listing[i]).0 == id && !d.contains(
                        listing[i].1,
                    );
                assert(all.contains_key(listing[i].0));
            }
            if retained_owners(all, d).contains_key(id) {
                assert(all.contains_key(id));
                let i = choose|i: int| 0 <= i < listing.len() && (#[trigger] listing[i]).0 == id;
                assert(all[listing[i].0] == listing[i].1);
                assert(is_retained(listing, d, listing.len() as int, id));
            }
        }
        assert(kept.deep_view() =~= retained_owners(all, d));
    }
    kept
}

spec fn is_retained(
    listing: Seq<(Seq<char>, Seq<char>)>,
    dirty: Set<Seq<char>>,
    count: int,
    id: Seq<char>,
) -> bool {
    exists|i: int|
        0 <= i < count && (#[trigger] listing[i]).0 == id && !dirty.contains(listing[i].1)
}

/// What comes after the digests of the source files: the shards are built in the universe that was
/// observed, which must be that of the committed snapshot where this is built upon.
pub open spec fn sources_taken(
    files: Map<FileId, SourceFileModel>,
    pending: PendingBuildModel,
    validated: Map<FileId, Seq<char>>,
) -> HandleProgressModel {
    let plan = pending.plan;
    let source_inputs = if pending.full_rebuild {
        Map::<FileId, Seq<char>>::empty().union_prefer_right(validated)
    } else {
        plan.source_inputs.union_prefer_right(validated)
    };
    let dirty = paths_of(files, indexed_files(pending.index.files));
    let owners = if pending.full_rebuild {
        Map::<Seq<char>, Seq<char>>::empty()
    } else {
        retained_owners(plan.node_owners, dirty)
    };
    if !plan.full_rebuild && plan.universe is None {
        HandleProgressModel::Refused(
            GraphErrorModel::Failed("incremental graph snapshot lost its universe"@),
        )
    } else if !plan.full_rebuild && plan.universe != Some(pending.universe) {
        HandleProgressModel::Refused(
            GraphErrorModel::Retry("graph snapshot universe moved; retry the request"@),
        )
    } else {
        match built(
            files,
            pending.index,
            pending.universe.target,
            pending.interface_fingerprints,
            source_inputs,
            owners,
        ) {
            Err(error) => HandleProgressModel::Refused(error),
            Ok(shards) => HandleProgressModel::Waiting(
                HandleStateModel::BuildInputs(
                    PendingCommitModel {
                        universe: pending.universe,
                        full_rebuild: pending.full_rebuild,
                        dirty_files: plan.dirty_files,
                        built: shards,
                        interface_fingerprints: pending.interface_fingerprints,
                        source_inputs,
                        epoch: pending.epoch,
                    },
                ),
            ),
        }
    }
}

/// Takes the digests of the source files of a build, and builds the shards.
pub fn take_sources(files: &SourceFiles, pending: PendingBuild, validated: &Table<FileId, String>) -> (progress:
    HandleProgress)
    ensures
        progress.deep_view() == sources_taken(
            files.deep_view(),
            pending.deep_view(),
            validated.deep_view(),
        ),
{
    let PendingBuild { universe, plan, full_rebuild, index, interface_fingerprints, epoch } =
        pending;
    if !plan.full_rebuild {
        match &plan.universe {
            None => {
                return HandleProgress::Refused(
                    failure("incremental graph snapshot lost its universe"),
                );
            },
            Some(cached) => if !cached.same(&universe) {
                return HandleProgress::Refused(
                    retry_error("graph snapshot universe moved; retry the request"),
                );
            },
        }
    }
    let mut source_inputs: Table<FileId, String> = Table::new();
    let mut owners: Table<String, String> = Table::new();
    if !full_rebuild {
        let indexed = list_indexed(&index.files);
        let dirty_sources = collect_paths(files, &indexed);
        source_inputs = plan.source_inputs;
        owners = retain_owners(&plan.node_owners, &dirty_sources);
    }
    source_inputs.extend(validated);
    match build_shards(
        files,
        &index,
        &universe,
        &interface_fingerprints,
        &source_inputs,
        owners,
    ) {
        Err(error) => HandleProgress::Refused(error),
        Ok(built) => HandleProgress::Waiting(
            HandleState::BuildInputs(
                PendingCommit {
                    universe,
                    full_rebuild,
                    dirty_files: plan.dirty_files,
                    built,
                    interface_fingerprints,
                    source_inputs,
                    epoch,
                },
            ),
        ),
    }
}

/// What is committed.
pub open spec fn commit_of(
    files: Map<FileId, SourceFileModel>,
    request: HandleRequestModel,
    pending: PendingCommitModel,
    phases: GraphSnapshotPhasesModel,
) -> CommitModel {
    CommitModel {
        revision: request.revision,
        producer: request.producer,
        universe: pending.universe,
        phases,
        full_rebuild: pending.full_rebuild,
        dirty_sources: paths_of(files, pending.dirty_files),
        built: pending.built,
        interface_fingerprints: pending.interface_fingerprints,
        source_inputs: pending.source_inputs,
    }
}

/// What a result means for a request.
pub open spec fn concluded(result: Result<GraphSnapshotResultModel, GraphErrorModel>) -> HandleProgressModel {
    match result {
        Ok(result) => HandleProgressModel::Answered(result),
        Err(error) => HandleProgressModel::Refused(error),
    }
}

fn conclude(result: Result<GraphSnapshotResult, GraphError>) -> (progress: HandleProgress)
    ensures
        progress.deep_view() == concluded(outcome(result)),
{
    match result {
        Ok(result) => HandleProgress::Answered(result),
        Err(error) => HandleProgress::Refused(error),
    }
}

/// What comes of an event that a request does not wait for.
pub open spec fn unexpected() -> HandleProgressModel {
    HandleProgressModel::Refused(
        GraphErrorModel::Failed("graph snapshot request received an unexpected event"@),
    )
}

/// Whether a request moves on as it should: what becomes of the cache, and how far the request has
/// come.
pub open spec fn is_step(
    files: Map<FileId, SourceFileModel>,
    request: HandleRequestModel,
    state: HandleStateModel,
    event: HandleEventModel,
    before: GraphSnapshotCacheModel,
    after: GraphSnapshotCacheModel,
    progress: HandleProgressModel,
) -> bool {
    let known = request.params.known_generation;
    match (state, event) {
        (HandleStateModel::Inputs, HandleEventModel::InputsEnsured) => {
            after == before && progress == HandleProgressModel::Waiting(HandleStateModel::Universe)
        },
        (
            HandleStateModel::Universe,
            HandleEventModel::UniverseObserved { universe, external_epoch, source_epoch },
        ) => {
            &&& after == observed(before, universe, external_epoch, source_epoch)
            &&& progress == match current_of(after) {
                Some(cached) => HandleProgressModel::Answered(
                    answer(planned(cached, known, true)),
                ),
                None => HandleProgressModel::Waiting(HandleStateModel::Model { universe }),
            }
        },
        (HandleStateModel::Model { universe }, HandleEventModel::ModelValidated) => {
            &&& after == before
            &&& match request.params.checkpoint {
                Some(_) => progress == HandleProgressModel::Waiting(
                    HandleStateModel::SourceList { universe },
                ),
                None => match progress {
                    HandleProgressModel::Waiting(HandleStateModel::Index(pending)) => {
                        &&& pending.universe == universe
                        &&& pending.full_rebuild == before.full_rebuild
                        &&& is_plan(before, pending.plan)
                    },
                    _ => false,
                },
            }
        },
        (HandleStateModel::SourceList { universe }, HandleEventModel::SourcesListed { files: listed }) => {
            after == before && progress == HandleProgressModel::Waiting(
                HandleStateModel::CheckpointWatch { universe, files: listed },
            )
        },
        (
            HandleStateModel::CheckpointWatch { universe, files: listed },
            HandleEventModel::SourcesWatched { epoch },
        ) => {
            after == before && progress == HandleProgressModel::Waiting(
                HandleStateModel::CheckpointSources { universe, files: listed, epoch },
            )
        },
        (
            HandleStateModel::CheckpointSources { universe, files: listed, epoch },
            HandleEventModel::SourcesValidated { inputs },
        ) => {
            &&& after == before
            &&& progress == match request.params.checkpoint {
                None => unexpected(),
                Some(checkpoint) => match checkpoint_parts(
                    files,
                    request.producer,
                    universe,
                    checkpoint,
                    known,
                    inputs,
                ) {
                    Err(error) => HandleProgressModel::Refused(error),
                    Ok(parts) => HandleProgressModel::Waiting(
                        HandleStateModel::CheckpointInputs(
                            PendingCheckpointModel {
                                universe,
                                parts,
                                source_inputs: inputs,
                                epoch,
                            },
                        ),
                    ),
                },
            }
        },
        (HandleStateModel::CheckpointInputs(pending), HandleEventModel::InputsEnsured) => {
            after == before && progress == HandleProgressModel::Waiting(
                HandleStateModel::CheckpointModel(pending),
            )
        },
        (HandleStateModel::CheckpointModel(pending), HandleEventModel::ModelValidated) => {
            after == before && progress == HandleProgressModel::Waiting(
                HandleStateModel::CheckpointUniverse(pending),
            )
        },
        (
            HandleStateModel::CheckpointUniverse(pending),
            HandleEventModel::UniverseObserved { universe, external_epoch, source_epoch },
        ) => {
            &&& after == before
            &&& progress == if universe == pending.universe {
                HandleProgressModel::Waiting(HandleStateModel::CheckpointRecheck(pending))
            } else {
                HandleProgressModel::Refused(
                    GraphErrorModel::Retry(
                        "graph snapshot universe moved while validating a checkpoint; retry"@,
                    ),
                )
            }
        },
        (
            HandleStateModel::CheckpointRecheck(pending),
            HandleEventModel::SourcesValidated { inputs },
        ) => {
            &&& after == before
            &&& progress == if inputs == pending.source_inputs {
                HandleProgressModel::Waiting(HandleStateModel::CheckpointFence(pending))
            } else {
                HandleProgressModel::Refused(
                    GraphErrorModel::Retry(
                        "graph snapshot source inputs moved while validating a checkpoint; retry"@,
                    ),
                )
            }
        },
        (
            HandleStateModel::CheckpointFence(pending),
            HandleEventModel::Fenced { external_epoch, source_epoch, phases },
        ) => match request.params.checkpoint {
            None => after == before && progress == unexpected(),
            Some(checkpoint) => {
                let (cache, result) = checkpoint_installed(
                    before,
                    external_epoch,
                    source_epoch,
                    pending.epoch,
                    request.revision,
                    request.producer,
                    pending.universe,
                    checkpoint.generation,
                    pending.parts,
                    pending.source_inputs,
                    known,
                );
                after == cache && progress == concluded(result)
            },
        },
        (HandleStateModel::Index(pending), HandleEventModel::Indexed(index)) => {
            after == before && progress == index_taken(files, pending, index)
        },
        (HandleStateModel::BuildWatch(pending), HandleEventModel::SourcesWatched { epoch }) => {
            after == before && progress == HandleProgressModel::Waiting(
                HandleStateModel::BuildSources(PendingBuildModel { epoch, ..pending }),
            )
        },
        (HandleStateModel::BuildSources(pending), HandleEventModel::SourcesValidated { inputs }) => {
            after == before && progress == sources_taken(files, pending, inputs)
        },
        (HandleStateModel::BuildInputs(pending), HandleEventModel::InputsEnsured) => {
            after == before && progress == HandleProgressModel::Waiting(
                HandleStateModel::BuildModel(pending),
            )
        },
        (HandleStateModel::BuildModel(pending), HandleEventModel::ModelValidated) => {
            after == before && progress == HandleProgressModel::Waiting(
                HandleStateModel::BuildUniverse(pending),
            )
        },
        (
            HandleStateModel::BuildUniverse(pending),
            HandleEventModel::UniverseObserved { universe, external_epoch, source_epoch },
        ) => {
            if universe == pending.universe {
                after == before && progress == HandleProgressModel::Waiting(
                    HandleStateModel::BuildFence(pending),
                )
            } else {
                after == all_invalidated(before) && progress == HandleProgressModel::Refused(
                    GraphErrorModel::Retry(
                        "graph snapshot universe moved while it was being built; retry the request"@,
                    ),
                )
            }
        },
        (
            HandleStateModel::BuildFence(pending),
            HandleEventModel::Fenced { external_epoch, source_epoch, phases },
        ) => {
            let (cache, result) = snapshot_committed(
                before,
                external_epoch,
                source_epoch,
                pending.epoch,
                commit_of(files, request, pending, phases),
                known,
            );
            after == cache && progress == concluded(result)
        },
        _ => after == before && progress == unexpected(),
    }
}

/// Moves a request on by what a step that reached outside brought back.
pub fn handle_step(
    files: &SourceFiles,
    request: &HandleRequest,
    state: HandleState,
    event: HandleEvent,
    cache: &mut GraphSnapshotCache,
) -> (progress: HandleProgress)
    ensures
        is_step(
            files.deep_view(),
            request.deep_view(),
            state.deep_view(),
            event.deep_view(),
            old(cache).deep_view(),
            final(cache).deep_view(),
            progress.deep_view(),
        ),
{
    let known = &request.params.known_generation;
    match (state, event) {
        (HandleState::Inputs, HandleEvent::InputsEnsured) => HandleProgress::Waiting(
            HandleState::Universe,
        ),
        (
            HandleState::Universe,
            HandleEvent::UniverseObserved { universe, external_epoch, source_epoch },
        ) => match observe(cache, &universe, external_epoch, source_epoch, known) {
            Some(response) => HandleProgress::Answered(response),
            None => HandleProgress::Waiting(HandleState::Model { universe }),
        },
        (HandleState::Model { universe }, HandleEvent::ModelValidated) => {
            if request.params.checkpoint.is_some() {
                HandleProgress::Waiting(HandleState::SourceList { universe })
            } else {
                let plan = plan_build(cache);
                let full_rebuild = plan.full_rebuild;
                HandleProgress::Waiting(
                    HandleState::Index(PendingIndex { universe, plan, full_rebuild }),
                )
            }
        },
        (HandleState::SourceList { universe }, HandleEvent::SourcesListed { files: listed }) => {
            HandleProgress::Waiting(HandleState::CheckpointWatch { universe, files: listed })
        },
        (
            HandleState::CheckpointWatch { universe, files: listed },
            HandleEvent::SourcesWatched { epoch },
        ) => HandleProgress::Waiting(
            HandleState::CheckpointSources { universe, files: listed, epoch },
        ),
        (
            HandleState::CheckpointSources { universe, files: _, epoch },
            HandleEvent::SourcesValidated { inputs },
        ) => match &request.params.checkpoint {
            None => HandleProgress::Refused(
                failure("graph snapshot request received an unexpected event"),
            ),
            Some(checkpoint) => match validate_checkpoint(
                files,
                &request.producer,
                &universe,
                checkpoint,
                known,
                &inputs,
            ) {
                Err(error) => HandleProgress::Refused(error),
                Ok(parts) => HandleProgress::Waiting(
                    HandleState::CheckpointInputs(
                        PendingCheckpoint { universe, parts, source_inputs: inputs, epoch },
                    ),
                ),
            },
        },
        (HandleState::CheckpointInputs(pending), HandleEvent::InputsEnsured) => {
            HandleProgress::Waiting(HandleState::CheckpointModel(pending))
        },
        (HandleState::CheckpointModel(pending), HandleEvent::ModelValidated) => {
            HandleProgress::Waiting(HandleState::CheckpointUniverse(pending))
        },
        (
            HandleState::CheckpointUniverse(pending),
            HandleEvent::UniverseObserved { universe, external_epoch: _, source_epoch: _ },
        ) => {
            if universe.same(&pending.universe) {
                HandleProgress::Waiting(HandleState::CheckpointRecheck(pending))
            } else {
                HandleProgress::Refused(
                    retry_error(
                        "graph snapshot universe moved while validating a checkpoint; retry",
                    ),
                )
            }
        },
        (
            HandleState::CheckpointRecheck(pending),
            HandleEvent::SourcesValidated { inputs },
        ) => {
            if inputs.same(&pending.source_inputs) {
                HandleProgress::Waiting(HandleState::CheckpointFence(pending))
            } else {
                HandleProgress::Refused(
                    retry_error(
                        "graph snapshot source inputs moved while validating a checkpoint; retry",
                    ),
                )
            }
        },
        (
            HandleState::CheckpointFence(pending),
            HandleEvent::Fenced { external_epoch, source_epoch, phases: _ },
        ) => match &request.params.checkpoint {
            None => HandleProgress::Refused(
                failure("graph snapshot request received an unexpected event"),
            ),
            Some(checkpoint) => {
                let PendingCheckpoint { universe, parts, source_inputs, epoch } = pending;
                conclude(
                    install_checkpoint(
                        cache,
                        external_epoch,
                        source_epoch,
                        epoch,
                        request.revision,
                        request.producer.duplicate(),
                        universe,
                        checkpoint.generation.clone(),
                        parts,
                        source_inputs,
                        known,
                    ),
                )
            },
        },
        (HandleState::Index(pending), HandleEvent::Indexed(index)) => take_index(
            files,
            pending,
            index,
        ),
        (HandleState::BuildWatch(pending), HandleEvent::SourcesWatched { epoch }) => {
            let mut watched = pending;
            watched.epoch = epoch;
            HandleProgress::Waiting(HandleState::BuildSources(watched))
        },
        (HandleState::BuildSources(pending), HandleEvent::SourcesValidated { inputs }) => {
            take_sources(files, pending, &inputs)
        },
        (HandleState::BuildInputs(pending), HandleEvent::InputsEnsured) => {
            HandleProgress::Waiting(HandleState::BuildModel(pending))
        },
        (HandleState::BuildModel(pending), HandleEvent::ModelValidated) => {
            HandleProgress::Waiting(HandleState::BuildUniverse(pending))
        },
        (
            HandleState::BuildUniverse(pending),
            HandleEvent::UniverseObserved { universe, external_epoch: _, source_epoch: _ },
        ) => {
            if universe.same(&pending.universe) {
                HandleProgress::Waiting(HandleState::BuildFence(pending))
            } else {
                cache.invalidate_all();
                HandleProgress::Refused(
                    retry_error(
                        "graph snapshot universe moved while it was being built; retry the request",
                    ),
                )
            }
        },
        (
            HandleState::BuildFence(pending),
            HandleEvent::Fenced { external_epoch, source_epoch, phases },
        ) => {
            let PendingCommit {
                universe,
                full_rebuild,
                dirty_files,
                built,
                interface_fingerprints,
                source_inputs,
                epoch,
            } = pending;
            assert(dirty_files.deep_view() =~= dirty_files@);
            let commit = Commit {
                revision: request.revision,
                producer: request.producer.duplicate(),
                universe,
                phases,
                full_rebuild,
                dirty_sources: collect_paths(files, &dirty_files),
                built,
                interface_fingerprints,
                source_inputs,
            };
            conclude(
                commit_snapshot(cache, external_epoch, source_epoch, epoch, commit, known),
            )
        },
        _ => HandleProgress::Refused(
            failure("graph snapshot request received an unexpected event"),
        ),
    }
}

/// The number of steps that are left at most.
pub open spec fn request_steps(state: HandleStateModel) -> nat {
    match state {
        HandleStateModel::Inputs => 12,
        HandleStateModel::Universe => 11,
        HandleStateModel::Model { .. } => 10,
        HandleStateModel::SourceList { .. } => 9,
        HandleStateModel::CheckpointWatch { .. } => 8,
        HandleStateModel::CheckpointSources { .. } => 7,
        HandleStateModel::CheckpointInputs(_) => 6,
        HandleStateModel::CheckpointModel(_) => 5,
        HandleStateModel::CheckpointUniverse(_) => 4,
        HandleStateModel::CheckpointRecheck(_) => 3,
        HandleStateModel::CheckpointFence(_) => 2,
        HandleStateModel::Index(pending) => if pending.full_rebuild {
            7
        } else {
            8
        },
        HandleStateModel::BuildWatch(_) => 6,
        HandleStateModel::BuildSources(_) => 5,
        HandleStateModel::BuildInputs(_) => 4,
        HandleStateModel::BuildModel(_) => 3,
        HandleStateModel::BuildUniverse(_) => 2,
        HandleStateModel::BuildFence(_) => 1,
    }
}

/// A request comes to an end, whatever comes in.
pub proof fn law_requests_end(
    files: Map<FileId, SourceFileModel>,
    request: HandleRequestModel,
    state: HandleStateModel,
    event: HandleEventModel,
    before: GraphSnapshotCacheModel,
    after: GraphSnapshotCacheModel,
    progress: HandleProgressModel,
)
    requires
        is_step(files, request, state, event, before, after, progress),
    ensures
        match progress {
            HandleProgressModel::Waiting(next) => request_steps(next) < request_steps(state),
            _ => true,
        },
{
}

} // verus!
