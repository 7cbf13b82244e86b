//! Capturing the external inputs: the decisions between the steps that reach outside.

use vstd::prelude::*;
use vstd::string::*;

use crate::cache::{
    GraphSnapshotCache, GraphSnapshotCacheModel, drain_external_input_events_at,
    external_events_drained,
};
use crate::error::{GraphError, GraphErrorModel, failure, retry_error};
use crate::external::{ExternalGraphInput, ExternalGraphInputModel};
use crate::json::{Json, JsonModel, digest_json, json_digest};
use crate::keys::content_digest;
use crate::paths::{Component, ComponentModel};
use crate::plain::Plain;
use crate::symlinks::Capture;
use crate::table::Table;
use crate::universe::{inputs_error, unavailable_inputs};
use crate::wire::{Encoded, field};

verus! {

/// What the fingerprint of the configuration that external inputs follow from is taken of.
pub open spec fn configuration_json(
    descriptors: Seq<Seq<char>>,
    server: Option<Seq<char>>,
) -> JsonModel {
    JsonModel::Object(
        seq![
            ("workspaces"@, <Vec<String>>::encoding(descriptors)),
            ("procMacroServer"@, <Option<String>>::encoding(server)),
        ],
    )
}

/// The fingerprint of the configuration that external inputs follow from: the descriptions of the
/// workspaces, and the macro server.
pub fn input_fingerprint(descriptors: &Vec<String>, server: &Option<String>) -> (fingerprint: String)
    ensures
        fingerprint@ == json_digest(
            configuration_json(descriptors.deep_view(), server.deep_view()),
        ),
{
    let fields: Vec<(String, Json)> = vec![
        field("workspaces", descriptors.encode()),
        field("procMacroServer", server.encode()),
    ];
    let json = Json::Object(fields);
    assert(json.deep_view()->Object_0 =~= configuration_json(
        descriptors.deep_view(),
        server.deep_view(),
    )->Object_0);
    digest_json(&json)
}

/// The digest of the external inputs, and the paths that links among them led to.
#[derive(Debug)]
pub struct ExternalInputCapture {
    pub digest: String,
    pub symlink_watch_roots: Table<Vec<Component>, bool>,
}

/// The content of a [`ExternalInputCapture`].
pub struct ExternalInputCaptureModel {
    pub digest: Seq<char>,
    pub symlink_watch_roots: Map<Seq<ComponentModel>, bool>,
}

impl DeepView for ExternalInputCapture {
    type V = ExternalInputCaptureModel;

    open spec fn deep_view(&self) -> ExternalInputCaptureModel {
        ExternalInputCaptureModel {
            digest: self.digest.deep_view(),
            symlink_watch_roots: self.symlink_watch_roots.deep_view(),
        }
    }
}

impl Plain for ExternalInputCapture {
    fn duplicate(&self) -> (copy: Self) {
        ExternalInputCapture {
            digest: self.digest.duplicate(),
            symlink_watch_roots: self.symlink_watch_roots.duplicate(),
        }
    }

    fn same(&self, other: &Self) -> (equal: bool) {
        self.digest.same(&other.digest)
            && self.symlink_watch_roots.same(&other.symlink_watch_roots)
    }
}

impl Capture {
    /// What was captured, once all inputs were.
    pub fn finish(self) -> (capture: ExternalInputCapture)
        ensures
            capture.deep_view() == (ExternalInputCaptureModel {
                digest: content_digest(self.deep_view().content),
                symlink_watch_roots: self.deep_view().roots,
            }),
    {
        let digest = self.digest();
        ExternalInputCapture { digest, symlink_watch_roots: self.roots }
    }
}

/// What came of an attempt to capture the external inputs.
#[derive(Debug)]
pub enum CaptureOutcome {
    /// They were captured.
    Captured(ExternalInputCapture),
    /// They could not be captured, and why.
    Failed(String),
}

/// The content of a [`CaptureOutcome`].
pub enum CaptureOutcomeModel {
    Captured(ExternalInputCaptureModel),
    Failed(Seq<char>),
}

impl DeepView for CaptureOutcome {
    type V = CaptureOutcomeModel;

    open spec fn deep_view(&self) -> CaptureOutcomeModel {
        match self {
            CaptureOutcome::Captured(value) => CaptureOutcomeModel::Captured(value.deep_view()),
            CaptureOutcome::Failed(value) => CaptureOutcomeModel::Failed(value.deep_view()),
        }
    }
}

/// What the external inputs wait for.
#[derive(Debug)]
pub enum EnsureState {
    /// For the last event, while no other one can come in.
    Begin { fingerprint: String },
    /// For the inputs to be listed and watched.
    Watch { fingerprint: String },
    /// For the inputs to be captured.
    FirstCapture { fingerprint: String, revision: u64, inputs: Vec<ExternalGraphInput> },
    /// For the paths that links led to to be watched as well.
    Rewatch { fingerprint: String, revision: u64, inputs: Vec<ExternalGraphInput>, first: ExternalInputCapture },
    /// For the inputs to be captured again, now that all paths are watched.
    SecondCapture { fingerprint: String, revision: u64, inputs: Vec<ExternalGraphInput>, first: ExternalInputCapture },
    /// For the last event, to keep a digest.
    Settle { fingerprint: String, revision: u64, digest: String },
    /// For the last event, to keep an error.
    GiveUp { fingerprint: String, revision: u64, error: String },
}

/// The content of a [`EnsureState`].
pub enum EnsureStateModel {
    Begin { fingerprint: Seq<char> },
    Watch { fingerprint: Seq<char> },
    FirstCapture { fingerprint: Seq<char>, revision: u64, inputs: Seq<ExternalGraphInputModel> },
    Rewatch { fingerprint: Seq<char>, revision: u64, inputs: Seq<ExternalGraphInputModel>, first: ExternalInputCaptureModel },
    SecondCapture { fingerprint: Seq<char>, revision: u64, inputs: Seq<ExternalGraphInputModel>, first: ExternalInputCaptureModel },
    Settle { fingerprint: Seq<char>, revision: u64, digest: Seq<char> },
    GiveUp { fingerprint: Seq<char>, revision: u64, error: Seq<char> },
}

impl DeepView for EnsureState {
    type V = EnsureStateModel;

    open spec fn deep_view(&self) -> EnsureStateModel {
        match self {
            EnsureState::Begin { fingerprint } => EnsureStateModel::Begin {
                fingerprint: fingerprint.deep_view(),
            },
            EnsureState::Watch { fingerprint } => EnsureStateModel::Watch {
                fingerprint: fingerprint.deep_view(),
            },
            EnsureState::FirstCapture { fingerprint, revision, inputs } => EnsureStateModel::FirstCapture {
                fingerprint: fingerprint.deep_view(),
                revision: revision.deep_view(),
                inputs: inputs.deep_view(),
            },
            EnsureState::Rewatch { fingerprint, revision, inputs, first } => EnsureStateModel::Rewatch {
                fingerprint: fingerprint.deep_view(),
                revision: revision.deep_view(),
                inputs: inputs.deep_view(),
                first: first.deep_view(),
            },
            EnsureState::SecondCapture { fingerprint, revision, inputs, first } => EnsureStateModel::SecondCapture {
                fingerprint: fingerprint.deep_view(),
                revision: revision.deep_view(),
                inputs: inputs.deep_view(),
                first: first.deep_view(),
            },
            EnsureState::Settle { fingerprint, revision, digest } => EnsureStateModel::Settle {
                fingerprint: fingerprint.deep_view(),
                revision: revision.deep_view(),
                digest: digest.deep_view(),
            },
            EnsureState::GiveUp { fingerprint, revision, error } => EnsureStateModel::GiveUp {
                fingerprint: fingerprint.deep_view(),
                revision: revision.deep_view(),
                error: error.deep_view(),
            },
        }
    }
}

/// What a step that reached outside brought back.
#[derive(Debug)]
pub enum EnsureEvent {
    /// The last event on external inputs.
    Fenced { epoch: u64 },
    /// The inputs, which are being watched.
    Watched { inputs: Vec<ExternalGraphInput> },
    /// What came of the attempt to capture the inputs.
    Captured(CaptureOutcome),
    /// The paths that links led to are being watched as well.
    Rewatched,
}

/// The content of a [`EnsureEvent`].
pub enum EnsureEventModel {
    Fenced { epoch: u64 },
    Watched { inputs: Seq<ExternalGraphInputModel> },
    Captured(CaptureOutcomeModel),
    Rewatched,
}

impl DeepView for EnsureEvent {
    type V = EnsureEventModel;

    open spec fn deep_view(&self) -> EnsureEventModel {
        match self {
            EnsureEvent::Fenced { epoch } => EnsureEventModel::Fenced {
                epoch: epoch.deep_view(),
            },
            EnsureEvent::Watched { inputs } => EnsureEventModel::Watched {
                inputs: inputs.deep_view(),
            },
            EnsureEvent::Captured(value) => EnsureEventModel::Captured(value.deep_view()),
            EnsureEvent::Rewatched => EnsureEventModel::Rewatched,
        }
    }
}

/// How far the external inputs have come.
#[derive(Debug)]
pub enum EnsureProgress {
    /// Another step is needed.
    Waiting(EnsureState),
    /// The inputs were captured before.
    Ready,
    /// The inputs are captured; the watcher of all paths replaces the one before.
    Settled,
    /// The inputs could not be captured.
    Refused(GraphError),
}

/// The content of a [`EnsureProgress`].
pub enum EnsureProgressModel {
    Waiting(EnsureStateModel),
    Ready,
    Settled,
    Refused(GraphErrorModel),
}

impl DeepView for EnsureProgress {
    type V = EnsureProgressModel;

    open spec fn deep_view(&self) -> EnsureProgressModel {
        match self {
            EnsureProgress::Waiting(value) => EnsureProgressModel::Waiting(value.deep_view()),
            EnsureProgress::Ready => EnsureProgressModel::Ready,
            EnsureProgress::Settled => EnsureProgressModel::Settled,
            EnsureProgress::Refused(value) => EnsureProgressModel::Refused(value.deep_view()),
        }
    }
}

/// Whether the inputs that a cache holds follow from a configuration and are being watched.
pub open spec fn holds_inputs(cache: GraphSnapshotCacheModel, fingerprint: Seq<char>) -> bool {
    &&& cache.external_inputs == fingerprint
    &&& cache.external_input_watcher
    &&& !cache.external_input_watcher_stale
}

/// A cache whose inputs were listed and are being watched.
pub open spec fn inputs_adopted(
    cache: GraphSnapshotCacheModel,
    fingerprint: Seq<char>,
    inputs: Seq<ExternalGraphInputModel>,
) -> GraphSnapshotCacheModel {
    GraphSnapshotCacheModel {
        external_input_watcher: true,
        external_inputs: fingerprint,
        external_input_roots: inputs,
        external_inputs_dirty: true,
        external_input_watcher_stale: false,
        ..cache
    }
}

/// What comes next once the inputs are listed: inputs that were captured are not captured again.
pub open spec fn capture_decided(
    cache: GraphSnapshotCacheModel,
    fingerprint: Seq<char>,
    inputs: Seq<ExternalGraphInputModel>,
) -> EnsureProgressModel {
    if cache.external_inputs_dirty {
        EnsureProgressModel::Waiting(
            EnsureStateModel::FirstCapture {
                fingerprint,
                revision: cache.external_input_revision,
                inputs,
            },
        )
    } else {
        match cache.external_input_digest {
            Ok(_) => EnsureProgressModel::Ready,
            Err(error) => EnsureProgressModel::Refused(inputs_error(error)),
        }
    }
}

fn decide_capture(cache: &GraphSnapshotCache, fingerprint: String, inputs: Vec<ExternalGraphInput>) -> (progress:
    EnsureProgress)
    ensures
        progress.deep_view() == capture_decided(
            cache.deep_view(),
            fingerprint@,
            inputs.deep_view(),
        ),
{
    if cache.external_inputs_dirty {
        EnsureProgress::Waiting(
            EnsureState::FirstCapture {
                fingerprint,
                revision: cache.external_input_revision,
                inputs,
            },
        )
    } else {
        match &cache.external_input_digest {
            Ok(_) => EnsureProgress::Ready,
            Err(error) => EnsureProgress::Refused(unavailable_inputs(error.as_str())),
        }
    }
}

/// Whether nothing moved since the inputs started to be captured.
pub open spec fn is_still(
    cache: GraphSnapshotCacheModel,
    fingerprint: Seq<char>,
    revision: u64,
) -> bool {
    cache.external_inputs == fingerprint && cache.external_input_revision == revision
}

/// What is said where the inputs moved while they were being captured.
pub open spec fn inputs_moved() -> EnsureProgressModel {
    EnsureProgressModel::Refused(
        GraphErrorModel::Retry(
            "external graph inputs moved while they were being captured; retry the request"@,
        ),
    )
}

/// What comes of an event that the inputs do not wait for.
pub open spec fn unexpected_event() -> EnsureProgressModel {
    EnsureProgressModel::Refused(
        GraphErrorModel::Failed("external graph inputs received an unexpected event"@),
    )
}

/// What becomes of a cache and of the external inputs when a step that reached outside is done.
pub open spec fn ensured(
    cache: GraphSnapshotCacheModel,
    state: EnsureStateModel,
    event: EnsureEventModel,
) -> (GraphSnapshotCacheModel, EnsureProgressModel) {
    match (state, event) {
        (EnsureStateModel::Begin { fingerprint }, EnsureEventModel::Fenced { epoch }) => {
            let drained = external_events_drained(cache, epoch);
            if holds_inputs(drained, fingerprint) {
                (drained, capture_decided(drained, fingerprint, drained.external_input_roots))
            } else {
                (drained, EnsureProgressModel::Waiting(EnsureStateModel::Watch { fingerprint }))
            }
        },
        (EnsureStateModel::Watch { fingerprint }, EnsureEventModel::Watched { inputs }) => {
            let adopted = inputs_adopted(cache, fingerprint, inputs);
            (adopted, capture_decided(adopted, fingerprint, inputs))
        },
        (
            EnsureStateModel::FirstCapture { fingerprint, revision, inputs },
            EnsureEventModel::Captured(outcome),
        ) => (
            cache,
            EnsureProgressModel::Waiting(
                match outcome {
                    CaptureOutcomeModel::Captured(first) => EnsureStateModel::Rewatch {
                        fingerprint,
                        revision,
                        inputs,
                        first,
                    },
                    CaptureOutcomeModel::Failed(error) => EnsureStateModel::GiveUp {
                        fingerprint,
                        revision,
                        error,
                    },
                },
            ),
        ),
        (
            EnsureStateModel::Rewatch { fingerprint, revision, inputs, first },
            EnsureEventModel::Rewatched,
        ) => (
            cache,
            EnsureProgressModel::Waiting(
                EnsureStateModel::SecondCapture { fingerprint, revision, inputs, first },
            ),
        ),
        (
            EnsureStateModel::SecondCapture { fingerprint, revision, inputs, first },
            EnsureEventModel::Captured(outcome),
        ) => (
            cache,
            match outcome {
                CaptureOutcomeModel::Failed(error) => EnsureProgressModel::Waiting(
                    EnsureStateModel::GiveUp { fingerprint, revision, error },
                ),
                CaptureOutcomeModel::Captured(second) => if second.symlink_watch_roots
                    == first.symlink_watch_roots {
                    EnsureProgressModel::Waiting(
                        EnsureStateModel::Settle { fingerprint, revision, digest: second.digest },
                    )
                } else {
                    EnsureProgressModel::Refused(
                        GraphErrorModel::Retry(
                            "external graph-input symlinks moved while their watcher was being fenced; retry the request"@,
                        ),
                    )
                },
            },
        ),
        (
            EnsureStateModel::Settle { fingerprint, revision, digest },
            EnsureEventModel::Fenced { epoch },
        ) => {
            let drained = external_events_drained(cache, epoch);
            if is_still(drained, fingerprint, revision) {
                (
                    GraphSnapshotCacheModel {
                        external_input_digest: Ok(digest),
                        external_inputs_dirty: false,
                        external_input_watcher: true,
                        external_input_watcher_stale: false,
                        ..drained
                    },
                    EnsureProgressModel::Settled,
                )
            } else {
                (drained, inputs_moved())
            }
        },
        (
            EnsureStateModel::GiveUp { fingerprint, revision, error },
            EnsureEventModel::Fenced { epoch },
        ) => {
            let drained = external_events_drained(cache, epoch);
            if is_still(drained, fingerprint, revision) {
                (
                    GraphSnapshotCacheModel {
                        external_input_digest: Err(error),
                        external_inputs_dirty: true,
                        ..drained
                    },
                    EnsureProgressModel::Refused(
                        GraphErrorModel::Retry(
                            "external graph inputs could not be captured: "@ + error
                                + "; retry the request"@,
                        ),
                    ),
                )
            } else {
                (drained, inputs_moved())
            }
        },
        _ => (cache, unexpected_event()),
    }
}

fn inputs_still(cache: &GraphSnapshotCache, fingerprint: &String, revision: u64) -> (still: bool)
    ensures
        still == is_still(cache.deep_view(), fingerprint@, revision),
{
    cache.external_inputs.same(fingerprint) && cache.external_input_revision == revision
}

fn moved_inputs() -> (progress: EnsureProgress)
    ensures
        progress.deep_view() == inputs_moved(),
{
    EnsureProgress::Refused(
        retry_error(
            "external graph inputs moved while they were being captured; retry the request",
        ),
    )
}

/// Moves the external inputs on by what a step that reached outside brought back.
pub fn ensure_external_inputs(
    cache: &mut GraphSnapshotCache,
    state: EnsureState,
    event: EnsureEvent,
) -> (progress: EnsureProgress)
    ensures
        (final(cache).deep_view(), progress.deep_view()) == ensured(
            old(cache).deep_view(),
            state.deep_view(),
            event.deep_view(),
        ),
{
    match (state, event) {
        (EnsureState::Begin { fingerprint }, EnsureEvent::Fenced { epoch }) => {
            drain_external_input_events_at(cache, epoch);
            if cache.external_inputs.same(&fingerprint) && cache.external_input_watcher
                && !cache.external_input_watcher_stale {
                let inputs = cache.external_input_roots.duplicate();
                decide_capture(cache, fingerprint, inputs)
            } else {
                EnsureProgress::Waiting(EnsureState::Watch { fingerprint })
            }
        },
        (EnsureState::Watch { fingerprint }, EnsureEvent::Watched { inputs }) => {
            cache.external_input_watcher = true;
            cache.external_inputs = fingerprint.clone();
            cache.external_input_roots = inputs.duplicate();
            cache.external_inputs_dirty = true;
            cache.external_input_watcher_stale = false;
            decide_capture(cache, fingerprint, inputs)
        },
        (
            EnsureState::FirstCapture { fingerprint, revision, inputs },
            EnsureEvent::Captured(outcome),
        ) => match outcome {
            CaptureOutcome::Captured(first) => EnsureProgress::Waiting(
                EnsureState::Rewatch { fingerprint, revision, inputs, first },
            ),
            CaptureOutcome::Failed(error) => EnsureProgress::Waiting(
                EnsureState::GiveUp { fingerprint, revision, error },
            ),
        },
        (
            EnsureState::Rewatch { fingerprint, revision, inputs, first },
            EnsureEvent::Rewatched,
        ) => EnsureProgress::Waiting(
            EnsureState::SecondCapture { fingerprint, revision, inputs, first },
        ),
        (
            EnsureState::SecondCapture { fingerprint, revision, inputs: _, first },
            EnsureEvent::Captured(outcome),
        ) => match outcome {
            CaptureOutcome::Failed(error) => EnsureProgress::Waiting(
                EnsureState::GiveUp { fingerprint, revision, error },
            ),
            CaptureOutcome::Captured(second) => if second.symlink_watch_roots.same(
                &first.symlink_watch_roots,
            ) {
                EnsureProgress::Waiting(
                    EnsureState::Settle { fingerprint, revision, digest: second.digest },
                )
            } else {
                EnsureProgress::Refused(
                    retry_error(
                        "external graph-input symlinks moved while their watcher was being fenced; retry the request",
                    ),
                )
            },
        },
        (EnsureState::Settle { fingerprint, revision, digest }, EnsureEvent::Fenced { epoch }) => {
            drain_external_input_events_at(cache, epoch);
            if !inputs_still(cache, &fingerprint, revision) {
                return moved_inputs();
            }
            cache.external_input_digest = Ok(digest);
            cache.external_inputs_dirty = false;
            cache.external_input_watcher = true;
            cache.external_input_watcher_stale = false;
            EnsureProgress::Settled
        },
        (EnsureState::GiveUp { fingerprint, revision, error }, EnsureEvent::Fenced { epoch }) => {
            drain_external_input_events_at(cache, epoch);
            if !inputs_still(cache, &fingerprint, revision) {
                return moved_inputs();
            }
            let mut message = "external graph inputs could not be captured: ".to_owned();
            message.append(error.as_str());
            message.append("; retry the request");
            cache.external_input_digest = Err(error);
            cache.external_inputs_dirty = true;
            EnsureProgress::Refused(GraphError::Retry(message))
        },
        _ => EnsureProgress::Refused(
            failure("external graph inputs received an unexpected event"),
        ),
    }
}

/// Once the external inputs are said to be captured, their digest is known, they are being watched,
/// and nothing came up since.
pub proof fn law_captured_inputs_are_known(
    cache: GraphSnapshotCacheModel,
    state: EnsureStateModel,
    event: EnsureEventModel,
)
    ensures
        ({
            let (after, progress) = ensured(cache, state, event);
            progress is Ready || progress is Settled ==> {
                &&& after.external_input_digest is Ok
                &&& !after.external_inputs_dirty
                &&& after.external_input_watcher
                &&& !after.external_input_watcher_stale
            }
        }),
{
}

/// The number of steps that are left at most.
pub open spec fn capture_steps(state: EnsureStateModel) -> nat {
    match state {
        EnsureStateModel::Begin { .. } => 6,
        EnsureStateModel::Watch { .. } => 5,
        EnsureStateModel::FirstCapture { .. } => 4,
        EnsureStateModel::Rewatch { .. } => 3,
        EnsureStateModel::SecondCapture { .. } => 2,
        EnsureStateModel::Settle { .. } => 1,
        EnsureStateModel::GiveUp { .. } => 1,
    }
}

/// Capturing the external inputs comes to an end, whatever comes in.
pub proof fn law_captures_end(
    cache: GraphSnapshotCacheModel,
    state: EnsureStateModel,
    event: EnsureEventModel,
)
    ensures
        match ensured(cache, state, event).1 {
            EnsureProgressModel::Waiting(next) => capture_steps(next) < capture_steps(state),
            _ => true,
        },
{
}

} // verus!
