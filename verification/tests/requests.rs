//! Requests for snapshots and the capture of external inputs, step by step.

use std::cell::RefCell;

use graph_snapshot::cache::{GraphSnapshotCache, producer};
use graph_snapshot::digest::digest_bytes;
use graph_snapshot::ensure::{
    CaptureOutcome, EnsureEvent, EnsureProgress, EnsureState, ExternalInputCapture,
    ensure_external_inputs, input_fingerprint,
};
use graph_snapshot::error::GraphError;
use graph_snapshot::external::ExternalGraphInput;
use graph_snapshot::files::{
    DiskPath, FileAnalysis, FileId, FileLocation, FileRange, LineColumn, SourceFile, SourceFiles,
    TextRange,
};
use graph_snapshot::handle::{
    HandleAction, HandleEvent, HandleProgress, HandleRequest, HandleState, begin, handle_step,
    plan_build,
};
use graph_snapshot::moniker::SymbolInformationKind;
use graph_snapshot::paths::Component;
use graph_snapshot::shards::snapshot_generation;
use graph_snapshot::snapshot::{
    GraphSnapshotCheckpoint, GraphSnapshotParams, GraphSnapshotPhases, GraphSnapshotResult,
    GraphSnapshotShard, GraphSnapshotSource, GraphSnapshotUniverse, PROTOCOL_VERSION,
    SCHEMA_VERSION,
};
use graph_snapshot::static_index::{
    ReferenceData, StaticIndex, StaticIndexedFile, StaticReferenceRole, TokenStaticData,
    TokenStore,
};
use graph_snapshot::table::Table;

fn retry(message: &str) -> GraphError {
    GraphError::Retry(message.to_owned())
}

/// One function in each file, by name and signature.
struct World {
    functions: Vec<(&'static str, &'static str)>,
    universe: GraphSnapshotUniverse,
    /// The universe that is observed after the build.
    later: Option<GraphSnapshotUniverse>,
    contents: Vec<&'static str>,
    epoch: u64,
    actions: RefCell<Vec<String>>,
}

impl World {
    fn new() -> Self {
        World {
            functions: vec![("f", "fn f()"), ("g", "fn g()")],
            universe: GraphSnapshotUniverse {
                target: "rust:u".to_owned(),
                digest: "u".to_owned(),
                ..GraphSnapshotUniverse::default()
            },
            later: None,
            contents: vec!["one", "two"],
            epoch: 0,
            actions: RefCell::new(Vec::new()),
        }
    }

    fn files(&self) -> SourceFiles {
        let mut files = Table::new();
        for (index, (name, _)) in self.functions.iter().enumerate() {
            let mut positions = Table::new();
            for offset in 0..=10 {
                positions.insert(offset, LineColumn { line: 0, column: offset });
            }
            files.insert(
                FileId(index as u32),
                SourceFile {
                    location: FileLocation {
                        name: format!("{name}.rs"),
                        disk: Some(DiskPath {
                            path: format!("/w/{name}.rs"),
                            relative: Some(format!("{name}.rs")),
                        }),
                    },
                    text: Some(String::new()),
                    positions: Some(positions),
                    analysis: Some(FileAnalysis {
                        root: TextRange::new(0, 10),
                        diagnostics: Vec::new(),
                        calls: Vec::new(),
                        method_calls: Vec::new(),
                        macro_calls: Vec::new(),
                        record_literals: Vec::new(),
                        type_paths: Vec::new(),
                        use_paths: Vec::new(),
                    }),
                },
            );
        }
        files
    }

    fn index(&self, files: &[FileId]) -> StaticIndex {
        let mut tokens = TokenStore::default();
        for file in files {
            let (name, signature) = self.functions[file.0 as usize];
            let at = |start: u32, end: u32| FileRange {
                file_id: *file,
                range: TextRange::new(start, end),
            };
            tokens.insert(TokenStaticData {
                stable_id: name.to_owned(),
                qualified_name: None,
                exported: true,
                external: false,
                local: false,
                trait_member: false,
                const_function: false,
                documentation: None,
                hover: None,
                definition: Some(at(3, 4)),
                definition_body: Some(at(0, 9)),
                references: vec![ReferenceData {
                    range: at(3, 4),
                    is_definition: true,
                    role: StaticReferenceRole::Reference,
                    interface_spelling: None,
                    export: None,
                }],
                moniker: None,
                display_name: Some(name.to_owned()),
                signature: Some(signature.to_owned()),
                kind: SymbolInformationKind::Function,
            });
        }
        StaticIndex {
            files: files
                .iter()
                .map(|file| StaticIndexedFile {
                    file_id: *file,
                    folds: Vec::new(),
                    tokens: Vec::new(),
                    conditional_build: false,
                })
                .collect(),
            tokens,
            relations: Vec::new(),
            def_map: Default::default(),
            graph: true,
        }
    }

    fn all(&self) -> Vec<FileId> {
        (0..self.functions.len() as u32).map(FileId).collect()
    }

    fn perform(&self, action: HandleAction, built: bool) -> HandleEvent {
        self.actions.borrow_mut().push(format!("{action:?}"));
        match action {
            HandleAction::EnsureInputs => HandleEvent::InputsEnsured,
            HandleAction::ObserveUniverse => HandleEvent::UniverseObserved {
                universe: match (&self.later, built) {
                    (Some(later), true) => later.clone(),
                    _ => self.universe.clone(),
                },
                external_epoch: 0,
                source_epoch: self.epoch,
            },
            HandleAction::ValidateModel => HandleEvent::ModelValidated,
            HandleAction::ListSources => HandleEvent::SourcesListed { files: self.all() },
            HandleAction::WatchSources(_) | HandleAction::ReadSourceEvents => {
                HandleEvent::SourcesWatched { epoch: self.epoch }
            }
            HandleAction::ValidateSources(files) => {
                let mut inputs = Table::new();
                for file in files {
                    inputs.insert(file, digest_bytes(self.contents[file.0 as usize].as_bytes()));
                }
                HandleEvent::SourcesValidated { inputs }
            }
            HandleAction::IndexAll => HandleEvent::Indexed(self.index(&self.all())),
            HandleAction::IndexFiles(files) => HandleEvent::Indexed(self.index(&files)),
            HandleAction::Fence => HandleEvent::Fenced {
                external_epoch: 0,
                source_epoch: self.epoch,
                phases: phases(),
            },
        }
    }

    /// Serves a request to its end.
    fn serve(
        &self,
        cache: &mut GraphSnapshotCache,
        request: &HandleRequest,
    ) -> Result<GraphSnapshotResult, GraphError> {
        self.actions.borrow_mut().clear();
        let mut progress = begin(1);
        let mut built = false;
        loop {
            match progress {
                HandleProgress::Answered(result) => return Ok(result),
                HandleProgress::Refused(error) => return Err(error),
                HandleProgress::Waiting(state) => {
                    built = built
                        || matches!(
                            state,
                            HandleState::BuildInputs(_) | HandleState::CheckpointInputs(_)
                        );
                    let event = self.perform(state.action(), built);
                    progress = handle_step(&self.files(), request, state, event, cache);
                }
            }
        }
    }

    fn did(&self, action: &str) -> bool {
        self.actions.borrow().iter().any(|done| done == action)
    }
}

fn phases() -> GraphSnapshotPhases {
    GraphSnapshotPhases {
        semantic_millis: 1,
        shard_millis: 2,
        encode_millis: 3,
        total_millis: 6,
        cache_hit: false,
    }
}

fn request(cache: &GraphSnapshotCache, known_generation: Option<String>) -> HandleRequest {
    HandleRequest {
        params: GraphSnapshotParams { known_generation, checkpoint: None },
        revision: cache.revision(),
        producer: producer("1.0", &None),
    }
}

fn sources(shards: &[GraphSnapshotShard]) -> Vec<&str> {
    shards.iter().map(|shard| shard.source.as_str()).collect()
}

#[test]
fn the_first_request_builds_everything_and_the_next_one_is_answered_from_the_cache() {
    let world = World::new();
    let mut cache = GraphSnapshotCache::default();
    let asked = request(&cache, None);
    let first = world.serve(&mut cache, &asked).unwrap();
    assert!(world.did("IndexAll"));
    assert_eq!(first.protocol_version, PROTOCOL_VERSION);
    assert_eq!(first.schema_version, SCHEMA_VERSION);
    assert_eq!(first.producer, producer("1.0", &None));
    assert_eq!(first.universe, world.universe);
    assert_eq!(first.sequence, 1);
    assert_eq!(first.base_generation, None);
    assert_eq!(sources(&first.upserts), vec!["f.rs", "g.rs"]);
    assert_eq!(first.upserts[0].checker_digest, digest_bytes(b"one"));
    assert_eq!(first.phases, phases());
    assert_eq!(
        first.manifest.iter().map(|entry| &entry.key).collect::<Vec<_>>(),
        vec!["rust:u\0f.rs", "rust:u\0g.rs"],
    );

    let asked = request(&cache, Some(first.generation.clone()));
    let second = world.serve(&mut cache, &asked).unwrap();
    assert_eq!(*world.actions.borrow(), vec!["EnsureInputs", "ObserveUniverse"]);
    assert_eq!(second.base_generation, Some(first.generation.clone()));
    assert!(second.upserts.is_empty() && second.deletes.is_empty());
    assert!(second.phases.cache_hit);
    assert_eq!(second.sequence, 1);
    assert_eq!(second.manifest, first.manifest);
}

#[test]
fn an_edit_rebuilds_only_the_edited_file() {
    let mut world = World::new();
    let mut cache = GraphSnapshotCache::default();
    let asked = request(&cache, None);
    let first = world.serve(&mut cache, &asked).unwrap();
    cache.source_input_watcher = true;
    cache.source_input_watcher_stale = false;

    world.contents[0] = "edited";
    cache.invalidate_files(&[FileId(0)]);
    let asked = request(&cache, Some(first.generation.clone()));
    let second = world.serve(&mut cache, &asked).unwrap();
    assert!(world.did("IndexFiles([FileId(0)])") && !world.did("IndexAll"));
    assert!(world.did("ReadSourceEvents"));
    assert_eq!(second.sequence, 2);
    assert_eq!(second.base_generation, Some(first.generation.clone()));
    assert_eq!(sources(&second.upserts), vec!["f.rs"]);
    assert_eq!(second.upserts[0].checker_digest, digest_bytes(b"edited"));
    assert_eq!(second.manifest[1], first.manifest[1]);
    assert_ne!(second.generation, first.generation);
    // Someone who knows nothing gets everything.
    let asked = request(&cache, None);
    let whole = world.serve(&mut cache, &asked).unwrap();
    assert_eq!(sources(&whole.upserts), vec!["f.rs", "g.rs"]);
    assert_eq!(whole.manifest, second.manifest);
}

/// What a client holds once it followed an answer.
fn receive(held: &mut Vec<GraphSnapshotShard>, result: &GraphSnapshotResult) {
    if result.base_generation.is_none() {
        held.clear();
    }
    held.retain(|shard| !result.deletes.contains(&shard.key));
    for shard in &result.upserts {
        held.retain(|other| other.key != shard.key);
        held.push(shard.clone());
    }
    held.sort_by(|left, right| left.key.cmp(&right.key));
}

#[test]
fn clients_that_follow_answers_hold_the_shards_of_the_snapshot() {
    let mut world = World::new();
    let mut cache = GraphSnapshotCache::default();
    let mut held = Vec::new();
    let mut known = None;
    let mut follow = |world: &World, cache: &mut GraphSnapshotCache| {
        let asked = request(cache, known.clone());
        let result = world.serve(cache, &asked).unwrap();
        receive(&mut held, &result);
        known = Some(result.generation.clone());
        let cached = cache.current().unwrap();
        assert_eq!(held.len(), cached.shards.len());
        for shard in &held {
            assert_eq!(**cached.shards.get(&shard.key).unwrap(), *shard);
        }
        result.upserts.len()
    };
    assert_eq!(follow(&world, &mut cache), 2);
    assert_eq!(follow(&world, &mut cache), 0);
    world.contents[0] = "edited";
    cache.source_input_watcher = true;
    cache.source_input_watcher_stale = false;
    cache.invalidate_files(&[FileId(0)]);
    assert_eq!(follow(&world, &mut cache), 1);
    // A file that is gone takes its shard with it.
    world.functions.pop();
    world.contents.pop();
    cache.invalidate_all();
    assert_eq!(follow(&world, &mut cache), 0);
}

#[test]
fn another_interface_rebuilds_everything() {
    let mut world = World::new();
    let mut cache = GraphSnapshotCache::default();
    let asked = request(&cache, None);
    world.serve(&mut cache, &asked).unwrap();
    world.functions[0].1 = "fn f(x: u8)";
    world.contents[0] = "edited";
    cache.invalidate_files(&[FileId(0)]);
    let asked = request(&cache, None);
    world.serve(&mut cache, &asked).unwrap();
    assert!(world.did("IndexFiles([FileId(0)])") && world.did("IndexAll"));
    let cached = cache.current().unwrap();
    assert_eq!(cached.shards.len(), 2);
    assert_eq!(
        cached.source_inputs.get(&FileId(0)),
        Some(&digest_bytes(b"edited")),
    );
}

#[test]
fn another_universe_drops_the_snapshot() {
    let mut world = World::new();
    let mut cache = GraphSnapshotCache::default();
    let asked = request(&cache, None);
    let first = world.serve(&mut cache, &asked).unwrap();
    world.universe.digest = "v".to_owned();
    world.universe.target = "rust:v".to_owned();
    // What was asked for belongs to a revision that is no more.
    let asked = request(&cache, None);
    assert_eq!(
        world.serve(&mut cache, &asked).unwrap_err(),
        retry("graph snapshot was invalidated while it was being built; retry the request"),
    );
    let asked = request(&cache, Some(first.generation));
    let second = world.serve(&mut cache, &asked).unwrap();
    assert!(world.did("IndexAll"));
    assert_eq!(second.base_generation, None);
    assert_eq!(second.upserts[0].key, "rust:v\0f.rs");
}

#[test]
fn requests_are_refused_while_things_move() {
    assert!(matches!(
        begin(0),
        HandleProgress::Refused(error) if error
            == retry("graph snapshot is unavailable until the workspace has loaded; retry")
    ));
    let mut empty = World::new();
    empty.functions.clear();
    let mut cache = GraphSnapshotCache::default();
    let asked = request(&cache, None);
    assert_eq!(
        empty.serve(&mut cache, &asked).unwrap_err(),
        retry("graph snapshot is unavailable until the crate graph has loaded; retry"),
    );

    let mut moving = World::new();
    moving.later = Some(GraphSnapshotUniverse::default());
    assert_eq!(
        moving.serve(&mut cache, &asked).unwrap_err(),
        retry("graph snapshot universe moved while it was being built; retry the request"),
    );
    assert_eq!(cache.revision(), 1);
    assert!(cache.committed.is_none());

    let mut cache = GraphSnapshotCache::default();
    cache.full_rebuild = false;
    let asked = request(&cache, None);
    assert_eq!(
        World::new().serve(&mut cache, &asked).unwrap_err(),
        GraphError::Failed("incremental graph snapshot lost its universe".to_owned()),
    );
    let plan = plan_build(&cache);
    assert!(plan.dirty_files.is_empty() && plan.universe.is_none() && !plan.full_rebuild);

    let world = World::new();
    let refused = handle_step(
        &world.files(),
        &asked,
        HandleState::Inputs,
        HandleEvent::ModelValidated,
        &mut cache,
    );
    assert!(matches!(
        refused,
        HandleProgress::Refused(error) if error == GraphError::Failed(
            "graph snapshot request received an unexpected event".to_owned(),
        )
    ));
}

#[test]
fn reloading_crate_graphs_are_waited_for() {
    let world = World::new();
    let mut cache = GraphSnapshotCache::default();
    let asked = request(&cache, None);
    world.serve(&mut cache, &asked).unwrap();
    cache.invalidate_files(&[FileId(0)]);
    let asked = request(&cache, None);
    // The edited file has another interface, and then there are no files at all.
    let mut progress = begin(1);
    loop {
        match progress {
            HandleProgress::Refused(error) => {
                assert_eq!(
                    error,
                    retry(
                        "graph snapshot is unavailable while the crate graph is reloading; retry",
                    ),
                );
                break;
            }
            HandleProgress::Answered(_) => panic!("answered"),
            HandleProgress::Waiting(state) => {
                let event = match state.action() {
                    HandleAction::IndexAll | HandleAction::IndexFiles(_) => {
                        HandleEvent::Indexed(world.index(&[]))
                    }
                    action => world.perform(action, false),
                };
                progress = handle_step(&world.files(), &asked, state, event, &mut cache);
            }
        }
    }
}

fn checkpoint(world: &World, result: &GraphSnapshotResult) -> GraphSnapshotCheckpoint {
    GraphSnapshotCheckpoint {
        protocol_version: result.protocol_version,
        schema_version: result.schema_version,
        producer: result.producer.clone(),
        universe: result.universe.digest.clone(),
        generation: result.generation.clone(),
        sources: world
            .functions
            .iter()
            .zip(&world.contents)
            .map(|((name, _), content)| GraphSnapshotSource {
                source: format!("{name}.rs"),
                checker_digest: digest_bytes(content.as_bytes()),
            })
            .collect(),
        manifest: result.manifest.clone(),
        shards: result.upserts.clone(),
    }
}

#[test]
fn checkpoints_restore_a_snapshot_without_an_index() {
    let mut world = World::new();
    let mut cache = GraphSnapshotCache::default();
    let asked = request(&cache, None);
    let first = world.serve(&mut cache, &asked).unwrap();

    let mut fresh = GraphSnapshotCache::default();
    let mut asked = request(&fresh, Some(first.generation.clone()));
    asked.params.checkpoint = Some(checkpoint(&world, &first));
    let restored = world.serve(&mut fresh, &asked).unwrap();
    assert!(!world.did("IndexAll"));
    assert!(world.did("WatchSources([FileId(0), FileId(1)])"));
    assert_eq!(restored.generation, first.generation);
    assert_eq!(restored.base_generation, Some(first.generation.clone()));
    assert!(restored.upserts.is_empty());
    assert_eq!(restored.manifest, first.manifest);
    assert!(fresh.current().is_some() && !fresh.full_rebuild);

    let mut stale = GraphSnapshotCache::default();
    world.later = Some(GraphSnapshotUniverse::default());
    assert_eq!(
        world.serve(&mut stale, &asked).unwrap_err(),
        retry("graph snapshot universe moved while validating a checkpoint; retry"),
    );
    world.later = None;
    world.contents[1] = "moved";
    assert_eq!(
        world.serve(&mut stale, &asked).unwrap_err(),
        retry("persisted graph checkpoint source manifest moved; rebuild and retry"),
    );
    assert!(stale.committed.is_none());
}

#[test]
fn checkpoints_are_refused_when_sources_move_late() {
    let world = World::new();
    let mut cache = GraphSnapshotCache::default();
    let asked = request(&cache, None);
    let first = world.serve(&mut cache, &asked).unwrap();
    let mut fresh = GraphSnapshotCache::default();
    let mut asked = request(&fresh, Some(first.generation.clone()));
    asked.params.checkpoint = Some(checkpoint(&world, &first));
    let mut progress = begin(1);
    loop {
        match progress {
            HandleProgress::Answered(_) => panic!("answered"),
            HandleProgress::Refused(error) => {
                assert_eq!(
                    error,
                    retry("graph snapshot source inputs moved while validating a checkpoint; retry"),
                );
                break;
            }
            HandleProgress::Waiting(state) => {
                let event = match &state {
                    HandleState::CheckpointRecheck(_) => {
                        HandleEvent::SourcesValidated { inputs: Table::new() }
                    }
                    _ => world.perform(state.action(), false),
                };
                progress = handle_step(&world.files(), &asked, state, event, &mut fresh);
            }
        }
    }
    assert!(fresh.committed.is_none());
}

fn root(name: &str) -> Vec<Component> {
    vec![Component::RootDir, Component::Normal(name.as_bytes().to_vec())]
}

fn captured(digest: &str, watched: &str) -> EnsureEvent {
    let mut symlink_watch_roots = Table::new();
    symlink_watch_roots.insert(root(watched), true);
    EnsureEvent::Captured(CaptureOutcome::Captured(ExternalInputCapture {
        digest: digest.to_owned(),
        symlink_watch_roots,
    }))
}

fn inputs() -> Vec<ExternalGraphInput> {
    vec![ExternalGraphInput {
        identity: "rustc".to_owned(),
        root: root("rustc"),
        root_bytes: b"/rustc".to_vec(),
        optional: false,
    }]
}

fn start(fingerprint: &str) -> EnsureState {
    EnsureState::Begin { fingerprint: fingerprint.to_owned() }
}

/// Follows the events; what came of the last one is returned.
fn ensure(
    cache: &mut GraphSnapshotCache,
    state: EnsureState,
    events: Vec<EnsureEvent>,
) -> EnsureProgress {
    let mut progress = EnsureProgress::Waiting(state);
    for event in events {
        progress = match progress {
            EnsureProgress::Waiting(state) => ensure_external_inputs(cache, state, event),
            _ => panic!("an event came too late"),
        };
    }
    progress
}

fn refusal(progress: EnsureProgress) -> GraphError {
    match progress {
        EnsureProgress::Refused(error) => error,
        _ => panic!("not refused"),
    }
}

#[test]
fn external_inputs_are_captured_twice_and_kept() {
    let mut cache = GraphSnapshotCache::default();
    let settled = ensure(
        &mut cache,
        start("a"),
        vec![
            EnsureEvent::Fenced { epoch: 0 },
            EnsureEvent::Watched { inputs: inputs() },
            captured("1", "x"),
            EnsureEvent::Rewatched,
            captured("2", "x"),
            EnsureEvent::Fenced { epoch: 0 },
        ],
    );
    assert!(matches!(settled, EnsureProgress::Settled));
    assert_eq!(cache.external_input_digest, Ok("2".to_owned()));
    assert!(!cache.external_inputs_dirty && !cache.external_input_watcher_stale);
    assert!(cache.external_input_watcher);
    assert_eq!(cache.external_inputs, "a");
    assert_eq!(cache.external_input_roots, inputs());
    // Nothing moved: nothing is captured again.
    let ready = ensure(&mut cache, start("a"), vec![EnsureEvent::Fenced { epoch: 0 }]);
    assert!(matches!(ready, EnsureProgress::Ready));
    // Another configuration has other inputs.
    let watch = ensure(&mut cache, start("b"), vec![EnsureEvent::Fenced { epoch: 0 }]);
    assert!(matches!(watch, EnsureProgress::Waiting(EnsureState::Watch { .. })));
    // An event makes the watcher stale, and the inputs with it.
    let watch = ensure(&mut cache, start("a"), vec![EnsureEvent::Fenced { epoch: 1 }]);
    assert!(matches!(watch, EnsureProgress::Waiting(EnsureState::Watch { .. })));
    assert!(cache.external_inputs_dirty);
}

#[test]
fn external_inputs_that_move_are_refused() {
    let before = || {
        vec![
            EnsureEvent::Fenced { epoch: 0 },
            EnsureEvent::Watched { inputs: inputs() },
            captured("1", "x"),
            EnsureEvent::Rewatched,
        ]
    };
    let with = |more: Vec<EnsureEvent>| {
        let mut events = before();
        events.extend(more);
        events
    };
    let mut cache = GraphSnapshotCache::default();
    let links = ensure(&mut cache, start("a"), with(vec![captured("1", "y")]));
    assert_eq!(
        refusal(links),
        retry(
            "external graph-input symlinks moved while their watcher was being fenced; \
             retry the request",
        ),
    );
    let mut cache = GraphSnapshotCache::default();
    let moved = ensure(
        &mut cache,
        start("a"),
        with(vec![captured("1", "x"), EnsureEvent::Fenced { epoch: 1 }]),
    );
    assert_eq!(
        refusal(moved),
        retry("external graph inputs moved while they were being captured; retry the request"),
    );
    assert!(cache.external_inputs_dirty);
    let mut cache = GraphSnapshotCache::default();
    let failed = ensure(
        &mut cache,
        start("a"),
        with(vec![
            EnsureEvent::Captured(CaptureOutcome::Failed("denied".to_owned())),
            EnsureEvent::Fenced { epoch: 0 },
        ]),
    );
    assert_eq!(
        refusal(failed),
        retry("external graph inputs could not be captured: denied; retry the request"),
    );
    assert_eq!(cache.external_input_digest, Err("denied".to_owned()));
    assert!(cache.external_inputs_dirty);
    // The failure is known once the inputs are no longer to be captured.
    cache.external_inputs_dirty = false;
    let known = ensure(&mut cache, start("a"), vec![EnsureEvent::Fenced { epoch: 0 }]);
    assert_eq!(
        refusal(known),
        retry("external graph inputs are unavailable: denied; retry the request"),
    );
    let wrong = ensure(&mut cache, start("a"), vec![EnsureEvent::Rewatched]);
    assert_eq!(
        refusal(wrong),
        GraphError::Failed("external graph inputs received an unexpected event".to_owned()),
    );
}

#[test]
fn configurations_have_fingerprints() {
    assert_eq!(
        input_fingerprint(&vec!["w\"".to_owned(), "v".to_owned()], &None),
        digest_bytes(b"{\"procMacroServer\":null,\"workspaces\":[\"w\\\"\",\"v\"]}"),
    );
    assert_eq!(
        input_fingerprint(&Vec::new(), &Some("/srv".to_owned())),
        digest_bytes(b"{\"procMacroServer\":\"/srv\",\"workspaces\":[]}"),
    );
}

/// Whether an answer is in order with itself and with what was asked.
fn check_answer(result: &GraphSnapshotResult, known: &Option<String>) {
    assert_eq!((result.protocol_version, result.schema_version), (1, 1));
    assert!(result.manifest.windows(2).all(|pair| pair[0].key < pair[1].key));
    assert_eq!(result.generation, snapshot_generation(&result.universe.digest, &result.manifest));
    for shard in &result.upserts {
        assert!(
            result
                .manifest
                .iter()
                .any(|entry| entry.key == shard.key && entry.digest == shard.digest)
        );
    }
    for key in &result.deletes {
        assert!(result.manifest.iter().all(|entry| entry.key != *key));
    }
    assert!(result.base_generation.is_none() || result.base_generation == *known);
}

#[test]
fn deltas_lead_from_one_manifest_to_the_next_also_when_they_are_asked_for_again() {
    let mut world = World::new();
    let mut cache = GraphSnapshotCache::default();
    let asked = request(&cache, None);
    let first = world.serve(&mut cache, &asked).unwrap();
    check_answer(&first, &None);
    world.contents[0] = "edited";
    world.functions.pop();
    world.contents.pop();
    cache.invalidate_all();
    let known = Some(first.generation.clone());
    let lead = |result: &GraphSnapshotResult| {
        let mut entries: Vec<(String, String)> = first
            .manifest
            .iter()
            .map(|entry| (entry.key.clone(), entry.digest.clone()))
            .filter(|entry| !result.deletes.contains(&entry.0))
            .filter(|entry| result.upserts.iter().all(|shard| shard.key != entry.0))
            .collect();
        for shard in &result.upserts {
            entries.push((shard.key.clone(), shard.digest.clone()));
        }
        entries.sort();
        entries
    };
    for cache_hit in [false, true] {
        let asked = request(&cache, known.clone());
        let result = world.serve(&mut cache, &asked).unwrap();
        check_answer(&result, &known);
        assert_eq!(result.phases.cache_hit, cache_hit);
        assert_eq!(result.base_generation, known);
        assert_eq!(sources(&result.upserts), vec!["f.rs"]);
        assert_eq!(result.deletes, vec!["rust:u\0g.rs".to_owned()]);
        let listed: Vec<(String, String)> = result
            .manifest
            .iter()
            .map(|entry| (entry.key.clone(), entry.digest.clone()))
            .collect();
        assert_eq!(lead(&result), listed);
    }
    // Who asks with the current generation has everything already.
    let current = Some(cache.current().unwrap().generation.clone());
    let asked = request(&cache, current.clone());
    let same = world.serve(&mut cache, &asked).unwrap();
    check_answer(&same, &current);
    assert_eq!(same.base_generation, current);
    assert!(same.upserts.is_empty() && same.deletes.is_empty());
}
