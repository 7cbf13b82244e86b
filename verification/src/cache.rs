//! The resident cache: what was committed last, and what moved since.

use std::sync::Arc;

use rustc_hash::FxHashSet;
use vstd::prelude::*;
use vstd::string::*;

use crate::digest::{digest_bytes, digest_of};
use crate::error::{GraphError, GraphErrorModel, retry_error};
use crate::external::{ExternalGraphInput, ExternalGraphInputModel};
use crate::files::FileId;
use crate::fx::{set_clear, set_insert, set_items, set_new};
use crate::plain::Plain;
use crate::snapshot::{
    GraphSnapshotManifestEntry, GraphSnapshotManifestEntryModel, GraphSnapshotPhases,
    GraphSnapshotPhasesModel, GraphSnapshotProducer, GraphSnapshotProducerModel,
    GraphSnapshotResult, GraphSnapshotResultModel, GraphSnapshotShard, GraphSnapshotShardModel,
    GraphSnapshotUniverse, GraphSnapshotUniverseModel, PROTOCOL_VERSION, SCHEMA_VERSION, no_phases,
};
use crate::table::{Table, ordered, ordered_values};
use crate::text::is_text;

verus! {

/// A snapshot that was committed.
#[derive(Debug)]
pub struct CachedSnapshot {
    /// The revision of the workspace that the snapshot shows.
    pub revision: u64,
    pub producer: GraphSnapshotProducer,
    pub universe: GraphSnapshotUniverse,
    pub sequence: u64,
    pub generation: String,
    pub manifest: Vec<GraphSnapshotManifestEntry>,
    pub phases: GraphSnapshotPhases,
    /// The shards by key.
    pub shards: Table<String, Arc<GraphSnapshotShard>>,
    /// The interface fingerprint of each source file.
    pub interface_fingerprints: Table<String, String>,
    /// The digest of each source file.
    pub source_inputs: Table<FileId, String>,
    /// The source file that owns each node.
    pub node_owners: Table<String, String>,
    /// The generation that the delta starts from.
    pub delta_base: Option<String>,
    pub delta_upserts: Vec<Arc<GraphSnapshotShard>>,
    pub delta_deletes: Vec<String>,
}

/// The content of a [`CachedSnapshot`].
pub struct CachedSnapshotModel {
    pub revision: u64,
    pub producer: GraphSnapshotProducerModel,
    pub universe: GraphSnapshotUniverseModel,
    pub sequence: u64,
    pub generation: Seq<char>,
    pub manifest: Seq<GraphSnapshotManifestEntryModel>,
    pub phases: GraphSnapshotPhasesModel,
    pub shards: Map<Seq<char>, GraphSnapshotShardModel>,
    pub interface_fingerprints: Map<Seq<char>, Seq<char>>,
    pub source_inputs: Map<FileId, Seq<char>>,
    pub node_owners: Map<Seq<char>, Seq<char>>,
    pub delta_base: Option<Seq<char>>,
    pub delta_upserts: Seq<GraphSnapshotShardModel>,
    pub delta_deletes: Seq<Seq<char>>,
}

impl DeepView for CachedSnapshot {
    type V = CachedSnapshotModel;

    open spec fn deep_view(&self) -> CachedSnapshotModel {
        CachedSnapshotModel {
            revision: self.revision.deep_view(),
            producer: self.producer.deep_view(),
            universe: self.universe.deep_view(),
            sequence: self.sequence.deep_view(),
            generation: self.generation.deep_view(),
            manifest: self.manifest.deep_view(),
            phases: self.phases.deep_view(),
            shards: self.shards.deep_view(),
            interface_fingerprints: self.interface_fingerprints.deep_view(),
            source_inputs: self.source_inputs.deep_view(),
            node_owners: self.node_owners.deep_view(),
            delta_base: self.delta_base.deep_view(),
            delta_upserts: self.delta_upserts.deep_view(),
            delta_deletes: self.delta_deletes.deep_view(),
        }
    }
}

impl Plain for CachedSnapshot {
    fn duplicate(&self) -> (copy: Self) {
        CachedSnapshot {
            revision: self.revision.duplicate(),
            producer: self.producer.duplicate(),
            universe: self.universe.duplicate(),
            sequence: self.sequence.duplicate(),
            generation: self.generation.duplicate(),
            manifest: self.manifest.duplicate(),
            phases: self.phases.duplicate(),
            shards: self.shards.duplicate(),
            interface_fingerprints: self.interface_fingerprints.duplicate(),
            source_inputs: self.source_inputs.duplicate(),
            node_owners: self.node_owners.duplicate(),
            delta_base: self.delta_base.duplicate(),
            delta_upserts: self.delta_upserts.duplicate(),
            delta_deletes: self.delta_deletes.duplicate(),
        }
    }

    fn same(&self, other: &Self) -> (equal: bool) {
        self.revision.same(&other.revision)
            && self.producer.same(&other.producer)
            && self.universe.same(&other.universe)
            && self.sequence.same(&other.sequence)
            && self.generation.same(&other.generation)
            && self.manifest.same(&other.manifest)
            && self.phases.same(&other.phases)
            && self.shards.same(&other.shards)
            && self.interface_fingerprints.same(&other.interface_fingerprints)
            && self.source_inputs.same(&other.source_inputs)
            && self.node_owners.same(&other.node_owners)
            && self.delta_base.same(&other.delta_base)
            && self.delta_upserts.same(&other.delta_upserts)
            && self.delta_deletes.same(&other.delta_deletes)
    }
}

/// What to answer a client with.
#[derive(Debug)]
pub struct SnapshotResponsePlan {
    pub producer: GraphSnapshotProducer,
    pub universe: GraphSnapshotUniverse,
    pub sequence: u64,
    pub generation: String,
    pub base_generation: Option<String>,
    pub upserts: Vec<Arc<GraphSnapshotShard>>,
    pub deletes: Vec<String>,
    pub manifest: Vec<GraphSnapshotManifestEntry>,
    pub phases: GraphSnapshotPhases,
}

/// The content of a [`SnapshotResponsePlan`].
pub struct SnapshotResponsePlanModel {
    pub producer: GraphSnapshotProducerModel,
    pub universe: GraphSnapshotUniverseModel,
    pub sequence: u64,
    pub generation: Seq<char>,
    pub base_generation: Option<Seq<char>>,
    pub upserts: Seq<GraphSnapshotShardModel>,
    pub deletes: Seq<Seq<char>>,
    pub manifest: Seq<GraphSnapshotManifestEntryModel>,
    pub phases: GraphSnapshotPhasesModel,
}

impl DeepView for SnapshotResponsePlan {
    type V = SnapshotResponsePlanModel;

    open spec fn deep_view(&self) -> SnapshotResponsePlanModel {
        SnapshotResponsePlanModel {
            producer: self.producer.deep_view(),
            universe: self.universe.deep_view(),
            sequence: self.sequence.deep_view(),
            generation: self.generation.deep_view(),
            base_generation: self.base_generation.deep_view(),
            upserts: self.upserts.deep_view(),
            deletes: self.deletes.deep_view(),
            manifest: self.manifest.deep_view(),
            phases: self.phases.deep_view(),
        }
    }
}

impl Plain for SnapshotResponsePlan {
    fn duplicate(&self) -> (copy: Self) {
        SnapshotResponsePlan {
            producer: self.producer.duplicate(),
            universe: self.universe.duplicate(),
            sequence: self.sequence.duplicate(),
            generation: self.generation.duplicate(),
            base_generation: self.base_generation.duplicate(),
            upserts: self.upserts.duplicate(),
            deletes: self.deletes.duplicate(),
            manifest: self.manifest.duplicate(),
            phases: self.phases.duplicate(),
        }
    }

    fn same(&self, other: &Self) -> (equal: bool) {
        self.producer.same(&other.producer)
            && self.universe.same(&other.universe)
            && self.sequence.same(&other.sequence)
            && self.generation.same(&other.generation)
            && self.base_generation.same(&other.base_generation)
            && self.upserts.same(&other.upserts)
            && self.deletes.same(&other.deletes)
            && self.manifest.same(&other.manifest)
            && self.phases.same(&other.phases)
    }
}

/// The resident cache.
#[derive(Debug)]
pub struct GraphSnapshotCache {
    /// Moves with every change of the workspace.
    pub revision: u64,
    /// The number of the last snapshot.
    pub sequence: u64,
    pub committed: Option<CachedSnapshot>,
    /// The source files that changed since the last snapshot.
    pub dirty_files: FxHashSet<u32>,
    /// Whether the next snapshot is built from all source files.
    pub full_rebuild: bool,
    /// The fingerprint of the configuration that the external inputs follow from.
    pub external_inputs: String,
    pub external_input_roots: Vec<ExternalGraphInput>,
    /// The digest of the external inputs, or why there is none.
    pub external_input_digest: Result<String, String>,
    pub external_input_revision: u64,
    pub external_inputs_dirty: bool,
    /// Whether the external inputs are being watched.
    pub external_input_watcher: bool,
    /// The last event on external inputs that was taken into account.
    pub external_input_event_epoch: u64,
    pub external_input_watcher_stale: bool,
    /// Whether the source files are being watched.
    pub source_input_watcher: bool,
    /// The last event on source files that was taken into account.
    pub source_input_event_epoch: u64,
    pub source_input_watcher_stale: bool,
}

/// The content of a [`GraphSnapshotCache`].
pub struct GraphSnapshotCacheModel {
    pub revision: u64,
    pub sequence: u64,
    pub committed: Option<CachedSnapshotModel>,
    pub dirty_files: Set<u32>,
    pub full_rebuild: bool,
    pub external_inputs: Seq<char>,
    pub external_input_roots: Seq<ExternalGraphInputModel>,
    pub external_input_digest: Result<Seq<char>, Seq<char>>,
    pub external_input_revision: u64,
    pub external_inputs_dirty: bool,
    pub external_input_watcher: bool,
    pub external_input_event_epoch: u64,
    pub external_input_watcher_stale: bool,
    pub source_input_watcher: bool,
    pub source_input_event_epoch: u64,
    pub source_input_watcher_stale: bool,
}

/// The content of a result with texts.
pub open spec fn text_result(result: Result<String, String>) -> Result<Seq<char>, Seq<char>> {
    match result {
        Ok(text) => Ok(text@),
        Err(text) => Err(text@),
    }
}

impl DeepView for GraphSnapshotCache {
    type V = GraphSnapshotCacheModel;

    open spec fn deep_view(&self) -> GraphSnapshotCacheModel {
        GraphSnapshotCacheModel {
            revision: self.revision,
            sequence: self.sequence,
            committed: self.committed.deep_view(),
            dirty_files: self.dirty_files@,
            full_rebuild: self.full_rebuild,
            external_inputs: self.external_inputs.deep_view(),
            external_input_roots: self.external_input_roots.deep_view(),
            external_input_digest: text_result(self.external_input_digest),
            external_input_revision: self.external_input_revision,
            external_inputs_dirty: self.external_inputs_dirty,
            external_input_watcher: self.external_input_watcher,
            external_input_event_epoch: self.external_input_event_epoch,
            external_input_watcher_stale: self.external_input_watcher_stale,
            source_input_watcher: self.source_input_watcher,
            source_input_event_epoch: self.source_input_event_epoch,
            source_input_watcher_stale: self.source_input_watcher_stale,
        }
    }
}

/// The number after another one, with zero after the last.
pub open spec fn next_number(value: u64) -> u64 {
    if value == u64::MAX {
        0
    } else {
        (value + 1) as u64
    }
}

/// The number after another one, with zero after the last.
pub fn wrapping_next(value: u64) -> (next: u64)
    ensures
        next == next_number(value),
{
    value.wrapping_add(1)
}

/// A cache in which nothing was committed and everything is to be built.
pub open spec fn empty_cache() -> GraphSnapshotCacheModel {
    GraphSnapshotCacheModel {
        revision: 0,
        sequence: 0,
        committed: None,
        dirty_files: Set::empty(),
        full_rebuild: true,
        external_inputs: Seq::empty(),
        external_input_roots: Seq::empty(),
        external_input_digest: Ok(digest_of(Seq::empty())),
        external_input_revision: 0,
        external_inputs_dirty: true,
        external_input_watcher: false,
        external_input_event_epoch: 0,
        external_input_watcher_stale: true,
        source_input_watcher: false,
        source_input_event_epoch: 0,
        source_input_watcher_stale: true,
    }
}

/// Everything is to be built anew; what was committed stays a base for deltas.
pub open spec fn all_invalidated(cache: GraphSnapshotCacheModel) -> GraphSnapshotCacheModel {
    GraphSnapshotCacheModel {
        revision: next_number(cache.revision),
        dirty_files: Set::empty(),
        full_rebuild: true,
        source_input_watcher_stale: true,
        ..cache
    }
}

/// Everything is to be built anew, and what was committed is dropped.
pub open spec fn universe_invalidated(cache: GraphSnapshotCacheModel) -> GraphSnapshotCacheModel {
    GraphSnapshotCacheModel { committed: None, ..all_invalidated(cache) }
}

/// The numbers of files.
pub open spec fn file_numbers(files: Seq<FileId>) -> Set<u32> {
    Set::new(|number: u32| files.contains(FileId(number)))
}

/// Some files changed: they are to be built anew, along with what is to be built already.
pub open spec fn files_invalidated(
    cache: GraphSnapshotCacheModel,
    files: Seq<FileId>,
) -> GraphSnapshotCacheModel {
    let moved = GraphSnapshotCacheModel { revision: next_number(cache.revision), ..cache };
    if cache.committed is None {
        GraphSnapshotCacheModel { full_rebuild: true, ..moved }
    } else if cache.full_rebuild {
        moved
    } else {
        GraphSnapshotCacheModel {
            dirty_files: cache.dirty_files.union(file_numbers(files)),
            ..moved
        }
    }
}

/// The committed snapshot, if it shows the current revision.
pub open spec fn current_of(cache: GraphSnapshotCacheModel) -> Option<CachedSnapshotModel> {
    match cache.committed {
        Some(cached) => if cached.revision == cache.revision {
            Some(cached)
        } else {
            None
        },
        None => None,
    }
}

impl Default for GraphSnapshotCache {
    fn default() -> (cache: Self)
        ensures
            cache.deep_view() == empty_cache(),
    {
        let nothing: Vec<u8> = Vec::new();
        let cache = GraphSnapshotCache {
            revision: 0,
            sequence: 0,
            committed: None,
            dirty_files: set_new(),
            full_rebuild: true,
            external_inputs: String::new(),
            external_input_roots: Vec::new(),
            external_input_digest: Ok(digest_bytes(nothing.as_slice())),
            external_input_revision: 0,
            external_inputs_dirty: true,
            external_input_watcher: false,
            external_input_event_epoch: 0,
            external_input_watcher_stale: true,
            source_input_watcher: false,
            source_input_event_epoch: 0,
            source_input_watcher_stale: true,
        };
        proof {
            assert(nothing@ =~= Seq::<u8>::empty());
            assert(cache.external_inputs@ =~= Seq::<char>::empty());
            assert(cache.external_input_roots.deep_view() =~= Seq::empty());
        }
        cache
    }
}

impl GraphSnapshotCache {
    /// The revision of the workspace.
    pub fn revision(&self) -> (revision: u64)
        ensures
            revision == self.deep_view().revision,
    {
        self.revision
    }

    /// Has everything built anew; what was committed stays a base for deltas.
    pub fn invalidate_all(&mut self)
        ensures
            final(self).deep_view() == all_invalidated(old(self).deep_view()),
    {
        self.revision = wrapping_next(self.revision);
        set_clear(&mut self.dirty_files);
        self.full_rebuild = true;
        self.source_input_watcher_stale = true;
    }

    /// Has everything built anew, and drops what was committed.
    pub fn invalidate_universe(&mut self)
        ensures
            final(self).deep_view() == universe_invalidated(old(self).deep_view()),
    {
        self.invalidate_all();
        self.committed = None;
    }

    /// Has some files built anew, along with what is to be built already.
    pub fn invalidate_files(&mut self, files: &[FileId])
        ensures
            final(self).deep_view() == files_invalidated(old(self).deep_view(), files@),
    {
        self.revision = wrapping_next(self.revision);
        if self.committed.is_none() {
            self.full_rebuild = true;
            return;
        }
        if !self.full_rebuild {
            let ghost start = self.dirty_files@;
            let ghost cache = *self;
            let mut index: usize = 0;
            assert(self.dirty_files@ =~= start.union(file_numbers(files@.take(0))));
            while index < files.len()
                invariant
                    index <= files.len(),
                    self.dirty_files@ == start.union(file_numbers(files@.take(index as int))),
                    *self == (GraphSnapshotCache { dirty_files: self.dirty_files, ..cache }),
                decreases files.len() - index,
            {
                let _ = set_insert(&mut self.dirty_files, files[index].0);
                proof {
                    let before = files@.take(index as int);
                    let after = files@.take(index + 1);
                    assert(after =~= before.push(files@[index as int]));
                    assert forall|number: u32| #[trigger]
                        file_numbers(after).contains(number) <==> file_numbers(before).contains(
                            number,
                        ) || number == files@[index as int].0 by {
                        if before.contains(FileId(number)) {
                            let i = choose|i: int| 0 <= i < before.len() && before[i] == FileId(number);
                            assert(after[i] == FileId(number));
                        }
                        if number == files@[index as int].0 {
                            assert(after[index as int] == FileId(number));
                        }
                        if after.contains(FileId(number)) {
                            let i = choose|i: int| 0 <= i < after.len() && after[i] == FileId(number);
                            if i < index {
                                assert(before[i] == FileId(number));
                            }
                        }
                    }
                    assert(self.dirty_files@ =~= start.union(file_numbers(after)));
                }
                index += 1;
            }
            assert(files@.take(index as int) =~= files@);
        }
    }

    /// The committed snapshot, if it shows the current revision.
    pub fn current(&self) -> (current: Option<&CachedSnapshot>)
        ensures
            match current {
                Some(cached) => current_of(self.deep_view()) == Some(cached.deep_view()),
                None => current_of(self.deep_view()) is None,
            },
    {
        match &self.committed {
            Some(cached) => if cached.revision == self.revision {
                Some(cached)
            } else {
                None
            },
            None => None,
        }
    }

    /// The files that changed since the last snapshot, in no particular order.
    pub fn dirty_list(&self) -> (files: Vec<FileId>)
        ensures
            file_numbers(files@) == self.deep_view().dirty_files,
            files@.no_duplicates(),
    {
        let numbers = set_items(&self.dirty_files);
        let mut files: Vec<FileId> = Vec::new();
        let mut index: usize = 0;
        while index < numbers.len()
            invariant
                index <= numbers.len(),
                files.len() == index,
                forall|i: int| 0 <= i < index ==> #[trigger] files@[i] == FileId(numbers@[i]),
            decreases numbers.len() - index,
        {
            files.push(FileId(numbers[index]));
            index += 1;
        }
        proof {
            assert forall|number: u32| #[trigger]
                file_numbers(files@).contains(number) <==> self.dirty_files@.contains(number) by {
                assert(numbers@.to_set().contains(number) <==> numbers@.contains(number));
                if numbers@.contains(number) {
                    let i = choose|i: int| 0 <= i < numbers.len() && numbers@[i] == number;
                    assert(files@[i] == FileId(number));
                }
                if files@.contains(FileId(number)) {
                    let i = choose|i: int| 0 <= i < files.len() && files@[i] == FileId(number);
                    assert(numbers@[i] == number);
                }
            }
            assert(file_numbers(files@) =~= self.dirty_files@);
        }
        files
    }
}

/// Takes events on external inputs into account: they, and everything that was built, are stale.
pub open spec fn external_events_drained(
    cache: GraphSnapshotCacheModel,
    event_epoch: u64,
) -> GraphSnapshotCacheModel {
    if cache.external_input_event_epoch == event_epoch {
        cache
    } else {
        all_invalidated(
            GraphSnapshotCacheModel {
                external_input_event_epoch: event_epoch,
                external_input_revision: next_number(cache.external_input_revision),
                external_inputs_dirty: true,
                external_input_watcher_stale: true,
                ..cache
            },
        )
    }
}

/// Takes events on external inputs into account.
pub fn drain_external_input_events_at(cache: &mut GraphSnapshotCache, event_epoch: u64)
    ensures
        final(cache).deep_view() == external_events_drained(old(cache).deep_view(), event_epoch),
{
    if cache.external_input_event_epoch != event_epoch {
        cache.external_input_event_epoch = event_epoch;
        cache.external_input_revision = wrapping_next(cache.external_input_revision);
        cache.external_inputs_dirty = true;
        cache.external_input_watcher_stale = true;
        cache.invalidate_all();
    }
}

/// Takes events on source files into account: everything that was built is stale, unless the
/// workspace moved beyond the committed snapshot already.
pub open spec fn source_events_drained(
    cache: GraphSnapshotCacheModel,
    event_epoch: u64,
) -> GraphSnapshotCacheModel {
    if cache.source_input_event_epoch == event_epoch {
        cache
    } else {
        let seen = GraphSnapshotCacheModel { source_input_event_epoch: event_epoch, ..cache };
        if cache.committed is Some && cache.committed->0.revision != cache.revision {
            seen
        } else {
            all_invalidated(seen)
        }
    }
}

/// Takes events on source files into account.
pub fn drain_source_input_events_at(cache: &mut GraphSnapshotCache, event_epoch: u64)
    ensures
        final(cache).deep_view() == source_events_drained(old(cache).deep_view(), event_epoch),
{
    if cache.source_input_event_epoch == event_epoch {
        return;
    }
    cache.source_input_event_epoch = event_epoch;
    let revision_already_moved = match &cache.committed {
        Some(cached) => cached.revision != cache.revision,
        None => false,
    };
    if !revision_already_moved {
        cache.invalidate_all();
    }
}

/// Fails unless the cache is at the expected revision.
pub fn ensure_cache_revision(cache: &GraphSnapshotCache, expected: u64, message: &str) -> (result:
    Result<(), GraphError>)
    ensures
        match result {
            Ok(_) => cache.deep_view().revision == expected,
            Err(error) => cache.deep_view().revision != expected && error.deep_view()
                == GraphErrorModel::Retry(message@),
        },
{
    if cache.revision == expected {
        Ok(())
    } else {
        Err(retry_error(message))
    }
}

/// What a client that knows a generation is to be answered: nothing new where it knows the
/// current one, the delta where it knows the one before, and all shards where it knows another.
pub open spec fn planned(
    cached: CachedSnapshotModel,
    known: Option<Seq<char>>,
    cache_hit: bool,
) -> SnapshotResponsePlanModel {
    let (base_generation, upserts, deletes) = if known == Some(cached.generation) {
        (Some(cached.generation), Seq::empty(), Seq::empty())
    } else if known == cached.delta_base {
        (cached.delta_base, cached.delta_upserts, cached.delta_deletes)
    } else {
        (None, ordered_values::<String, GraphSnapshotShardModel>(cached.shards), Seq::empty())
    };
    SnapshotResponsePlanModel {
        producer: cached.producer,
        universe: cached.universe,
        sequence: cached.sequence,
        generation: cached.generation,
        base_generation,
        upserts,
        deletes,
        manifest: cached.manifest,
        phases: if cache_hit {
            GraphSnapshotPhasesModel { cache_hit: true, ..no_phases() }
        } else {
            cached.phases
        },
    }
}

/// The shards of a table, in key order.
fn shard_list(shards: &Table<String, Arc<GraphSnapshotShard>>) -> (list: Vec<Arc<GraphSnapshotShard>>)
    ensures
        list.deep_view() == ordered_values::<String, GraphSnapshotShardModel>(shards.deep_view()),
{
    let ghost listing = ordered::<String, GraphSnapshotShardModel>(shards.deep_view());
    let count = shards.len();
    let mut list: Vec<Arc<GraphSnapshotShard>> = Vec::new();
    let mut index: usize = 0;
    while index < count
        invariant
            index <= count,
            count == listing.len(),
            listing == ordered::<String, GraphSnapshotShardModel>(shards.deep_view()),
            list.len() == index,
            forall|i: int| 0 <= i < index ==> (#[trigger] list@[i]).deep_view() == listing[i].1,
        decreases count - index,
    {
        list.push(shards.value_at(index).duplicate());
        index += 1;
    }
    assert(list.deep_view() =~= ordered_values::<String, GraphSnapshotShardModel>(
        shards.deep_view(),
    ));
    list
}

/// The phases of an answer that was at hand.
pub fn hit_phases() -> (phases: GraphSnapshotPhases)
    ensures
        phases.deep_view() == (GraphSnapshotPhasesModel { cache_hit: true, ..no_phases() }),
{
    GraphSnapshotPhases {
        semantic_millis: 0,
        shard_millis: 0,
        encode_millis: 0,
        total_millis: 0,
        cache_hit: true,
    }
}

/// Plans the answer to a client that knows a generation.
pub fn response_plan(
    cached: &CachedSnapshot,
    known_generation: &Option<String>,
    cache_hit: bool,
) -> (plan: SnapshotResponsePlan)
    ensures
        plan.deep_view() == planned(cached.deep_view(), known_generation.deep_view(), cache_hit),
{
    let base_generation: Option<String>;
    let upserts: Vec<Arc<GraphSnapshotShard>>;
    let deletes: Vec<String>;
    if is_text(known_generation, cached.generation.as_str()) {
        base_generation = Some(cached.generation.clone());
        upserts = Vec::new();
        deletes = Vec::new();
    } else if known_generation.same(&cached.delta_base) {
        base_generation = cached.delta_base.duplicate();
        upserts = cached.delta_upserts.duplicate();
        deletes = cached.delta_deletes.duplicate();
    } else {
        base_generation = None;
        upserts = shard_list(&cached.shards);
        deletes = Vec::new();
    }
    let plan = SnapshotResponsePlan {
        producer: cached.producer.duplicate(),
        universe: cached.universe.duplicate(),
        sequence: cached.sequence,
        generation: cached.generation.clone(),
        base_generation,
        upserts,
        deletes,
        manifest: cached.manifest.duplicate(),
        phases: if cache_hit {
            hit_phases()
        } else {
            cached.phases.duplicate()
        },
    };
    proof {
        let expected = planned(cached.deep_view(), known_generation.deep_view(), cache_hit);
        assert(plan.deep_view().upserts =~= expected.upserts);
        assert(plan.deep_view().deletes =~= expected.deletes);
    }
    plan
}

/// The answer that carries out a plan.
pub open spec fn answer(plan: SnapshotResponsePlanModel) -> GraphSnapshotResultModel {
    GraphSnapshotResultModel {
        protocol_version: PROTOCOL_VERSION,
        schema_version: SCHEMA_VERSION,
        producer: plan.producer,
        universe: plan.universe,
        sequence: plan.sequence,
        generation: plan.generation,
        base_generation: plan.base_generation,
        upserts: plan.upserts,
        deletes: plan.deletes,
        manifest: plan.manifest,
        phases: plan.phases,
    }
}

impl SnapshotResponsePlan {
    /// Carries out the plan.
    pub fn into_result(self) -> (result: GraphSnapshotResult)
        ensures
            result.deep_view() == answer(self.deep_view()),
    {
        let mut upserts: Vec<GraphSnapshotShard> = Vec::new();
        let mut index: usize = 0;
        while index < self.upserts.len()
            invariant
                index <= self.upserts.len(),
                upserts.len() == index,
                forall|i: int|
                    0 <= i < index ==> (#[trigger] upserts@[i]).deep_view()
                        == self.upserts@[i].deep_view(),
            decreases self.upserts.len() - index,
        {
            upserts.push((*self.upserts[index]).duplicate());
            index += 1;
        }
        assert(upserts.deep_view() =~= self.upserts.deep_view());
        GraphSnapshotResult {
            protocol_version: PROTOCOL_VERSION,
            schema_version: SCHEMA_VERSION,
            producer: self.producer,
            universe: self.universe,
            sequence: self.sequence,
            generation: self.generation,
            base_generation: self.base_generation,
            upserts,
            deletes: self.deletes,
            manifest: self.manifest,
            phases: self.phases,
        }
    }
}

/// Answers a client that knows a generation.
pub fn response_for(
    cached: &CachedSnapshot,
    known_generation: &Option<String>,
    cache_hit: bool,
) -> (result: GraphSnapshotResult)
    ensures
        result.deep_view() == answer(
            planned(cached.deep_view(), known_generation.deep_view(), cache_hit),
        ),
{
    response_plan(cached, known_generation, cache_hit).into_result()
}

/// The producer of snapshots, of which the version and the commit are known.
pub open spec fn producer_of(version: Seq<char>, commit: Option<Seq<char>>) -> GraphSnapshotProducerModel {
    GraphSnapshotProducerModel {
        name: "samchon-rust-analyzer"@,
        version,
        commit: match commit {
            Some(hash) => hash,
            None => "development"@,
        },
    }
}

/// The producer of snapshots.
pub fn producer(version: &str, commit: &Option<String>) -> (producer: GraphSnapshotProducer)
    ensures
        producer.deep_view() == producer_of(version@, commit.deep_view()),
{
    GraphSnapshotProducer {
        name: "samchon-rust-analyzer".to_owned(),
        version: version.to_owned(),
        commit: match commit {
            Some(hash) => hash.clone(),
            None => "development".to_owned(),
        },
    }
}

} // verus!
