//! The parts of a graph snapshot as they are exchanged with clients.

use vstd::prelude::*;

use crate::order::{Key, Place};
use crate::plain::Plain;
use crate::sorting::{Ranked, Repeatable};

verus! {

/// The version of the protocol that results speak.
pub const PROTOCOL_VERSION: u32 = 1;

/// The version of the schema of nodes, edges and shards.
pub const SCHEMA_VERSION: u32 = 1;

/// A range of a source file, with one-based lines and columns.
#[derive(Debug, Clone, PartialEq, Eq)]
pub struct GraphSnapshotEvidence {
    pub file: String,
    pub start_line: u32,
    pub start_column: u32,
    pub end_line: u32,
    pub end_column: u32,
}

/// The content of a [`GraphSnapshotEvidence`].
pub struct GraphSnapshotEvidenceModel {
    pub file: Seq<char>,
    pub start_line: u32,
    pub start_column: u32,
    pub end_line: u32,
    pub end_column: u32,
}

impl DeepView for GraphSnapshotEvidence {
    type V = GraphSnapshotEvidenceModel;

    open spec fn deep_view(&self) -> GraphSnapshotEvidenceModel {
        GraphSnapshotEvidenceModel {
            file: self.file.deep_view(),
            start_line: self.start_line.deep_view(),
            start_column: self.start_column.deep_view(),
            end_line: self.end_line.deep_view(),
            end_column: self.end_column.deep_view(),
        }
    }
}

impl Plain for GraphSnapshotEvidence {
    fn duplicate(&self) -> (copy: Self) {
        GraphSnapshotEvidence {
            file: self.file.duplicate(),
            start_line: self.start_line.duplicate(),
            start_column: self.start_column.duplicate(),
            end_line: self.end_line.duplicate(),
            end_column: self.end_column.duplicate(),
        }
    }

    fn same(&self, other: &Self) -> (equal: bool) {
        self.file.same(&other.file)
            && self.start_line.same(&other.start_line)
            && self.start_column.same(&other.start_column)
            && self.end_line.same(&other.end_line)
            && self.end_column.same(&other.end_column)
    }
}

/// A declaration, a source file or an exported alias.
#[derive(Debug, Clone, PartialEq, Eq)]
pub struct GraphSnapshotNode {
    pub id: String,
    pub kind: String,
    pub name: String,
    pub qualified_name: Option<String>,
    pub file: String,
    pub external: bool,
    pub exported: bool,
    pub signature: Option<String>,
    pub evidence: Option<GraphSnapshotEvidence>,
}

/// The content of a [`GraphSnapshotNode`].
pub struct GraphSnapshotNodeModel {
    pub id: Seq<char>,
    pub kind: Seq<char>,
    pub name: Seq<char>,
    pub qualified_name: Option<Seq<char>>,
    pub file: Seq<char>,
    pub external: bool,
    pub exported: bool,
    pub signature: Option<Seq<char>>,
    pub evidence: Option<GraphSnapshotEvidenceModel>,
}

impl DeepView for GraphSnapshotNode {
    type V = GraphSnapshotNodeModel;

    open spec fn deep_view(&self) -> GraphSnapshotNodeModel {
        GraphSnapshotNodeModel {
            id: self.id.deep_view(),
            kind: self.kind.deep_view(),
            name: self.name.deep_view(),
            qualified_name: self.qualified_name.deep_view(),
            file: self.file.deep_view(),
            external: self.external.deep_view(),
            exported: self.exported.deep_view(),
            signature: self.signature.deep_view(),
            evidence: self.evidence.deep_view(),
        }
    }
}

impl Plain for GraphSnapshotNode {
    fn duplicate(&self) -> (copy: Self) {
        GraphSnapshotNode {
            id: self.id.duplicate(),
            kind: self.kind.duplicate(),
            name: self.name.duplicate(),
            qualified_name: self.qualified_name.duplicate(),
            file: self.file.duplicate(),
            external: self.external.duplicate(),
            exported: self.exported.duplicate(),
            signature: self.signature.duplicate(),
            evidence: self.evidence.duplicate(),
        }
    }

    fn same(&self, other: &Self) -> (equal: bool) {
        self.id.same(&other.id)
            && self.kind.same(&other.kind)
            && self.name.same(&other.name)
            && self.qualified_name.same(&other.qualified_name)
            && self.file.same(&other.file)
            && self.external.same(&other.external)
            && self.exported.same(&other.exported)
            && self.signature.same(&other.signature)
            && self.evidence.same(&other.evidence)
    }
}

/// A relation between two nodes.
#[derive(Debug, Clone, PartialEq, Eq)]
pub struct GraphSnapshotEdge {
    pub from: String,
    pub to: String,
    pub kind: String,
    pub evidence: Option<GraphSnapshotEvidence>,
}

/// The content of a [`GraphSnapshotEdge`].
pub struct GraphSnapshotEdgeModel {
    pub from: Seq<char>,
    pub to: Seq<char>,
    pub kind: Seq<char>,
    pub evidence: Option<GraphSnapshotEvidenceModel>,
}

impl DeepView for GraphSnapshotEdge {
    type V = GraphSnapshotEdgeModel;

    open spec fn deep_view(&self) -> GraphSnapshotEdgeModel {
        GraphSnapshotEdgeModel {
            from: self.from.deep_view(),
            to: self.to.deep_view(),
            kind: self.kind.deep_view(),
            evidence: self.evidence.deep_view(),
        }
    }
}

impl Plain for GraphSnapshotEdge {
    fn duplicate(&self) -> (copy: Self) {
        GraphSnapshotEdge {
            from: self.from.duplicate(),
            to: self.to.duplicate(),
            kind: self.kind.duplicate(),
            evidence: self.evidence.duplicate(),
        }
    }

    fn same(&self, other: &Self) -> (equal: bool) {
        self.from.same(&other.from)
            && self.to.same(&other.to)
            && self.kind.same(&other.kind)
            && self.evidence.same(&other.evidence)
    }
}

/// A diagnostic of a source file.
#[derive(Debug, Clone, PartialEq, Eq)]
pub struct GraphSnapshotDiagnostic {
    pub file: String,
    pub line: u32,
    pub column: Option<u32>,
    pub code: String,
    pub message: String,
    pub severity: Option<String>,
}

/// The content of a [`GraphSnapshotDiagnostic`].
pub struct GraphSnapshotDiagnosticModel {
    pub file: Seq<char>,
    pub line: u32,
    pub column: Option<u32>,
    pub code: Seq<char>,
    pub message: Seq<char>,
    pub severity: Option<Seq<char>>,
}

impl DeepView for GraphSnapshotDiagnostic {
    type V = GraphSnapshotDiagnosticModel;

    open spec fn deep_view(&self) -> GraphSnapshotDiagnosticModel {
        GraphSnapshotDiagnosticModel {
            file: self.file.deep_view(),
            line: self.line.deep_view(),
            column: self.column.deep_view(),
            code: self.code.deep_view(),
            message: self.message.deep_view(),
            severity: self.severity.deep_view(),
        }
    }
}

impl Plain for GraphSnapshotDiagnostic {
    fn duplicate(&self) -> (copy: Self) {
        GraphSnapshotDiagnostic {
            file: self.file.duplicate(),
            line: self.line.duplicate(),
            column: self.column.duplicate(),
            code: self.code.duplicate(),
            message: self.message.duplicate(),
            severity: self.severity.duplicate(),
        }
    }

    fn same(&self, other: &Self) -> (equal: bool) {
        self.file.same(&other.file)
            && self.line.same(&other.line)
            && self.column.same(&other.column)
            && self.code.same(&other.code)
            && self.message.same(&other.message)
            && self.severity.same(&other.severity)
    }
}

/// How completely a family of edges is covered.
#[derive(Debug, Clone, PartialEq, Eq)]
pub struct GraphSnapshotCoverage {
    pub family: String,
    pub state: String,
}

/// The content of a [`GraphSnapshotCoverage`].
pub struct GraphSnapshotCoverageModel {
    pub family: Seq<char>,
    pub state: Seq<char>,
}

impl DeepView for GraphSnapshotCoverage {
    type V = GraphSnapshotCoverageModel;

    open spec fn deep_view(&self) -> GraphSnapshotCoverageModel {
        GraphSnapshotCoverageModel {
            family: self.family.deep_view(),
            state: self.state.deep_view(),
        }
    }
}

impl Plain for GraphSnapshotCoverage {
    fn duplicate(&self) -> (copy: Self) {
        GraphSnapshotCoverage {
            family: self.family.duplicate(),
            state: self.state.duplicate(),
        }
    }

    fn same(&self, other: &Self) -> (equal: bool) {
        self.family.same(&other.family)
            && self.state.same(&other.state)
    }
}

/// A site whose edges of one family are not known.
#[derive(Debug, Clone, PartialEq, Eq)]
pub struct GraphSnapshotUnresolved {
    pub family: String,
    pub evidence: GraphSnapshotEvidence,
    pub reason: String,
    pub candidates: Vec<String>,
}

/// The content of a [`GraphSnapshotUnresolved`].
pub struct GraphSnapshotUnresolvedModel {
    pub family: Seq<char>,
    pub evidence: GraphSnapshotEvidenceModel,
    pub reason: Seq<char>,
    pub candidates: Seq<Seq<char>>,
}

impl DeepView for GraphSnapshotUnresolved {
    type V = GraphSnapshotUnresolvedModel;

    open spec fn deep_view(&self) -> GraphSnapshotUnresolvedModel {
        GraphSnapshotUnresolvedModel {
            family: self.family.deep_view(),
            evidence: self.evidence.deep_view(),
            reason: self.reason.deep_view(),
            candidates: self.candidates.deep_view(),
        }
    }
}

impl Plain for GraphSnapshotUnresolved {
    fn duplicate(&self) -> (copy: Self) {
        GraphSnapshotUnresolved {
            family: self.family.duplicate(),
            evidence: self.evidence.duplicate(),
            reason: self.reason.duplicate(),
            candidates: self.candidates.duplicate(),
        }
    }

    fn same(&self, other: &Self) -> (equal: bool) {
        self.family.same(&other.family)
            && self.evidence.same(&other.evidence)
            && self.reason.same(&other.reason)
            && self.candidates.same(&other.candidates)
    }
}

/// The part of the graph that one source file owns.
#[derive(Debug, Clone, PartialEq, Eq)]
pub struct GraphSnapshotShard {
    pub key: String,
    pub source: String,
    pub checker_digest: String,
    pub interface_fingerprint: String,
    pub digest: String,
    pub nodes: Vec<GraphSnapshotNode>,
    pub edges: Vec<GraphSnapshotEdge>,
    pub diagnostics: Vec<GraphSnapshotDiagnostic>,
    pub coverage: Vec<GraphSnapshotCoverage>,
    pub unresolved: Vec<GraphSnapshotUnresolved>,
}

/// The content of a [`GraphSnapshotShard`].
pub struct GraphSnapshotShardModel {
    pub key: Seq<char>,
    pub source: Seq<char>,
    pub checker_digest: Seq<char>,
    pub interface_fingerprint: Seq<char>,
    pub digest: Seq<char>,
    pub nodes: Seq<GraphSnapshotNodeModel>,
    pub edges: Seq<GraphSnapshotEdgeModel>,
    pub diagnostics: Seq<GraphSnapshotDiagnosticModel>,
    pub coverage: Seq<GraphSnapshotCoverageModel>,
    pub unresolved: Seq<GraphSnapshotUnresolvedModel>,
}

impl DeepView for GraphSnapshotShard {
    type V = GraphSnapshotShardModel;

    open spec fn deep_view(&self) -> GraphSnapshotShardModel {
        GraphSnapshotShardModel {
            key: self.key.deep_view(),
            source: self.source.deep_view(),
            checker_digest: self.checker_digest.deep_view(),
            interface_fingerprint: self.interface_fingerprint.deep_view(),
            digest: self.digest.deep_view(),
            nodes: self.nodes.deep_view(),
            edges: self.edges.deep_view(),
            diagnostics: self.diagnostics.deep_view(),
            coverage: self.coverage.deep_view(),
            unresolved: self.unresolved.deep_view(),
        }
    }
}

impl Plain for GraphSnapshotShard {
    fn duplicate(&self) -> (copy: Self) {
        GraphSnapshotShard {
            key: self.key.duplicate(),
            source: self.source.duplicate(),
            checker_digest: self.checker_digest.duplicate(),
            interface_fingerprint: self.interface_fingerprint.duplicate(),
            digest: self.digest.duplicate(),
            nodes: self.nodes.duplicate(),
            edges: self.edges.duplicate(),
            diagnostics: self.diagnostics.duplicate(),
            coverage: self.coverage.duplicate(),
            unresolved: self.unresolved.duplicate(),
        }
    }

    fn same(&self, other: &Self) -> (equal: bool) {
        self.key.same(&other.key)
            && self.source.same(&other.source)
            && self.checker_digest.same(&other.checker_digest)
            && self.interface_fingerprint.same(&other.interface_fingerprint)
            && self.digest.same(&other.digest)
            && self.nodes.same(&other.nodes)
            && self.edges.same(&other.edges)
            && self.diagnostics.same(&other.diagnostics)
            && self.coverage.same(&other.coverage)
            && self.unresolved.same(&other.unresolved)
    }
}

/// The key and the digest of a shard.
#[derive(Debug, Clone, PartialEq, Eq)]
pub struct GraphSnapshotManifestEntry {
    pub key: String,
    pub digest: String,
}

/// The content of a [`GraphSnapshotManifestEntry`].
pub struct GraphSnapshotManifestEntryModel {
    pub key: Seq<char>,
    pub digest: Seq<char>,
}

impl DeepView for GraphSnapshotManifestEntry {
    type V = GraphSnapshotManifestEntryModel;

    open spec fn deep_view(&self) -> GraphSnapshotManifestEntryModel {
        GraphSnapshotManifestEntryModel {
            key: self.key.deep_view(),
            digest: self.digest.deep_view(),
        }
    }
}

impl Plain for GraphSnapshotManifestEntry {
    fn duplicate(&self) -> (copy: Self) {
        GraphSnapshotManifestEntry {
            key: self.key.duplicate(),
            digest: self.digest.duplicate(),
        }
    }

    fn same(&self, other: &Self) -> (equal: bool) {
        self.key.same(&other.key)
            && self.digest.same(&other.digest)
    }
}

/// The program that made a snapshot.
#[derive(Debug, Clone, PartialEq, Eq, Default)]
pub struct GraphSnapshotProducer {
    pub name: String,
    pub version: String,
    pub commit: String,
}

/// The content of a [`GraphSnapshotProducer`].
pub struct GraphSnapshotProducerModel {
    pub name: Seq<char>,
    pub version: Seq<char>,
    pub commit: Seq<char>,
}

impl DeepView for GraphSnapshotProducer {
    type V = GraphSnapshotProducerModel;

    open spec fn deep_view(&self) -> GraphSnapshotProducerModel {
        GraphSnapshotProducerModel {
            name: self.name.deep_view(),
            version: self.version.deep_view(),
            commit: self.commit.deep_view(),
        }
    }
}

impl Plain for GraphSnapshotProducer {
    fn duplicate(&self) -> (copy: Self) {
        GraphSnapshotProducer {
            name: self.name.duplicate(),
            version: self.version.duplicate(),
            commit: self.commit.duplicate(),
        }
    }

    fn same(&self, other: &Self) -> (equal: bool) {
        self.name.same(&other.name)
            && self.version.same(&other.version)
            && self.commit.same(&other.commit)
    }
}

/// Everything outside the sources that a snapshot depends on.
#[derive(Debug, Clone, PartialEq, Eq, Default)]
pub struct GraphSnapshotUniverse {
    pub target: String,
    pub digest: String,
    pub workspace_roots: Vec<String>,
    pub toolchains: Vec<String>,
    pub configurations: Vec<String>,
}

/// The content of a [`GraphSnapshotUniverse`].
pub struct GraphSnapshotUniverseModel {
    pub target: Seq<char>,
    pub digest: Seq<char>,
    pub workspace_roots: Seq<Seq<char>>,
    pub toolchains: Seq<Seq<char>>,
    pub configurations: Seq<Seq<char>>,
}

impl DeepView for GraphSnapshotUniverse {
    type V = GraphSnapshotUniverseModel;

    open spec fn deep_view(&self) -> GraphSnapshotUniverseModel {
        GraphSnapshotUniverseModel {
            target: self.target.deep_view(),
            digest: self.digest.deep_view(),
            workspace_roots: self.workspace_roots.deep_view(),
            toolchains: self.toolchains.deep_view(),
            configurations: self.configurations.deep_view(),
        }
    }
}

impl Plain for GraphSnapshotUniverse {
    fn duplicate(&self) -> (copy: Self) {
        GraphSnapshotUniverse {
            target: self.target.duplicate(),
            digest: self.digest.duplicate(),
            workspace_roots: self.workspace_roots.duplicate(),
            toolchains: self.toolchains.duplicate(),
            configurations: self.configurations.duplicate(),
        }
    }

    fn same(&self, other: &Self) -> (equal: bool) {
        self.target.same(&other.target)
            && self.digest.same(&other.digest)
            && self.workspace_roots.same(&other.workspace_roots)
            && self.toolchains.same(&other.toolchains)
            && self.configurations.same(&other.configurations)
    }
}

/// How long the phases of a request took, and whether it was answered from the cache.
#[derive(Debug, Clone, PartialEq, Eq)]
pub struct GraphSnapshotPhases {
    pub semantic_millis: u64,
    pub shard_millis: u64,
    pub encode_millis: u64,
    pub total_millis: u64,
    pub cache_hit: bool,
}

/// The content of a [`GraphSnapshotPhases`].
pub struct GraphSnapshotPhasesModel {
    pub semantic_millis: u64,
    pub shard_millis: u64,
    pub encode_millis: u64,
    pub total_millis: u64,
    pub cache_hit: bool,
}

impl DeepView for GraphSnapshotPhases {
    type V = GraphSnapshotPhasesModel;

    open spec fn deep_view(&self) -> GraphSnapshotPhasesModel {
        GraphSnapshotPhasesModel {
            semantic_millis: self.semantic_millis.deep_view(),
            shard_millis: self.shard_millis.deep_view(),
            encode_millis: self.encode_millis.deep_view(),
            total_millis: self.total_millis.deep_view(),
            cache_hit: self.cache_hit.deep_view(),
        }
    }
}

impl Plain for GraphSnapshotPhases {
    fn duplicate(&self) -> (copy: Self) {
        GraphSnapshotPhases {
            semantic_millis: self.semantic_millis.duplicate(),
            shard_millis: self.shard_millis.duplicate(),
            encode_millis: self.encode_millis.duplicate(),
            total_millis: self.total_millis.duplicate(),
            cache_hit: self.cache_hit.duplicate(),
        }
    }

    fn same(&self, other: &Self) -> (equal: bool) {
        self.semantic_millis.same(&other.semantic_millis)
            && self.shard_millis.same(&other.shard_millis)
            && self.encode_millis.same(&other.encode_millis)
            && self.total_millis.same(&other.total_millis)
            && self.cache_hit.same(&other.cache_hit)
    }
}

/// The answer to a snapshot request.
#[derive(Debug, Clone, PartialEq, Eq)]
pub struct GraphSnapshotResult {
    pub protocol_version: u32,
    pub schema_version: u32,
    pub producer: GraphSnapshotProducer,
    pub universe: GraphSnapshotUniverse,
    pub sequence: u64,
    pub generation: String,
    pub base_generation: Option<String>,
    pub upserts: Vec<GraphSnapshotShard>,
    pub deletes: Vec<String>,
    pub manifest: Vec<GraphSnapshotManifestEntry>,
    pub phases: GraphSnapshotPhases,
}

/// The content of a [`GraphSnapshotResult`].
pub struct GraphSnapshotResultModel {
    pub protocol_version: u32,
    pub schema_version: u32,
    pub producer: GraphSnapshotProducerModel,
    pub universe: GraphSnapshotUniverseModel,
    pub sequence: u64,
    pub generation: Seq<char>,
    pub base_generation: Option<Seq<char>>,
    pub upserts: Seq<GraphSnapshotShardModel>,
    pub deletes: Seq<Seq<char>>,
    pub manifest: Seq<GraphSnapshotManifestEntryModel>,
    pub phases: GraphSnapshotPhasesModel,
}

impl DeepView for GraphSnapshotResult {
    type V = GraphSnapshotResultModel;

    open spec fn deep_view(&self) -> GraphSnapshotResultModel {
        GraphSnapshotResultModel {
            protocol_version: self.protocol_version.deep_view(),
            schema_version: self.schema_version.deep_view(),
            producer: self.producer.deep_view(),
            universe: self.universe.deep_view(),
            sequence: self.sequence.deep_view(),
            generation: self.generation.deep_view(),
            base_generation: self.base_generation.deep_view(),
            upserts: self.upserts.deep_view(),
            deletes: self.deletes.deep_view(),
            manifest: self.manifest.deep_view(),
            phases: self.phases.deep_view(),
        }
    }
}

impl Plain for GraphSnapshotResult {
    fn duplicate(&self) -> (copy: Self) {
        GraphSnapshotResult {
            protocol_version: self.protocol_version.duplicate(),
            schema_version: self.schema_version.duplicate(),
            producer: self.producer.duplicate(),
            universe: self.universe.duplicate(),
            sequence: self.sequence.duplicate(),
            generation: self.generation.duplicate(),
            base_generation: self.base_generation.duplicate(),
            upserts: self.upserts.duplicate(),
            deletes: self.deletes.duplicate(),
            manifest: self.manifest.duplicate(),
            phases: self.phases.duplicate(),
        }
    }

    fn same(&self, other: &Self) -> (equal: bool) {
        self.protocol_version.same(&other.protocol_version)
            && self.schema_version.same(&other.schema_version)
            && self.producer.same(&other.producer)
            && self.universe.same(&other.universe)
            && self.sequence.same(&other.sequence)
            && self.generation.same(&other.generation)
            && self.base_generation.same(&other.base_generation)
            && self.upserts.same(&other.upserts)
            && self.deletes.same(&other.deletes)
            && self.manifest.same(&other.manifest)
            && self.phases.same(&other.phases)
    }
}

/// A source file of a checkpoint and the digest of its exact bytes.
#[derive(Debug, Clone, PartialEq, Eq)]
pub struct GraphSnapshotSource {
    pub source: String,
    pub checker_digest: String,
}

/// The content of a [`GraphSnapshotSource`].
pub struct GraphSnapshotSourceModel {
    pub source: Seq<char>,
    pub checker_digest: Seq<char>,
}

impl DeepView for GraphSnapshotSource {
    type V = GraphSnapshotSourceModel;

    open spec fn deep_view(&self) -> GraphSnapshotSourceModel {
        GraphSnapshotSourceModel {
            source: self.source.deep_view(),
            checker_digest: self.checker_digest.deep_view(),
        }
    }
}

impl Plain for GraphSnapshotSource {
    fn duplicate(&self) -> (copy: Self) {
        GraphSnapshotSource {
            source: self.source.duplicate(),
            checker_digest: self.checker_digest.duplicate(),
        }
    }

    fn same(&self, other: &Self) -> (equal: bool) {
        self.source.same(&other.source)
            && self.checker_digest.same(&other.checker_digest)
    }
}

/// A snapshot that a client persisted.
#[derive(Debug, Clone, PartialEq, Eq)]
pub struct GraphSnapshotCheckpoint {
    pub protocol_version: u32,
    pub schema_version: u32,
    pub producer: GraphSnapshotProducer,
    pub universe: String,
    pub generation: String,
    pub sources: Vec<GraphSnapshotSource>,
    pub manifest: Vec<GraphSnapshotManifestEntry>,
    pub shards: Vec<GraphSnapshotShard>,
}

/// The content of a [`GraphSnapshotCheckpoint`].
pub struct GraphSnapshotCheckpointModel {
    pub protocol_version: u32,
    pub schema_version: u32,
    pub producer: GraphSnapshotProducerModel,
    pub universe: Seq<char>,
    pub generation: Seq<char>,
    pub sources: Seq<GraphSnapshotSourceModel>,
    pub manifest: Seq<GraphSnapshotManifestEntryModel>,
    pub shards: Seq<GraphSnapshotShardModel>,
}

impl DeepView for GraphSnapshotCheckpoint {
    type V = GraphSnapshotCheckpointModel;

    open spec fn deep_view(&self) -> GraphSnapshotCheckpointModel {
        GraphSnapshotCheckpointModel {
            protocol_version: self.protocol_version.deep_view(),
            schema_version: self.schema_version.deep_view(),
            producer: self.producer.deep_view(),
            universe: self.universe.deep_view(),
            generation: self.generation.deep_view(),
            sources: self.sources.deep_view(),
            manifest: self.manifest.deep_view(),
            shards: self.shards.deep_view(),
        }
    }
}

impl Plain for GraphSnapshotCheckpoint {
    fn duplicate(&self) -> (copy: Self) {
        GraphSnapshotCheckpoint {
            protocol_version: self.protocol_version.duplicate(),
            schema_version: self.schema_version.duplicate(),
            producer: self.producer.duplicate(),
            universe: self.universe.duplicate(),
            generation: self.generation.duplicate(),
            sources: self.sources.duplicate(),
            manifest: self.manifest.duplicate(),
            shards: self.shards.duplicate(),
        }
    }

    fn same(&self, other: &Self) -> (equal: bool) {
        self.protocol_version.same(&other.protocol_version)
            && self.schema_version.same(&other.schema_version)
            && self.producer.same(&other.producer)
            && self.universe.same(&other.universe)
            && self.generation.same(&other.generation)
            && self.sources.same(&other.sources)
            && self.manifest.same(&other.manifest)
            && self.shards.same(&other.shards)
    }
}

/// A snapshot request.
#[derive(Debug, Clone, PartialEq, Eq)]
pub struct GraphSnapshotParams {
    pub known_generation: Option<String>,
    pub checkpoint: Option<GraphSnapshotCheckpoint>,
}

/// The content of a [`GraphSnapshotParams`].
pub struct GraphSnapshotParamsModel {
    pub known_generation: Option<Seq<char>>,
    pub checkpoint: Option<GraphSnapshotCheckpointModel>,
}

impl DeepView for GraphSnapshotParams {
    type V = GraphSnapshotParamsModel;

    open spec fn deep_view(&self) -> GraphSnapshotParamsModel {
        GraphSnapshotParamsModel {
            known_generation: self.known_generation.deep_view(),
            checkpoint: self.checkpoint.deep_view(),
        }
    }
}

impl Plain for GraphSnapshotParams {
    fn duplicate(&self) -> (copy: Self) {
        GraphSnapshotParams {
            known_generation: self.known_generation.duplicate(),
            checkpoint: self.checkpoint.duplicate(),
        }
    }

    fn same(&self, other: &Self) -> (equal: bool) {
        self.known_generation.same(&other.known_generation)
            && self.checkpoint.same(&other.checkpoint)
    }
}

impl Default for GraphSnapshotPhases {
    fn default() -> (phases: Self)
        ensures
            phases.deep_view() == no_phases(),
    {
        GraphSnapshotPhases {
            semantic_millis: 0,
            shard_millis: 0,
            encode_millis: 0,
            total_millis: 0,
            cache_hit: false,
        }
    }
}

/// Phases that took no time.
pub open spec fn no_phases() -> GraphSnapshotPhasesModel {
    GraphSnapshotPhasesModel {
        semantic_millis: 0,
        shard_millis: 0,
        encode_millis: 0,
        total_millis: 0,
        cache_hit: false,
    }
}

/// Nodes are sorted by their identity.
impl Ranked for GraphSnapshotNode {
    type Rank = String;

    open spec fn rank(value: GraphSnapshotNodeModel) -> Seq<char> {
        value.id
    }

    fn place_by_rank(&self, other: &Self) -> (place: Place) {
        self.id.place(&other.id)
    }
}

/// A node repeats another one that has its identity.
impl Repeatable for GraphSnapshotNode {
    open spec fn repeats(kept: GraphSnapshotNodeModel, next: GraphSnapshotNodeModel) -> bool {
        kept.id == next.id
    }

    fn is_repeated_by(&self, next: &Self) -> (repeated: bool) {
        self.id == next.id
    }
}

/// Edges are sorted by their ends, then by their kind.
impl Ranked for GraphSnapshotEdge {
    type Rank = ((String, String), String);

    open spec fn rank(value: GraphSnapshotEdgeModel) -> ((Seq<char>, Seq<char>), Seq<char>) {
        ((value.from, value.to), value.kind)
    }

    fn place_by_rank(&self, other: &Self) -> (place: Place) {
        match self.from.place(&other.from) {
            Place::Same => match self.to.place(&other.to) {
                Place::Same => self.kind.place(&other.kind),
                decided => decided,
            },
            decided => decided,
        }
    }
}

/// Diagnostics are sorted by their position, then by their code and message.
impl Ranked for GraphSnapshotDiagnostic {
    type Rank = ((String, u32), (Option<u32>, (String, String)));

    open spec fn rank(value: GraphSnapshotDiagnosticModel) -> (
        (Seq<char>, u32),
        (Option<u32>, (Seq<char>, Seq<char>)),
    ) {
        ((value.file, value.line), (value.column, (value.code, value.message)))
    }

    fn place_by_rank(&self, other: &Self) -> (place: Place) {
        match self.file.place(&other.file) {
            Place::Same => match self.line.place(&other.line) {
                Place::Same => match self.column.place(&other.column) {
                    Place::Same => match self.code.place(&other.code) {
                        Place::Same => self.message.place(&other.message),
                        decided => decided,
                    },
                    decided => decided,
                },
                decided => decided,
            },
            decided => decided,
        }
    }
}

/// Unresolved sites are sorted by their family, then by their position and reason.
impl Ranked for GraphSnapshotUnresolved {
    type Rank = ((String, String), ((u32, u32), String));

    open spec fn rank(value: GraphSnapshotUnresolvedModel) -> (
        (Seq<char>, Seq<char>),
        ((u32, u32), Seq<char>),
    ) {
        (
            (value.family, value.evidence.file),
            ((value.evidence.start_line, value.evidence.start_column), value.reason),
        )
    }

    fn place_by_rank(&self, other: &Self) -> (place: Place) {
        match self.family.place(&other.family) {
            Place::Same => match self.evidence.file.place(&other.evidence.file) {
                Place::Same => match self.evidence.start_line.place(&other.evidence.start_line) {
                    Place::Same => match self.evidence.start_column.place(
                        &other.evidence.start_column,
                    ) {
                        Place::Same => self.reason.place(&other.reason),
                        decided => decided,
                    },
                    decided => decided,
                },
                decided => decided,
            },
            decided => decided,
        }
    }
}

/// An unresolved site repeats another one of its family, evidence and reason.
impl Repeatable for GraphSnapshotUnresolved {
    open spec fn repeats(
        kept: GraphSnapshotUnresolvedModel,
        next: GraphSnapshotUnresolvedModel,
    ) -> bool {
        kept.family == next.family && kept.evidence == next.evidence && kept.reason == next.reason
    }

    fn is_repeated_by(&self, next: &Self) -> (repeated: bool) {
        self.family == next.family && self.evidence.same(&next.evidence) && self.reason
            == next.reason
    }
}

/// Shards are sorted by their key.
impl Ranked for GraphSnapshotShard {
    type Rank = String;

    open spec fn rank(value: GraphSnapshotShardModel) -> Seq<char> {
        value.key
    }

    fn place_by_rank(&self, other: &Self) -> (place: Place) {
        self.key.place(&other.key)
    }
}

/// Manifest entries are sorted by their key.
impl Ranked for GraphSnapshotManifestEntry {
    type Rank = String;

    open spec fn rank(value: GraphSnapshotManifestEntryModel) -> Seq<char> {
        value.key
    }

    fn place_by_rank(&self, other: &Self) -> (place: Place) {
        self.key.place(&other.key)
    }
}

/// A manifest entry repeats another one that has its key.
impl Repeatable for GraphSnapshotManifestEntry {
    open spec fn repeats(
        kept: GraphSnapshotManifestEntryModel,
        next: GraphSnapshotManifestEntryModel,
    ) -> bool {
        kept.key == next.key
    }

    fn is_repeated_by(&self, next: &Self) -> (repeated: bool) {
        self.key == next.key
    }
}

} // verus!
