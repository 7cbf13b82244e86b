//! The shards of a snapshot, one for each source file.

use vstd::prelude::*;
use vstd::string::*;

use crate::edges::{
    add_references, add_relations, collect_definitions, contain_definitions, definitions_contained,
    definitions_of, is_housed, relations_added, tokens_referenced,
};
use crate::error::{GraphError, GraphErrorModel, failure, outcome};
use crate::files::{
    FileId, FileRange, Severity, SourceDiagnostic, SourceDiagnosticModel, SourceFileModel,
    SourceFiles, required_evidence, required_evidence_of,
};
use crate::graph::{
    Graph, GraphModel, MutableShard, MutableShardModel, has_edge, is_simple, with_diagnostic,
    with_edge, with_unresolved,
};
use crate::json::{Json, JsonModel, digest_json, json_digest};
use crate::moniker::SymbolInformationKind;
use crate::nodes::{
    collect_sources, digests_of, empty_shards, files_placed, inputs_cover, place_files,
    place_tokens, placements, sources_of, tokens_placed,
};
use crate::plain::Plain;
use crate::snapshot::{
    GraphSnapshotCoverage, GraphSnapshotCoverageModel, GraphSnapshotDiagnostic,
    GraphSnapshotDiagnosticModel, GraphSnapshotEdge, GraphSnapshotEdgeModel,
    GraphSnapshotManifestEntry, GraphSnapshotManifestEntryModel, GraphSnapshotNode,
    GraphSnapshotNodeModel, GraphSnapshotShard, GraphSnapshotShardModel, GraphSnapshotUniverse,
    GraphSnapshotUnresolved, GraphSnapshotUnresolvedModel,
};
use crate::order::Key;
use crate::sorting::{
    Ranked, Repeatable, drop_repeats, insert_ranked, is_ranked, lemma_neighbours_differ,
    lemma_repeats_dropped, lemma_stable_sorted, lemma_stable_sorted_contains, ranks_before,
    stable_sort, stable_sorted, without_repeats,
};
use crate::static_index::{
    StaticIndex, StaticIndexModel, StaticIndexedFile, StaticIndexedFileModel, TokenStaticData,
    TokenStaticDataModel,
};
use crate::table::{Table, ordered};
use crate::text::{is_text, same_text};
use crate::unresolved::{
    collect_conditional, collect_gaps, collect_unresolved, conditional_sites, coverage,
    coverage_model, gap_sites, unresolved_of,
};
use crate::wire::{Encoded, field};

verus! {

/// What the digest of a shard is taken of.
pub open spec fn shard_json(
    key: Seq<char>,
    source: Seq<char>,
    checker_digest: Seq<char>,
    interface_fingerprint: Seq<char>,
    nodes: Seq<GraphSnapshotNodeModel>,
    edges: Seq<GraphSnapshotEdgeModel>,
    diagnostics: Seq<GraphSnapshotDiagnosticModel>,
    coverage: Seq<GraphSnapshotCoverageModel>,
    unresolved: Seq<GraphSnapshotUnresolvedModel>,
) -> JsonModel {
    JsonModel::Object(
        seq![
            ("key"@, JsonModel::Text(key)),
            ("source"@, JsonModel::Text(source)),
            ("checkerDigest"@, JsonModel::Text(checker_digest)),
            ("interfaceFingerprint"@, JsonModel::Text(interface_fingerprint)),
            ("nodes"@, <Vec<GraphSnapshotNode>>::encoding(nodes)),
            ("edges"@, <Vec<GraphSnapshotEdge>>::encoding(edges)),
            ("diagnostics"@, <Vec<GraphSnapshotDiagnostic>>::encoding(diagnostics)),
            ("coverage"@, <Vec<GraphSnapshotCoverage>>::encoding(coverage)),
            ("unresolved"@, <Vec<GraphSnapshotUnresolved>>::encoding(unresolved)),
        ],
    )
}

/// The digest of a shard.
pub fn shard_digest(
    key: &str,
    source: &str,
    checker_digest: &str,
    interface_fingerprint: &str,
    nodes: &Vec<GraphSnapshotNode>,
    edges: &Vec<GraphSnapshotEdge>,
    diagnostics: &Vec<GraphSnapshotDiagnostic>,
    coverage: &Vec<GraphSnapshotCoverage>,
    unresolved: &Vec<GraphSnapshotUnresolved>,
) -> (digest: String)
    ensures
        digest@ == json_digest(
            shard_json(
                key@,
                source@,
                checker_digest@,
                interface_fingerprint@,
                nodes.deep_view(),
                edges.deep_view(),
                diagnostics.deep_view(),
                coverage.deep_view(),
                unresolved.deep_view(),
            ),
        ),
        crate::digest::is_digest_text(digest@),
{
    let fields: Vec<(String, Json)> = vec![
        field("key", key.to_owned().encode()),
        field("source", source.to_owned().encode()),
        field("checkerDigest", checker_digest.to_owned().encode()),
        field("interfaceFingerprint", interface_fingerprint.to_owned().encode()),
        field("nodes", nodes.encode()),
        field("edges", edges.encode()),
        field("diagnostics", diagnostics.encode()),
        field("coverage", coverage.encode()),
        field("unresolved", unresolved.encode()),
    ];
    let json = Json::Object(fields);
    proof {
        assert(json.deep_view()->Object_0 =~= shard_json(
            key@,
            source@,
            checker_digest@,
            interface_fingerprint@,
            nodes.deep_view(),
            edges.deep_view(),
            diagnostics.deep_view(),
            coverage.deep_view(),
            unresolved.deep_view(),
        )->Object_0);
    }
    digest_json(&json)
}

/// What the generation of a snapshot is taken of.
pub open spec fn generation_json(
    universe: Seq<char>,
    manifest: Seq<GraphSnapshotManifestEntryModel>,
) -> JsonModel {
    JsonModel::Object(
        seq![
            ("universe"@, JsonModel::Text(universe)),
            ("manifest"@, <Vec<GraphSnapshotManifestEntry>>::encoding(manifest)),
        ],
    )
}

/// The generation of a snapshot: the digest of its universe and its manifest.
pub fn snapshot_generation(universe: &str, manifest: &Vec<GraphSnapshotManifestEntry>) -> (generation:
    String)
    ensures
        generation@ == json_digest(generation_json(universe@, manifest.deep_view())),
        crate::digest::is_digest_text(generation@),
{
    let fields: Vec<(String, Json)> = vec![
        field("universe", universe.to_owned().encode()),
        field("manifest", manifest.encode()),
    ];
    let json = Json::Object(fields);
    assert(json.deep_view()->Object_0 =~= generation_json(
        universe@,
        manifest.deep_view(),
    )->Object_0);
    digest_json(&json)
}

/// The name of a severity.
pub open spec fn severity_name(severity: Severity) -> Seq<char> {
    match severity {
        Severity::Error => "error"@,
        Severity::Warning => "warning"@,
        Severity::WeakWarning => "warning"@,
        Severity::Allow => "hint"@,
    }
}

fn severity_text(severity: Severity) -> (text: &'static str)
    ensures
        text@ == severity_name(severity),
{
    match severity {
        Severity::Error => "error",
        Severity::Warning | Severity::WeakWarning => "warning",
        Severity::Allow => "hint",
    }
}

/// Adds the first diagnostics of a source file.
pub open spec fn diagnostics_added(
    files: Map<FileId, SourceFileModel>,
    source: Seq<char>,
    graph: GraphModel,
    diagnostics: Seq<SourceDiagnosticModel>,
    count: int,
) -> Result<GraphModel, GraphErrorModel>
    decreases count,
{
    if count <= 0 {
        Ok(graph)
    } else {
        match diagnostics_added(files, source, graph, diagnostics, count - 1) {
            Err(error) => Err(error),
            Ok(before) => {
                let diagnostic = diagnostics[count - 1];
                match required_evidence_of(files, diagnostic.range) {
                    Err(error) => Err(error),
                    Ok(position) => Ok(
                        with_diagnostic(
                            before,
                            source,
                            GraphSnapshotDiagnosticModel {
                                file: position.file,
                                line: position.start_line,
                                column: Some(position.start_column),
                                code: diagnostic.code,
                                message: diagnostic.message,
                                severity: Some(severity_name(diagnostic.severity)),
                            },
                        ),
                    ),
                }
            },
        }
    }
}

proof fn lemma_diagnostics_error(
    files: Map<FileId, SourceFileModel>,
    source: Seq<char>,
    graph: GraphModel,
    diagnostics: Seq<SourceDiagnosticModel>,
    count: int,
    more: int,
)
    requires
        0 <= count <= more,
        diagnostics_added(files, source, graph, diagnostics, count) is Err,
    ensures
        diagnostics_added(files, source, graph, diagnostics, more) == diagnostics_added(
            files,
            source,
            graph,
            diagnostics,
            count,
        ),
    decreases more - count,
{
    if count < more {
        lemma_diagnostics_error(files, source, graph, diagnostics, count, more - 1);
    }
}

/// What a step that changes a graph did.
pub open spec fn stepped(
    result: Result<(), GraphError>,
    graph: GraphModel,
    expected: Result<GraphModel, GraphErrorModel>,
) -> bool {
    match result {
        Ok(_) => expected == Ok::<GraphModel, GraphErrorModel>(graph),
        Err(error) => expected == Err::<GraphModel, GraphErrorModel>(error.deep_view()),
    }
}

/// Adds the diagnostics of a source file.
fn add_diagnostics(
    files: &SourceFiles,
    sources: &Table<FileId, String>,
    source: &String,
    graph: &mut Graph,
    diagnostics: &Vec<SourceDiagnostic>,
) -> (result: Result<(), GraphError>)
    requires
        old(graph).well_formed(),
        is_housed(sources.deep_view(), old(graph).deep_view()),
        old(graph).deep_view().shards.contains_key(source@),
    ensures
        final(graph).well_formed(),
        is_housed(sources.deep_view(), final(graph).deep_view()),
        final(graph).deep_view().shards.contains_key(source@),
        stepped(
            result,
            final(graph).deep_view(),
            diagnostics_added(
                files.deep_view(),
                source@,
                old(graph).deep_view(),
                diagnostics.deep_view(),
                diagnostics.deep_view().len() as int,
            ),
        ),
{
    let ghost f = files.deep_view();
    let ghost all = diagnostics.deep_view();
    let ghost start = graph.deep_view();
    let mut index: usize = 0;
    while index < diagnostics.len()
        invariant
            index <= diagnostics.len(),
            f == files.deep_view(),
            all == diagnostics.deep_view(),
            start == old(graph).deep_view(),
            graph.well_formed(),
            is_housed(sources.deep_view(), graph.deep_view()),
            graph.deep_view().shards.contains_key(source@),
            diagnostics_added(f, source@, start, all, index as int) == Ok::<
                GraphModel,
                GraphErrorModel,
            >(graph.deep_view()),
        decreases diagnostics.len() - index,
    {
        let diagnostic = &diagnostics[index];
        assert(all[index as int] == diagnostic.deep_view());
        match required_evidence(files, diagnostic.range) {
            Err(error) => {
                proof {
                    lemma_diagnostics_error(f, source@, start, all, index + 1, all.len() as int);
                }
                return Err(error);
            },
            Ok(position) => {
                graph.add_diagnostic(
                    source,
                    GraphSnapshotDiagnostic {
                        file: position.file,
                        line: position.start_line,
                        column: Some(position.start_column),
                        code: diagnostic.code.clone(),
                        message: diagnostic.message.clone(),
                        severity: Some(severity_text(diagnostic.severity).to_owned()),
                    },
                );
            },
        }
        index += 1;
    }
    Ok(())
}

/// Whether a file takes part in several builds.
pub open spec fn is_conditional(indexed: Seq<StaticIndexedFileModel>, file_id: FileId) -> bool {
    exists|i: int|
        0 <= i < indexed.len() && (#[trigger] indexed[i]).file_id == file_id
            && indexed[i].conditional_build
}

fn builds_conditionally(indexed: &Vec<StaticIndexedFile>, file_id: FileId) -> (conditional: bool)
    ensures
        conditional == is_conditional(indexed.deep_view(), file_id),
{
    let ghost all = indexed.deep_view();
    let mut index: usize = 0;
    while index < indexed.len()
        invariant
            index <= indexed.len(),
            all == indexed.deep_view(),
            forall|i: int|
                0 <= i < index ==> !((#[trigger] all[i]).file_id == file_id
                    && all[i].conditional_build),
        decreases indexed.len() - index,
    {
        assert(all[index as int] == indexed@[index as int].deep_view());
        if indexed[index].file_id == file_id && indexed[index].conditional_build {
            return true;
        }
        index += 1;
    }
    false
}

/// Adds the diagnostics and the unresolved sites of a source file.
pub open spec fn file_detailed(
    files: Map<FileId, SourceFileModel>,
    indexed: Seq<StaticIndexedFileModel>,
    tokens: Seq<TokenStaticDataModel>,
    graph: GraphModel,
    file_id: FileId,
    source: Seq<char>,
) -> Result<GraphModel, GraphErrorModel> {
    if !files.contains_key(file_id) || files[file_id].analysis is None {
        Err(GraphErrorModel::Cancelled)
    } else {
        let analysis = files[file_id].analysis->0;
        match diagnostics_added(
            files,
            source,
            graph,
            analysis.diagnostics,
            analysis.diagnostics.len() as int,
        ) {
            Err(error) => Err(error),
            Ok(diagnosed) => match unresolved_of(files, file_id, analysis, tokens) {
                Err(error) => Err(error),
                Ok(sites) => match required_evidence_of(
                    files,
                    (FileRange { file_id, range: analysis.root }),
                ) {
                    Err(error) => Err(error),
                    Ok(position) => {
                        let families = coverage_model();
                        let found = with_unresolved(diagnosed, source, sites);
                        let conditional = if is_conditional(indexed, file_id) {
                            with_unresolved(
                                found,
                                source,
                                conditional_sites(families, position, families.len() as int),
                            )
                        } else {
                            found
                        };
                        Ok(
                            with_unresolved(
                                conditional,
                                source,
                                gap_sites(
                                    families,
                                    conditional.shards[source].unresolved,
                                    position,
                                    families.len() as int,
                                ),
                            ),
                        )
                    },
                },
            },
        }
    }
}

/// Adds the diagnostics and the unresolved sites of the first source files.
pub open spec fn files_detailed(
    files: Map<FileId, SourceFileModel>,
    indexed: Seq<StaticIndexedFileModel>,
    tokens: Seq<TokenStaticDataModel>,
    graph: GraphModel,
    listing: Seq<(FileId, Seq<char>)>,
    count: int,
) -> Result<GraphModel, GraphErrorModel>
    decreases count,
{
    if count <= 0 {
        Ok(graph)
    } else {
        match files_detailed(files, indexed, tokens, graph, listing, count - 1) {
            Err(error) => Err(error),
            Ok(before) => file_detailed(
                files,
                indexed,
                tokens,
                before,
                listing[count - 1].0,
                listing[count - 1].1,
            ),
        }
    }
}

proof fn lemma_details_error(
    files: Map<FileId, SourceFileModel>,
    indexed: Seq<StaticIndexedFileModel>,
    tokens: Seq<TokenStaticDataModel>,
    graph: GraphModel,
    listing: Seq<(FileId, Seq<char>)>,
    count: int,
    more: int,
)
    requires
        0 <= count <= more,
        files_detailed(files, indexed, tokens, graph, listing, count) is Err,
    ensures
        files_detailed(files, indexed, tokens, graph, listing, more) == files_detailed(
            files,
            indexed,
            tokens,
            graph,
            listing,
            count,
        ),
    decreases more - count,
{
    if count < more {
        lemma_details_error(files, indexed, tokens, graph, listing, count, more - 1);
    }
}

/// Adds the diagnostics and the unresolved sites of a source file.
fn detail_file(
    files: &SourceFiles,
    indexed: &Vec<StaticIndexedFile>,
    tokens: &Vec<TokenStaticData>,
    sources: &Table<FileId, String>,
    graph: &mut Graph,
    file_id: FileId,
    source: &String,
) -> (result: Result<(), GraphError>)
    requires
        old(graph).well_formed(),
        is_housed(sources.deep_view(), old(graph).deep_view()),
        old(graph).deep_view().shards.contains_key(source@),
    ensures
        final(graph).well_formed(),
        is_housed(sources.deep_view(), final(graph).deep_view()),
        stepped(
            result,
            final(graph).deep_view(),
            file_detailed(
                files.deep_view(),
                indexed.deep_view(),
                tokens.deep_view(),
                old(graph).deep_view(),
                file_id,
                source@,
            ),
        ),
{
    let analysis = match files.get(&file_id) {
        Some(file) => match &file.analysis {
            Some(analysis) => analysis,
            None => return Err(GraphError::Cancelled),
        },
        None => return Err(GraphError::Cancelled),
    };
    match add_diagnostics(files, sources, source, graph, &analysis.diagnostics) {
        Ok(_) => {},
        Err(error) => return Err(error),
    }
    match collect_unresolved(files, file_id, analysis, tokens) {
        Ok(sites) => graph.add_unresolved(source, sites),
        Err(error) => return Err(error),
    }
    let position = match required_evidence(files, FileRange { file_id, range: analysis.root }) {
        Ok(position) => position,
        Err(error) => return Err(error),
    };
    let families = coverage();
    if builds_conditionally(indexed, file_id) {
        graph.add_unresolved(source, collect_conditional(&families, &position));
    }
    let gaps = match graph.shards.get(source) {
        Some(shard) => collect_gaps(&families, &shard.unresolved, &position),
        None => Vec::new(),
    };
    graph.add_unresolved(source, gaps);
    Ok(())
}

/// Adds the diagnostics and the unresolved sites of the source files.
fn detail_files(
    files: &SourceFiles,
    indexed: &Vec<StaticIndexedFile>,
    tokens: &Vec<TokenStaticData>,
    sources: &Table<FileId, String>,
    graph: &mut Graph,
) -> (result: Result<(), GraphError>)
    requires
        old(graph).well_formed(),
        is_housed(sources.deep_view(), old(graph).deep_view()),
    ensures
        final(graph).well_formed(),
        is_housed(sources.deep_view(), final(graph).deep_view()),
        stepped(
            result,
            final(graph).deep_view(),
            files_detailed(
                files.deep_view(),
                indexed.deep_view(),
                tokens.deep_view(),
                old(graph).deep_view(),
                ordered::<FileId, Seq<char>>(sources.deep_view()),
                sources.deep_view().len() as int,
            ),
        ),
{
    let ghost f = files.deep_view();
    let ghost x = indexed.deep_view();
    let ghost t = tokens.deep_view();
    let ghost start = graph.deep_view();
    let ghost listing = ordered::<FileId, Seq<char>>(sources.deep_view());
    let count = sources.len();
    let mut index: usize = 0;
    while index < count
        invariant
            index <= count,
            count == listing.len(),
            count == sources.deep_view().len(),
            listing == ordered::<FileId, Seq<char>>(sources.deep_view()),
            crate::table::lists::<FileId, Seq<char>>(listing, sources.deep_view()),
            f == files.deep_view(),
            x == indexed.deep_view(),
            t == tokens.deep_view(),
            start == old(graph).deep_view(),
            graph.well_formed(),
            is_housed(sources.deep_view(), graph.deep_view()),
            files_detailed(f, x, t, start, listing, index as int) == Ok::<
                GraphModel,
                GraphErrorModel,
            >(graph.deep_view()),
        decreases count - index,
    {
        let file_id = *sources.key_at(index);
        let source = sources.value_at(index);
        assert(sources.deep_view().contains_key(listing[index as int].0));
        match detail_file(files, indexed, tokens, sources, graph, file_id, source) {
            Ok(_) => {},
            Err(error) => {
                proof {
                    lemma_details_error(f, x, t, start, listing, index + 1, listing.len() as int);
                }
                return Err(error);
            },
        }
        index += 1;
    }
    Ok(())
}

/// Whether a declaration is the attribute that marks tests.
pub open spec fn is_test_attribute(token: TokenStaticDataModel) -> bool {
    token.kind == SymbolInformationKind::Attribute && token.display_name == Some("test"@)
}

/// Whether an identity is that of an attribute that marks tests.
pub open spec fn marks_tests(tokens: Seq<TokenStaticDataModel>, id: Seq<char>) -> bool {
    exists|i: int|
        0 <= i < tokens.len() && is_test_attribute(#[trigger] tokens[i]) && tokens[i].stable_id == id
}

/// Whether an edge marks the node it starts from as a test.
pub open spec fn is_test_mark(
    tokens: Seq<TokenStaticDataModel>,
    edge: GraphSnapshotEdgeModel,
) -> bool {
    edge.kind == "decorates"@ && marks_tests(tokens, edge.to)
}

/// Whether a node is marked as a test.
pub open spec fn is_test(
    tokens: Seq<TokenStaticDataModel>,
    listing: Seq<(Seq<char>, MutableShardModel)>,
    id: Seq<char>,
) -> bool {
    exists|s: int, e: int|
        0 <= s < listing.len() && 0 <= e < listing[s].1.edges.len() && is_test_mark(
            tokens,
            #[trigger] listing[s].1.edges[e],
        ) && listing[s].1.edges[e].from == id
}

/// Whether an edge shows that a test exercises the node it leads to.
pub open spec fn is_exercise(
    tokens: Seq<TokenStaticDataModel>,
    listing: Seq<(Seq<char>, MutableShardModel)>,
    edge: GraphSnapshotEdgeModel,
) -> bool {
    is_test(tokens, listing, edge.from) && (edge.kind == "calls"@ || edge.kind == "instantiates"@)
}

/// The edge from a test to what it exercises.
pub open spec fn test_edge(edge: GraphSnapshotEdgeModel) -> GraphSnapshotEdgeModel {
    GraphSnapshotEdgeModel { kind: "tests"@, ..edge }
}

/// The edges from tests that the first edges of a shard show.
pub open spec fn shard_tests(
    tokens: Seq<TokenStaticDataModel>,
    listing: Seq<(Seq<char>, MutableShardModel)>,
    source: Seq<char>,
    edges: Seq<GraphSnapshotEdgeModel>,
    count: int,
) -> Seq<(Seq<char>, GraphSnapshotEdgeModel)>
    decreases count,
{
    if count <= 0 {
        Seq::empty()
    } else {
        let found = shard_tests(tokens, listing, source, edges, count - 1);
        if is_exercise(tokens, listing, edges[count - 1]) {
            found.push((source, test_edge(edges[count - 1])))
        } else {
            found
        }
    }
}

/// The edges from tests that the first shards show.
pub open spec fn tests_of(
    tokens: Seq<TokenStaticDataModel>,
    listing: Seq<(Seq<char>, MutableShardModel)>,
    count: int,
) -> Seq<(Seq<char>, GraphSnapshotEdgeModel)>
    decreases count,
{
    if count <= 0 {
        Seq::empty()
    } else {
        let (source, shard) = listing[count - 1];
        tests_of(tokens, listing, count - 1) + shard_tests(
            tokens,
            listing,
            source,
            shard.edges,
            shard.edges.len() as int,
        )
    }
}

/// Adds the first edges from tests.
pub open spec fn tests_added(
    graph: GraphModel,
    tests: Seq<(Seq<char>, GraphSnapshotEdgeModel)>,
    count: int,
) -> GraphModel
    decreases count,
{
    if count <= 0 {
        graph
    } else {
        with_edge(
            tests_added(graph, tests, count - 1),
            tests[count - 1].0,
            tests[count - 1].1,
        )
    }
}

/// Finds the attributes that mark tests.
fn collect_test_attributes(tokens: &Vec<TokenStaticData>) -> (attributes: Table<String, ()>)
    ensures
        forall|id: Seq<char>| #[trigger]
            attributes.deep_view().contains_key(id) <==> marks_tests(tokens.deep_view(), id),
{
    let ghost all = tokens.deep_view();
    let mut attributes: Table<String, ()> = Table::new();
    let mut index: usize = 0;
    assert(all.take(0).len() == 0);
    while index < tokens.len()
        invariant
            index <= tokens.len(),
            all == tokens.deep_view(),
            forall|id: Seq<char>| #[trigger]
                attributes.deep_view().contains_key(id) <==> marks_tests(
                    all.take(index as int),
                    id,
                ),
        decreases tokens.len() - index,
    {
        let token = &tokens[index];
        let ghost before = all.take(index as int);
        let ghost after = all.take(index + 1);
        let ghost known = attributes.deep_view();
        assert(all[index as int] == token.deep_view());
        if token.kind == SymbolInformationKind::Attribute && is_text(&token.display_name, "test") {
            attributes.insert(token.stable_id.clone(), ());
        }
        proof {
            assert(after[index as int] == token.deep_view());
            assert forall|i: int| 0 <= i < index implies #[trigger] after[i] == before[i] by {}
            assert forall|id: Seq<char>| #[trigger]
                attributes.deep_view().contains_key(id) <==> marks_tests(after, id) by {
                assert(known.contains_key(id) <==> marks_tests(before, id));
                if marks_tests(before, id) {
                    let i = choose|i: int|
                        0 <= i < before.len() && is_test_attribute(#[trigger] before[i])
                            && before[i].stable_id == id;
                    assert(is_test_attribute(after[i]));
                }
                if marks_tests(after, id) {
                    let i = choose|i: int|
                        0 <= i < after.len() && is_test_attribute(#[trigger] after[i])
                            && after[i].stable_id == id;
                    if i < index {
                        assert(is_test_attribute(before[i]));
                    }
                }
            }
        }
        index += 1;
    }
    assert(all.take(index as int) =~= all);
    attributes
}

/// Finds the nodes that are marked as tests.
fn collect_tests(tokens: &Vec<TokenStaticData>, shards: &Table<String, MutableShard>) -> (tests: Table<
    String,
    (),
>)
    ensures
        forall|id: Seq<char>| #[trigger]
            tests.deep_view().contains_key(id) <==> is_test(
                tokens.deep_view(),
                ordered::<String, MutableShardModel>(shards.deep_view()),
                id,
            ),
{
    let ghost t = tokens.deep_view();
    let ghost listing = ordered::<String, MutableShardModel>(shards.deep_view());
    let attributes = collect_test_attributes(tokens);
    let mut tests: Table<String, ()> = Table::new();
    let count = shards.len();
    let mut index: usize = 0;
    while index < count
        invariant
            index <= count,
            count == listing.len(),
            listing == ordered::<String, MutableShardModel>(shards.deep_view()),
            forall|id: Seq<char>| #[trigger]
                attributes.deep_view().contains_key(id) <==> marks_tests(t, id),
            forall|id: Seq<char>| #[trigger]
                tests.deep_view().contains_key(id) <==> is_test_before(t, listing, index as int, 0, id),
        decreases count - index,
    {
        let edges = &shards.value_at(index).edges;
        assert(listing[index as int].1.edges == edges.deep_view());
        let mut next: usize = 0;
        while next < edges.len()
            invariant
                index < listing.len(),
                next <= edges.len(),
                listing[index as int].1.edges == edges.deep_view(),
                forall|id: Seq<char>| #[trigger]
                    attributes.deep_view().contains_key(id) <==> marks_tests(t, id),
                forall|id: Seq<char>| #[trigger]
                    tests.deep_view().contains_key(id) <==> is_test_before(
                        t,
                        listing,
                        index as int,
                        next as int,
                        id,
                    ),
            decreases edges.len() - next,
        {
            let edge = &edges[next];
            let ghost known = tests.deep_view();
            let ghost e = edge.deep_view();
            assert(listing[index as int].1.edges[next as int] == e);
            if same_text(edge.kind.as_str(), "decorates") && attributes.contains(&edge.to) {
                tests.insert(edge.from.clone(), ());
            }
            proof {
                assert forall|id: Seq<char>| #[trigger]
                    tests.deep_view().contains_key(id) <==> is_test_before(
                        t,
                        listing,
                        index as int,
                        next + 1,
                        id,
                    ) by {
                    assert(known.contains_key(id) <==> is_test_before(
                        t,
                        listing,
                        index as int,
                        next as int,
                        id,
                    ));
                    lemma_test_before(t, listing, index as int, next as int, id);
                }
            }
            next += 1;
        }
        proof {
            assert forall|id: Seq<char>| #[trigger]
                tests.deep_view().contains_key(id) <==> is_test_before(t, listing, index + 1, 0, id) by {
                lemma_test_shard_done(t, listing, index as int, id);
            }
        }
        index += 1;
    }
    proof {
        assert forall|id: Seq<char>| #[trigger]
            tests.deep_view().contains_key(id) <==> is_test(t, listing, id) by {
            lemma_test_done(t, listing, id);
        }
    }
    tests
}

/// Whether a node is marked as a test by an edge of the first shards, or one of the first edges of
/// the next one.
spec fn is_test_before(
    tokens: Seq<TokenStaticDataModel>,
    listing: Seq<(Seq<char>, MutableShardModel)>,
    shards: int,
    edges: int,
    id: Seq<char>,
) -> bool {
    exists|s: int, e: int|
        (0 <= s < shards && 0 <= e < listing[s].1.edges.len() || s == shards && 0 <= e < edges)
            && is_test_mark(tokens, #[trigger] listing[s].1.edges[e])
            && listing[s].1.edges[e].from == id
}

proof fn lemma_test_before(
    tokens: Seq<TokenStaticDataModel>,
    listing: Seq<(Seq<char>, MutableShardModel)>,
    shards: int,
    edges: int,
    id: Seq<char>,
)
    requires
        0 <= shards < listing.len(),
        0 <= edges < listing[shards].1.edges.len(),
    ensures
        is_test_before(tokens, listing, shards, edges + 1, id) <==> is_test_before(
            tokens,
            listing,
            shards,
            edges,
            id,
        ) || is_test_mark(tokens, listing[shards].1.edges[edges])
            && listing[shards].1.edges[edges].from == id,
{
    if is_test_before(tokens, listing, shards, edges, id) {
        let (s, e) = choose|s: int, e: int|
            (0 <= s < shards && 0 <= e < listing[s].1.edges.len() || s == shards && 0 <= e < edges)
                && is_test_mark(tokens, #[trigger] listing[s].1.edges[e])
                && listing[s].1.edges[e].from == id;
        assert(is_test_mark(tokens, listing[s].1.edges[e]));
    }
}

proof fn lemma_test_shard_done(
    tokens: Seq<TokenStaticDataModel>,
    listing: Seq<(Seq<char>, MutableShardModel)>,
    shards: int,
    id: Seq<char>,
)
    requires
        0 <= shards < listing.len(),
    ensures
        is_test_before(tokens, listing, shards + 1, 0, id) <==> is_test_before(
            tokens,
            listing,
            shards,
            listing[shards].1.edges.len() as int,
            id,
        ),
{
}

proof fn lemma_test_done(
    tokens: Seq<TokenStaticDataModel>,
    listing: Seq<(Seq<char>, MutableShardModel)>,
    id: Seq<char>,
)
    ensures
        is_test_before(tokens, listing, listing.len() as int, 0, id) <==> is_test(
            tokens,
            listing,
            id,
        ),
{
}

/// Finds the edges from tests that a shard shows.
fn collect_shard_tests(
    tests: &Table<String, ()>,
    source: &String,
    edges: &Vec<GraphSnapshotEdge>,
    found: &mut Vec<(String, GraphSnapshotEdge)>,
    Ghost(tokens): Ghost<Seq<TokenStaticDataModel>>,
    Ghost(listing): Ghost<Seq<(Seq<char>, MutableShardModel)>>,
)
    requires
        forall|id: Seq<char>| #[trigger]
            tests.deep_view().contains_key(id) <==> is_test(tokens, listing, id),
    ensures
        final(found).deep_view() == old(found).deep_view() + shard_tests(
            tokens,
            listing,
            source@,
            edges.deep_view(),
            edges.deep_view().len() as int,
        ),
{
    let ghost start = found.deep_view();
    let ghost all = edges.deep_view();
    let mut index: usize = 0;
    assert(found.deep_view() =~= start + Seq::<(Seq<char>, GraphSnapshotEdgeModel)>::empty());
    while index < edges.len()
        invariant
            index <= edges.len(),
            all == edges.deep_view(),
            forall|id: Seq<char>| #[trigger]
                tests.deep_view().contains_key(id) <==> is_test(tokens, listing, id),
            found.deep_view() == start + shard_tests(tokens, listing, source@, all, index as int),
        decreases edges.len() - index,
    {
        let edge = &edges[index];
        assert(all[index as int] == edge.deep_view());
        if tests.contains(&edge.from) && (same_text(edge.kind.as_str(), "calls") || same_text(
            edge.kind.as_str(),
            "instantiates",
        )) {
            let ghost before = found.deep_view();
            let test = GraphSnapshotEdge {
                from: edge.from.clone(),
                to: edge.to.clone(),
                kind: "tests".to_owned(),
                evidence: edge.evidence.duplicate(),
            };
            let ghost added = (source@, test.deep_view());
            found.push((source.clone(), test));
            assert(found.deep_view() =~= before.push(added));
        }
        index += 1;
        assert(found.deep_view() =~= start + shard_tests(
            tokens,
            listing,
            source@,
            all,
            index as int,
        ));
    }
}

/// Adds the edges from tests to what they exercise.
fn add_tests(tokens: &Vec<TokenStaticData>, graph: &mut Graph)
    requires
        old(graph).well_formed(),
    ensures
        final(graph).well_formed(),
        ({
            let listing = ordered::<String, MutableShardModel>(old(graph).deep_view().shards);
            let tests = tests_of(tokens.deep_view(), listing, listing.len() as int);
            final(graph).deep_view() == tests_added(
                old(graph).deep_view(),
                tests,
                tests.len() as int,
            )
        }),
{
    let ghost start = graph.deep_view();
    let ghost t = tokens.deep_view();
    let ghost listing = ordered::<String, MutableShardModel>(start.shards);
    let tests = collect_tests(tokens, &graph.shards);
    let mut found: Vec<(String, GraphSnapshotEdge)> = Vec::new();
    let count = graph.shards.len();
    let mut index: usize = 0;
    assert(found.deep_view() =~= tests_of(t, listing, 0));
    while index < count
        invariant
            index <= count,
            count == listing.len(),
            start == graph.deep_view(),
            start == old(graph).deep_view(),
            graph.well_formed(),
            listing == ordered::<String, MutableShardModel>(start.shards),
            crate::table::lists::<String, MutableShardModel>(listing, start.shards),
            forall|id: Seq<char>| #[trigger]
                tests.deep_view().contains_key(id) <==> is_test(t, listing, id),
            found.deep_view() == tests_of(t, listing, index as int),
            forall|i: int|
                0 <= i < found.deep_view().len() ==> start.shards.contains_key(
                    (#[trigger] found.deep_view()[i]).0,
                ),
        decreases count - index,
    {
        let source = graph.shards.key_at(index);
        let shard = graph.shards.value_at(index);
        let ghost before = found.deep_view();
        assert(start.shards.contains_key(listing[index as int].0));
        collect_shard_tests(&tests, source, &shard.edges, &mut found, Ghost(t), Ghost(listing));
        proof {
            let edges = shard.edges.deep_view();
            lemma_shard_tests_source(t, listing, source@, edges, edges.len() as int);
            let more = shard_tests(t, listing, source@, edges, edges.len() as int);
            assert forall|i: int| 0 <= i < found.deep_view().len() implies start.shards.contains_key(
                (#[trigger] found.deep_view()[i]).0,
            ) by {
                if i < before.len() {
                    assert(found.deep_view()[i] == before[i]);
                } else {
                    assert(found.deep_view()[i] == more[i - before.len()]);
                }
            }
        }
        index += 1;
    }
    let ghost all = found.deep_view();
    let mut next: usize = 0;
    while next < found.len()
        invariant
            next <= found.len(),
            all == found.deep_view(),
            graph.well_formed(),
            forall|i: int|
                0 <= i < all.len() ==> graph.deep_view().shards.contains_key((#[trigger] all[i]).0),
            graph.deep_view() == tests_added(start, all, next as int),
        decreases found.len() - next,
    {
        assert(all[next as int] == found@[next as int].deep_view());
        let (source, edge) = &found[next];
        graph.add_edge(source, edge.duplicate());
        next += 1;
    }
}

proof fn lemma_shard_tests_source(
    tokens: Seq<TokenStaticDataModel>,
    listing: Seq<(Seq<char>, MutableShardModel)>,
    source: Seq<char>,
    edges: Seq<GraphSnapshotEdgeModel>,
    count: int,
)
    ensures
        forall|i: int|
            0 <= i < shard_tests(tokens, listing, source, edges, count).len() ==> (
            #[trigger] shard_tests(tokens, listing, source, edges, count)[i]).0 == source,
    decreases count,
{
    if count > 0 {
        lemma_shard_tests_source(tokens, listing, source, edges, count - 1);
        let fewer = shard_tests(tokens, listing, source, edges, count - 1);
        let all = shard_tests(tokens, listing, source, edges, count);
        assert forall|i: int| 0 <= i < all.len() implies (#[trigger] all[i]).0 == source by {
            if i < fewer.len() {
                assert(all[i] == fewer[i]);
            }
        }
    }
}

/// A shard in its final form: sorted, without repetitions, and with its digest.
pub open spec fn finished(
    target: Seq<char>,
    shard: MutableShardModel,
    checker_digest: Seq<char>,
    interface_fingerprint: Seq<char>,
) -> GraphSnapshotShardModel {
    let key = target + "\0"@ + shard.source;
    let nodes = without_repeats::<GraphSnapshotNode>(
        stable_sorted::<GraphSnapshotNode>(shard.nodes),
    );
    let edges = stable_sorted::<GraphSnapshotEdge>(shard.edges);
    let diagnostics = stable_sorted::<GraphSnapshotDiagnostic>(shard.diagnostics);
    let unresolved = without_repeats::<GraphSnapshotUnresolved>(
        stable_sorted::<GraphSnapshotUnresolved>(shard.unresolved),
    );
    GraphSnapshotShardModel {
        key,
        source: shard.source,
        checker_digest,
        interface_fingerprint,
        digest: json_digest(
            shard_json(
                key,
                shard.source,
                checker_digest,
                interface_fingerprint,
                nodes,
                edges,
                diagnostics,
                coverage_model(),
                unresolved,
            ),
        ),
        nodes,
        edges,
        diagnostics,
        coverage: coverage_model(),
        unresolved,
    }
}

/// The key of the shard of a source file.
pub fn shard_key(target: &str, source: &str) -> (key: String)
    ensures
        key@ == target@ + "\0"@ + source@,
{
    let mut key = target.to_owned();
    key.append("\0");
    key.append(source);
    key
}

/// Brings a shard into its final form.
fn finish_shard(
    target: &str,
    shard: MutableShard,
    checker_digest: String,
    interface_fingerprint: String,
) -> (result: GraphSnapshotShard)
    ensures
        result.deep_view() == finished(
            target@,
            shard.deep_view(),
            checker_digest@,
            interface_fingerprint@,
        ),
{
    let MutableShard { source, nodes, edges, diagnostics, unresolved } = shard;
    let mut nodes = nodes;
    let mut edges = edges;
    let mut diagnostics = diagnostics;
    let mut unresolved = unresolved;
    stable_sort(&mut nodes);
    drop_repeats(&mut nodes);
    stable_sort(&mut edges);
    stable_sort(&mut diagnostics);
    stable_sort(&mut unresolved);
    drop_repeats(&mut unresolved);
    let families = coverage();
    let key = shard_key(target, source.as_str());
    let digest = shard_digest(
        key.as_str(),
        source.as_str(),
        checker_digest.as_str(),
        interface_fingerprint.as_str(),
        &nodes,
        &edges,
        &diagnostics,
        &families,
        &unresolved,
    );
    GraphSnapshotShard {
        key,
        source,
        checker_digest,
        interface_fingerprint,
        digest,
        nodes,
        edges,
        diagnostics,
        coverage: families,
        unresolved,
    }
}

/// The first shards in their final form.
pub open spec fn shards_finished(
    target: Seq<char>,
    listing: Seq<(Seq<char>, MutableShardModel)>,
    digests: Map<Seq<char>, Seq<char>>,
    fingerprints: Map<Seq<char>, Seq<char>>,
    count: int,
) -> Result<Seq<GraphSnapshotShardModel>, GraphErrorModel>
    decreases count,
{
    if count <= 0 {
        Ok(Seq::empty())
    } else {
        match shards_finished(target, listing, digests, fingerprints, count - 1) {
            Err(error) => Err(error),
            Ok(before) => {
                let shard = listing[count - 1].1;
                if !digests.contains_key(shard.source) {
                    Err(GraphErrorModel::Failed("graph shard lost its checker source digest"@))
                } else if !fingerprints.contains_key(shard.source) {
                    Err(GraphErrorModel::Failed("graph shard lost its interface fingerprint"@))
                } else {
                    Ok(
                        before.push(
                            finished(
                                target,
                                shard,
                                digests[shard.source],
                                fingerprints[shard.source],
                            ),
                        ),
                    )
                }
            },
        }
    }
}

proof fn lemma_finished_error(
    target: Seq<char>,
    listing: Seq<(Seq<char>, MutableShardModel)>,
    digests: Map<Seq<char>, Seq<char>>,
    fingerprints: Map<Seq<char>, Seq<char>>,
    count: int,
    more: int,
)
    requires
        0 <= count <= more,
        shards_finished(target, listing, digests, fingerprints, count) is Err,
    ensures
        shards_finished(target, listing, digests, fingerprints, more) == shards_finished(
            target,
            listing,
            digests,
            fingerprints,
            count,
        ),
    decreases more - count,
{
    if count < more {
        lemma_finished_error(target, listing, digests, fingerprints, count, more - 1);
    }
}

/// Brings the shards into their final form.
fn finish_shards(
    target: &str,
    shards: Table<String, MutableShard>,
    digests: &Table<String, String>,
    fingerprints: &Table<String, String>,
) -> (result: Result<Vec<GraphSnapshotShard>, GraphError>)
    requires
        forall|source: Seq<char>| #[trigger]
            shards.deep_view().contains_key(source) ==> is_simple(
                shards.deep_view()[source].edges,
            ),
    ensures
        result is Ok ==> forall|i: int|
            0 <= i < result->Ok_0.deep_view().len() ==> is_tidy(
                #[trigger] result->Ok_0.deep_view()[i],
            ),
        outcome(result) == shards_finished(
            target@,
            ordered::<String, MutableShardModel>(shards.deep_view()),
            digests.deep_view(),
            fingerprints.deep_view(),
            ordered::<String, MutableShardModel>(shards.deep_view()).len() as int,
        ),
{
    let ghost listing = ordered::<String, MutableShardModel>(shards.deep_view());
    let ghost d = digests.deep_view();
    let ghost i = fingerprints.deep_view();
    let count = shards.len();
    proof {
        assert forall|at: int| 0 <= at < listing.len() implies is_simple(
            (#[trigger] listing[at]).1.edges,
        ) by {
            assert(shards.deep_view().contains_key(listing[at].0));
        }
    }
    let mut entries = shards.into_entries();
    let mut result: Vec<GraphSnapshotShard> = Vec::new();
    let mut index: usize = 0;
    assert(result.deep_view() =~= Seq::<GraphSnapshotShardModel>::empty());
    while index < count
        invariant
            index <= count,
            count == listing.len(),
            entries.len() == listing.len(),
            listing == ordered::<String, MutableShardModel>(shards.deep_view()),
            d == digests.deep_view(),
            i == fingerprints.deep_view(),
            forall|k: int|
                index <= k < listing.len() ==> (#[trigger] entries@[k]).deep_view() == listing[k],
            shards_finished(target@, listing, d, i, index as int) == Ok::<
                Seq<GraphSnapshotShardModel>,
                GraphErrorModel,
            >(result.deep_view()),
        decreases count - index,
    {
        assert(entries@[index as int].deep_view() == listing[index as int]);
        let mut shard = MutableShard::empty(String::new());
        std::mem::swap(&mut shard, &mut entries[index].1);
        assert(shard.deep_view() == listing[index as int].1);
        let checker_digest = match digests.get(&shard.source) {
            Some(digest) => digest.clone(),
            None => {
                proof {
                    lemma_finished_error(target@, listing, d, i, index + 1, listing.len() as int);
                }
                return Err(failure("graph shard lost its checker source digest"));
            },
        };
        let interface_fingerprint = match fingerprints.get(&shard.source) {
            Some(fingerprint) => fingerprint.clone(),
            None => {
                proof {
                    lemma_finished_error(target@, listing, d, i, index + 1, listing.len() as int);
                }
                return Err(failure("graph shard lost its interface fingerprint"));
            },
        };
        let ghost before = result.deep_view();
        let finished = finish_shard(target, shard, checker_digest, interface_fingerprint);
        let ghost added = finished.deep_view();
        result.push(finished);
        assert(result.deep_view() =~= before.push(added));
        index += 1;
    }
    proof {
        lemma_shards_tidy(target@, listing, d, i, listing.len() as int);
        let finished = shards_finished(target@, listing, d, i, listing.len() as int)->Ok_0;
        assert forall|at: int| 0 <= at < result.deep_view().len() implies is_tidy(
            #[trigger] result.deep_view()[at],
        ) by {
            assert(is_tidy(finished[at]));
        }
    }
    Ok(result)
}

/// The shards of a snapshot, and the source file that owns each node.
#[derive(Debug)]
pub struct BuiltShards {
    pub shards: Vec<GraphSnapshotShard>,
    pub node_owners: Table<String, String>,
}

/// The content of a [`BuiltShards`].
pub struct BuiltShardsModel {
    pub shards: Seq<GraphSnapshotShardModel>,
    pub node_owners: Map<Seq<char>, Seq<char>>,
}

impl DeepView for BuiltShards {
    type V = BuiltShardsModel;

    open spec fn deep_view(&self) -> BuiltShardsModel {
        BuiltShardsModel {
            shards: self.shards.deep_view(),
            node_owners: self.node_owners.deep_view(),
        }
    }
}

impl Plain for BuiltShards {
    fn duplicate(&self) -> (copy: Self) {
        BuiltShards {
            shards: self.shards.duplicate(),
            node_owners: self.node_owners.duplicate(),
        }
    }

    fn same(&self, other: &Self) -> (equal: bool) {
        self.shards.same(&other.shards)
            && self.node_owners.same(&other.node_owners)
    }
}

/// The shards that an index gives rise to.
pub open spec fn built(
    files: Map<FileId, SourceFileModel>,
    index: StaticIndexModel,
    target: Seq<char>,
    interface_fingerprints: Map<Seq<char>, Seq<char>>,
    source_inputs: Map<FileId, Seq<char>>,
    owners: Map<Seq<char>, Seq<char>>,
) -> Result<BuiltShardsModel, GraphErrorModel> {
    if !inputs_cover(index.files, source_inputs) {
        Err(
            GraphErrorModel::Retry(
                "graph source set moved beyond its validated disk inputs; retry"@,
            ),
        )
    } else {
        let sources = sources_of(files, index.files);
        let listing = ordered::<FileId, Seq<char>>(sources);
        let start = GraphModel { owners, shards: empty_shards(files, index.files) };
        let definitions = definitions_of(sources, index.tokens, index.tokens.len() as int);
        let placed = placements(files, sources, start, index.tokens);
        let named = files_placed(
            tokens_placed(files, sources, start, index.tokens, index.tokens.len() as int),
            listing,
            sources.len() as int,
        );
        let referenced = tokens_referenced(
            files,
            sources,
            definitions,
            placed,
            named,
            index.tokens,
            index.tokens.len() as int,
        );
        let related = relations_added(
            files,
            sources,
            referenced,
            index.relations,
            index.relations.len() as int,
        );
        match definitions_contained(
            files,
            sources,
            definitions,
            placed,
            index.tokens,
            related,
            definitions.len() as int,
        ) {
            Err(error) => Err(error),
            Ok(contained) => match files_detailed(
                files,
                index.files,
                index.tokens,
                contained,
                listing,
                sources.len() as int,
            ) {
                Err(error) => Err(error),
                Ok(detailed) => tested_and_finished(
                    files,
                    index,
                    target,
                    interface_fingerprints,
                    source_inputs,
                    detailed,
                ),
            },
        }
    }
}

/// The last two steps of [`built`]: the edges from tests, and the final form of the shards.
pub open spec fn tested_and_finished(
    files: Map<FileId, SourceFileModel>,
    index: StaticIndexModel,
    target: Seq<char>,
    interface_fingerprints: Map<Seq<char>, Seq<char>>,
    source_inputs: Map<FileId, Seq<char>>,
    graph: GraphModel,
) -> Result<BuiltShardsModel, GraphErrorModel> {
    let listing = ordered::<String, MutableShardModel>(graph.shards);
    let tests = tests_of(index.tokens, listing, listing.len() as int);
    let tested = tests_added(graph, tests, tests.len() as int);
    let shards = ordered::<String, MutableShardModel>(tested.shards);
    match shards_finished(
        target,
        shards,
        digests_of(files, index.files, source_inputs, index.files.len() as int),
        interface_fingerprints,
        shards.len() as int,
    ) {
        Err(error) => Err(error),
        Ok(finished) => Ok(
            BuiltShardsModel {
                shards: stable_sorted::<GraphSnapshotShard>(finished),
                node_owners: tested.owners,
            },
        ),
    }
}

/// Whether a shard is in order: nodes come in strictly increasing order of their identities, edges
/// in strictly increasing order of their ends and kinds, diagnostics and unresolved sites in order,
/// and no unresolved site repeats the one before it.
pub open spec fn is_tidy(shard: GraphSnapshotShardModel) -> bool {
    &&& forall|i: int, j: int|
        0 <= i < j < shard.nodes.len() ==> ranks_before::<GraphSnapshotNode>(
            #[trigger] shard.nodes[i],
            #[trigger] shard.nodes[j],
        )
    &&& forall|i: int, j: int|
        0 <= i < j < shard.edges.len() ==> ranks_before::<GraphSnapshotEdge>(
            #[trigger] shard.edges[i],
            #[trigger] shard.edges[j],
        )
    &&& is_ranked::<GraphSnapshotDiagnostic>(shard.diagnostics)
    &&& is_ranked::<GraphSnapshotUnresolved>(shard.unresolved)
    &&& forall|i: int, j: int|
        0 <= i && j == i + 1 && j < shard.unresolved.len() ==> !GraphSnapshotUnresolved::repeats(
            #[trigger] shard.unresolved[i],
            #[trigger] shard.unresolved[j],
        )
}

proof fn lemma_insert_simple(sorted: Seq<GraphSnapshotEdgeModel>, edge: GraphSnapshotEdgeModel)
    requires
        is_simple(sorted),
        !has_edge(sorted, edge.from, edge.to, edge.kind),
    ensures
        is_simple(insert_ranked::<GraphSnapshotEdge>(sorted, edge)),
        forall|from: Seq<char>, to: Seq<char>, kind: Seq<char>| #[trigger]
            has_edge(insert_ranked::<GraphSnapshotEdge>(sorted, edge), from, to, kind)
                ==> has_edge(sorted, from, to, kind) || (edge.from == from && edge.to == to
                && edge.kind == kind),
    decreases sorted.len(),
{
    let result = insert_ranked::<GraphSnapshotEdge>(sorted, edge);
    if sorted.len() > 0 && ranks_before::<GraphSnapshotEdge>(edge, sorted.last()) {
        let shorter = sorted.drop_last();
        let last = sorted.last();
        assert forall|from: Seq<char>, to: Seq<char>, kind: Seq<char>| #[trigger]
            has_edge(shorter, from, to, kind) implies has_edge(sorted, from, to, kind) by {
            let i = choose|i: int|
                0 <= i < shorter.len() && (#[trigger] shorter[i]).from == from && shorter[i].to
                    == to && shorter[i].kind == kind;
            assert(sorted[i] == shorter[i]);
        }
        assert(is_simple(shorter)) by {
            assert forall|i: int, j: int| 0 <= i < j < shorter.len() implies !((
            #[trigger] shorter[i]).from == (#[trigger] shorter[j]).from && shorter[i].to
                == shorter[j].to && shorter[i].kind == shorter[j].kind) by {
                assert(shorter[i] == sorted[i] && shorter[j] == sorted[j]);
            }
        }
        lemma_insert_simple(shorter, edge);
        let inner = insert_ranked::<GraphSnapshotEdge>(shorter, edge);
        assert(!has_edge(inner, last.from, last.to, last.kind)) by {
            if has_edge(shorter, last.from, last.to, last.kind) {
                let i = choose|i: int|
                    0 <= i < shorter.len() && (#[trigger] shorter[i]).from == last.from
                        && shorter[i].to == last.to && shorter[i].kind == last.kind;
                assert(shorter[i] == sorted[i] && sorted[sorted.len() - 1] == last);
            }
            if edge.from == last.from && edge.to == last.to && edge.kind == last.kind {
                assert(sorted[sorted.len() - 1] == last);
            }
        }
        lemma_push_simple(inner, last);
        assert(result == inner.push(last));
        assert forall|from: Seq<char>, to: Seq<char>, kind: Seq<char>| #[trigger]
            has_edge(result, from, to, kind) implies has_edge(sorted, from, to, kind) || (edge.from
            == from && edge.to == to && edge.kind == kind) by {
            if last.from == from && last.to == to && last.kind == kind {
                assert(sorted[sorted.len() - 1] == last);
            }
        }
    } else {
        lemma_push_simple(sorted, edge);
    }
}

proof fn lemma_push_simple(edges: Seq<GraphSnapshotEdgeModel>, edge: GraphSnapshotEdgeModel)
    requires
        is_simple(edges),
        !has_edge(edges, edge.from, edge.to, edge.kind),
    ensures
        is_simple(edges.push(edge)),
        forall|from: Seq<char>, to: Seq<char>, kind: Seq<char>| #[trigger]
            has_edge(edges.push(edge), from, to, kind) ==> has_edge(edges, from, to, kind) || (
            edge.from == from && edge.to == to && edge.kind == kind),
{
    let longer = edges.push(edge);
    assert forall|i: int, j: int| 0 <= i < j < longer.len() implies !((#[trigger] longer[i]).from
        == (#[trigger] longer[j]).from && longer[i].to == longer[j].to && longer[i].kind
        == longer[j].kind) by {
        assert(longer[i] == edges[i]);
        if j < edges.len() {
            assert(longer[j] == edges[j]);
        }
    }
    assert forall|from: Seq<char>, to: Seq<char>, kind: Seq<char>| #[trigger]
        has_edge(longer, from, to, kind) implies has_edge(edges, from, to, kind) || (edge.from
        == from && edge.to == to && edge.kind == kind) by {
        let i = choose|i: int|
            0 <= i < longer.len() && (#[trigger] longer[i]).from == from && longer[i].to == to
                && longer[i].kind == kind;
        if i < edges.len() {
            assert(edges[i] == longer[i]);
        }
    }
}

proof fn lemma_sorted_simple(edges: Seq<GraphSnapshotEdgeModel>)
    requires
        is_simple(edges),
    ensures
        is_simple(stable_sorted::<GraphSnapshotEdge>(edges)),
        forall|from: Seq<char>, to: Seq<char>, kind: Seq<char>| #[trigger]
            has_edge(stable_sorted::<GraphSnapshotEdge>(edges), from, to, kind) ==> has_edge(
                edges,
                from,
                to,
                kind,
            ),
    decreases edges.len(),
{
    if edges.len() > 0 {
        let shorter = edges.drop_last();
        let last = edges.last();
        assert forall|from: Seq<char>, to: Seq<char>, kind: Seq<char>| #[trigger]
            has_edge(shorter, from, to, kind) implies has_edge(edges, from, to, kind) by {
            let i = choose|i: int|
                0 <= i < shorter.len() && (#[trigger] shorter[i]).from == from && shorter[i].to
                    == to && shorter[i].kind == kind;
            assert(edges[i] == shorter[i]);
        }
        assert(is_simple(shorter)) by {
            assert forall|i: int, j: int| 0 <= i < j < shorter.len() implies !((
            #[trigger] shorter[i]).from == (#[trigger] shorter[j]).from && shorter[i].to
                == shorter[j].to && shorter[i].kind == shorter[j].kind) by {
                assert(shorter[i] == edges[i] && shorter[j] == edges[j]);
            }
        }
        lemma_sorted_simple(shorter);
        let sorted = stable_sorted::<GraphSnapshotEdge>(shorter);
        if has_edge(sorted, last.from, last.to, last.kind) {
            let i = choose|i: int|
                0 <= i < shorter.len() && (#[trigger] shorter[i]).from == last.from
                    && shorter[i].to == last.to && shorter[i].kind == last.kind;
            assert(shorter[i] == edges[i] && edges[edges.len() - 1] == last);
        }
        lemma_insert_simple(sorted, last);
        assert forall|from: Seq<char>, to: Seq<char>, kind: Seq<char>| #[trigger]
            has_edge(stable_sorted::<GraphSnapshotEdge>(edges), from, to, kind) implies has_edge(
            edges,
            from,
            to,
            kind,
        ) by {
            if last.from == from && last.to == to && last.kind == kind {
                assert(edges[edges.len() - 1] == last);
            }
        }
    }
}

/// A shard without repeated edges is tidy in its final form.
proof fn lemma_finished_tidy(
    target: Seq<char>,
    shard: MutableShardModel,
    checker_digest: Seq<char>,
    interface_fingerprint: Seq<char>,
)
    requires
        is_simple(shard.edges),
    ensures
        is_tidy(finished(target, shard, checker_digest, interface_fingerprint)),
{
    lemma_stable_sorted::<GraphSnapshotNode>(shard.nodes);
    lemma_repeats_dropped::<GraphSnapshotNode>(stable_sorted::<GraphSnapshotNode>(shard.nodes));
    lemma_stable_sorted::<GraphSnapshotDiagnostic>(shard.diagnostics);
    lemma_stable_sorted::<GraphSnapshotUnresolved>(shard.unresolved);
    lemma_neighbours_differ::<GraphSnapshotUnresolved>(
        stable_sorted::<GraphSnapshotUnresolved>(shard.unresolved),
    );
    lemma_stable_sorted::<GraphSnapshotEdge>(shard.edges);
    lemma_sorted_simple(shard.edges);
    let edges = stable_sorted::<GraphSnapshotEdge>(shard.edges);
    assert forall|i: int, j: int| 0 <= i < j < edges.len() implies ranks_before::<
        GraphSnapshotEdge,
    >(#[trigger] edges[i], #[trigger] edges[j]) by {
        assert(!ranks_before::<GraphSnapshotEdge>(edges[j], edges[i]));
        <((String, String), String) as Key>::lemma_total(
            GraphSnapshotEdge::rank(edges[i]),
            GraphSnapshotEdge::rank(edges[j]),
        );
    }
}

proof fn lemma_shards_tidy(
    target: Seq<char>,
    listing: Seq<(Seq<char>, MutableShardModel)>,
    digests: Map<Seq<char>, Seq<char>>,
    fingerprints: Map<Seq<char>, Seq<char>>,
    count: int,
)
    requires
        0 <= count <= listing.len(),
        forall|i: int| 0 <= i < listing.len() ==> is_simple((#[trigger] listing[i]).1.edges),
        shards_finished(target, listing, digests, fingerprints, count) is Ok,
    ensures
        forall|i: int|
            0 <= i < shards_finished(target, listing, digests, fingerprints, count)->Ok_0.len()
                ==> is_tidy(
                #[trigger] shards_finished(target, listing, digests, fingerprints, count)->Ok_0[i],
            ),
    decreases count,
{
    if count > 0 {
        lemma_shards_tidy(target, listing, digests, fingerprints, count - 1);
        let shard = listing[count - 1].1;
        lemma_finished_tidy(target, shard, digests[shard.source], fingerprints[shard.source]);
    }
}

/// Builds the shards that an index gives rise to. Nodes that source files outside of the index own
/// are given by their owners.
pub fn build_shards(
    files: &SourceFiles,
    index: &StaticIndex,
    universe: &GraphSnapshotUniverse,
    interface_fingerprints: &Table<String, String>,
    source_inputs: &Table<FileId, String>,
    owners: Table<String, String>,
) -> (result: Result<BuiltShards, GraphError>)
    ensures
        outcome(result) == built(
            files.deep_view(),
            index.deep_view(),
            universe.target@,
            interface_fingerprints.deep_view(),
            source_inputs.deep_view(),
            owners.deep_view(),
        ),
        result is Ok ==> forall|i: int|
            0 <= i < result->Ok_0.shards.deep_view().len() ==> is_tidy(
                #[trigger] result->Ok_0.shards.deep_view()[i],
            ),
{
    let tokens = index.tokens.data();
    let sources = match collect_sources(files, &index.files, source_inputs) {
        Ok(sources) => sources,
        Err(error) => return Err(error),
    };
    let paths = sources.paths;
    let mut graph = Graph::new(owners, sources.shards);
    let placed = place_tokens(files, &paths, &mut graph, tokens);
    place_files(&paths, &mut graph);
    let definitions = collect_definitions(&paths, tokens);
    proof {
        lemma_housed(files.deep_view(), index.deep_view(), owners.deep_view());
        assert(placed.len() == placed.deep_view().len());
    }
    add_references(files, &paths, &definitions, &placed, &mut graph, tokens);
    add_relations(files, &paths, &mut graph, &index.relations);
    match contain_definitions(files, &paths, &definitions, &placed, tokens, &mut graph) {
        Ok(_) => {},
        Err(error) => return Err(error),
    }
    match detail_files(files, &index.files, tokens, &paths, &mut graph) {
        Ok(_) => {},
        Err(error) => return Err(error),
    }
    add_tests(tokens, &mut graph);
    let Graph { owners, shards, edge_keys: _ } = graph;
    let mut shards = match finish_shards(
        universe.target.as_str(),
        shards,
        &sources.digests,
        interface_fingerprints,
    ) {
        Ok(shards) => shards,
        Err(error) => return Err(error),
    };
    let ghost finished = shards.deep_view();
    stable_sort(&mut shards);
    proof {
        assert forall|i: int| 0 <= i < shards.deep_view().len() implies is_tidy(
            #[trigger] shards.deep_view()[i],
        ) by {
            let shard = shards.deep_view()[i];
            lemma_stable_sorted_contains::<GraphSnapshotShard>(finished, shard);
            assert(stable_sorted::<GraphSnapshotShard>(finished).contains(shard));
            let at = choose|at: int| 0 <= at < finished.len() && finished[at] == shard;
            assert(is_tidy(finished[at]));
        }
    }
    Ok(BuiltShards { shards, node_owners: owners })
}

/// Once all nodes are added, each indexed file still has its shard.
proof fn lemma_housed(
    files: Map<FileId, SourceFileModel>,
    index: StaticIndexModel,
    owners: Map<Seq<char>, Seq<char>>,
)
    ensures
        ({
            let sources = sources_of(files, index.files);
            let start = GraphModel { owners, shards: empty_shards(files, index.files) };
            is_housed(
                sources,
                files_placed(
                    tokens_placed(files, sources, start, index.tokens, index.tokens.len() as int),
                    ordered::<FileId, Seq<char>>(sources),
                    sources.len() as int,
                ),
            )
        }),
{
    let sources = sources_of(files, index.files);
    let start = GraphModel { owners, shards: empty_shards(files, index.files) };
    assert forall|file_id: FileId| #[trigger] sources.contains_key(file_id) implies start.shards.contains_key(
        sources[file_id],
    ) by {
        let i = choose|i: int|
            0 <= i < index.files.len() && (#[trigger] index.files[i]).file_id == file_id;
        assert(crate::files::source_of(files, index.files[i].file_id) == sources[file_id]);
    }
    lemma_tokens_housed(files, sources, start, index.tokens, index.tokens.len() as int);
    lemma_files_housed(
        sources,
        tokens_placed(files, sources, start, index.tokens, index.tokens.len() as int),
        ordered::<FileId, Seq<char>>(sources),
        sources.len() as int,
    );
}

proof fn lemma_tokens_housed(
    files: Map<FileId, SourceFileModel>,
    sources: Map<FileId, Seq<char>>,
    graph: GraphModel,
    tokens: Seq<TokenStaticDataModel>,
    count: int,
)
    requires
        is_housed(sources, graph),
    ensures
        is_housed(sources, tokens_placed(files, sources, graph, tokens, count)),
    decreases count,
{
    if count > 0 {
        lemma_tokens_housed(files, sources, graph, tokens, count - 1);
    }
}

proof fn lemma_files_housed(
    sources: Map<FileId, Seq<char>>,
    graph: GraphModel,
    listing: Seq<(FileId, Seq<char>)>,
    count: int,
)
    requires
        is_housed(sources, graph),
    ensures
        is_housed(sources, files_placed(graph, listing, count)),
    decreases count,
{
    if count > 0 {
        lemma_files_housed(sources, graph, listing, count - 1);
    }
}

} // verus!
