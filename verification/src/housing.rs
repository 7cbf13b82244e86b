//! Which shards an index gives rise to, and what they hold at least.

use vstd::prelude::*;

use crate::edges::{
    DefinitionBodyModel, alias_node, definition_contained, definitions_contained, definitions_of,
    is_housed, owner_of, reference_added, reference_owner, relation_added, relation_edge,
    relations_added, target_node, target_source, token_referenced, tokens_referenced,
};
use crate::files::{
    FileId, FileRange, SourceDiagnosticModel, SourceFileModel, evidence_of, required_evidence_of,
    source_of,
};
use crate::graph::{
    GraphModel, MutableShardModel, claimed, claimed_if_free, has_edge, with_diagnostic, with_edge,
    with_node, with_unresolved,
};
use crate::nodes::{
    digests_of, empty_shards, file_node, file_node_id, files_placed, is_indexed, is_source,
    placements, reference_kind_name, sources_of, token_node, token_owner, token_placed, tokens_placed,
};
use crate::order::Key;
use crate::shards::{
    built, diagnostics_added, file_detailed, files_detailed, finished, is_conditional,
    severity_name, shard_tests, shards_finished, tests_added, tests_of,
};
use crate::snapshot::{
    GraphSnapshotDiagnosticModel, GraphSnapshotEdge, GraphSnapshotEdgeModel, GraphSnapshotNode,
    GraphSnapshotNodeModel, GraphSnapshotShard, GraphSnapshotShardModel,
    GraphSnapshotUnresolvedModel,
};
use crate::sorting::{
    lemma_stable_sorted, lemma_stable_sorted_contains, ranks_before, stable_sorted, without_repeats,
};
use crate::static_index::{
    ReferenceDataModel, StaticIndexModel, StaticIndexedFileModel, StaticRelationModel,
    TokenStaticDataModel,
};
use crate::table::{lemma_listed_length, lemma_ordered_lists, lists, ordered};
use crate::unresolved::{conditional_sites, coverage_model, gap_sites, unresolved_of};

verus! {

/// Whether a shard holds a node.
pub open spec fn holds_node(shard: MutableShardModel, node: GraphSnapshotNodeModel) -> bool {
    shard.nodes.contains(node)
}

/// Whether a shard is another one with more nodes, edges, diagnostics and unresolved sites.
pub open spec fn extends(before: MutableShardModel, after: MutableShardModel) -> bool {
    &&& after.source == before.source
    &&& forall|node: GraphSnapshotNodeModel| #[trigger]
        holds_node(before, node) ==> holds_node(after, node)
    &&& forall|from: Seq<char>, to: Seq<char>, kind: Seq<char>| #[trigger]
        has_edge(before.edges, from, to, kind) ==> has_edge(after.edges, from, to, kind)
}

/// Whether a graph is another one with more in the same shards, and owners for the same nodes at
/// least.
pub open spec fn keeps(before: GraphModel, after: GraphModel) -> bool {
    &&& after.shards.dom() == before.shards.dom()
    &&& forall|source: Seq<char>| #[trigger]
        before.shards.contains_key(source) ==> extends(before.shards[source], after.shards[source])
    &&& forall|id: Seq<char>| #[trigger]
        before.owners.contains_key(id) ==> after.owners.contains_key(id)
}

pub proof fn lemma_keeps_on(first: GraphModel, second: GraphModel, third: GraphModel)
    requires
        keeps(first, second),
        keeps(second, third),
    ensures
        keeps(first, third),
{
    assert forall|source: Seq<char>| #[trigger] first.shards.contains_key(source) implies extends(
        first.shards[source],
        third.shards[source],
    ) by {
        assert(second.shards.dom().contains(source));
        assert(extends(first.shards[source], second.shards[source]));
        assert(extends(second.shards[source], third.shards[source]));
        assert forall|node: GraphSnapshotNodeModel| #[trigger]
            holds_node(first.shards[source], node) implies holds_node(
            third.shards[source],
            node,
        ) by {
            assert(holds_node(second.shards[source], node));
        }
        assert forall|from: Seq<char>, to: Seq<char>, kind: Seq<char>| #[trigger]
            has_edge(first.shards[source].edges, from, to, kind) implies has_edge(
            third.shards[source].edges,
            from,
            to,
            kind,
        ) by {
            assert(has_edge(second.shards[source].edges, from, to, kind));
        }
    }
    assert forall|id: Seq<char>| #[trigger]
        first.owners.contains_key(id) implies third.owners.contains_key(id) by {
        assert(second.owners.contains_key(id));
    }
}

pub proof fn lemma_node_keeps(graph: GraphModel, source: Seq<char>, node: GraphSnapshotNodeModel)
    ensures
        keeps(graph, with_node(graph, source, node)),
        graph.shards.contains_key(source) ==> holds_node(
            with_node(graph, source, node).shards[source],
            node,
        ),
{
    let after = with_node(graph, source, node);
    assert(after.shards.dom() =~= graph.shards.dom());
    if graph.shards.contains_key(source) {
        let old_nodes = graph.shards[source].nodes;
        let new_nodes = after.shards[source].nodes;
        assert(new_nodes[old_nodes.len() as int] == node);
        assert forall|other: GraphSnapshotNodeModel| #[trigger]
            holds_node(graph.shards[source], other) implies holds_node(
            after.shards[source],
            other,
        ) by {
            let i = choose|i: int| 0 <= i < old_nodes.len() && old_nodes[i] == other;
            assert(new_nodes[i] == other);
        }
    }
}

pub proof fn lemma_edge_keeps(graph: GraphModel, source: Seq<char>, edge: GraphSnapshotEdgeModel)
    requires
        graph.shards.contains_key(source),
    ensures
        keeps(graph, with_edge(graph, source, edge)),
        has_edge(
            with_edge(graph, source, edge).shards[source].edges,
            edge.from,
            edge.to,
            edge.kind,
        ),
{
    let after = with_edge(graph, source, edge);
    let edges = graph.shards[source].edges;
    assert(after.shards.dom() =~= graph.shards.dom());
    if !has_edge(edges, edge.from, edge.to, edge.kind) {
        let longer = after.shards[source].edges;
        assert(longer[edges.len() as int] == edge);
        assert forall|from: Seq<char>, to: Seq<char>, kind: Seq<char>| #[trigger]
            has_edge(edges, from, to, kind) implies has_edge(longer, from, to, kind) by {
            let i = choose|i: int|
                0 <= i < edges.len() && (#[trigger] edges[i]).from == from && edges[i].to == to
                    && edges[i].kind == kind;
            assert(longer[i] == edges[i]);
        }
    }
}

pub proof fn lemma_claim_keeps(graph: GraphModel, id: Seq<char>, source: Seq<char>)
    ensures
        keeps(graph, claimed(graph, id, source)),
        keeps(graph, claimed_if_free(graph, id, source)),
{
}

pub proof fn lemma_diagnostic_keeps(
    graph: GraphModel,
    source: Seq<char>,
    diagnostic: GraphSnapshotDiagnosticModel,
)
    requires
        graph.shards.contains_key(source),
    ensures
        keeps(graph, with_diagnostic(graph, source, diagnostic)),
{
    assert(with_diagnostic(graph, source, diagnostic).shards.dom() =~= graph.shards.dom());
}

pub proof fn lemma_sites_keep(
    graph: GraphModel,
    source: Seq<char>,
    sites: Seq<GraphSnapshotUnresolvedModel>,
)
    requires
        graph.shards.contains_key(source),
    ensures
        keeps(graph, with_unresolved(graph, source, sites)),
{
    assert(with_unresolved(graph, source, sites).shards.dom() =~= graph.shards.dom());
}

pub proof fn lemma_token_keeps(
    files: Map<FileId, SourceFileModel>,
    sources: Map<FileId, Seq<char>>,
    graph: GraphModel,
    token: TokenStaticDataModel,
)
    ensures
        keeps(graph, token_placed(files, sources, graph, token)),
        match (token_node(files, token), token_owner(files, sources, graph.owners, token)) {
            (Some(node), Some(source)) => graph.shards.contains_key(source) ==> holds_node(
                token_placed(files, sources, graph, token).shards[source],
                node,
            ),
            _ => true,
        },
{
    match (token_node(files, token), token_owner(files, sources, graph.owners, token)) {
        (Some(node), Some(source)) => {
            let free = claimed_if_free(graph, node.id, source);
            lemma_claim_keeps(graph, node.id, source);
            lemma_node_keeps(free, source, node);
            lemma_keeps_on(graph, free, with_node(free, source, node));
        },
        _ => {},
    }
}

/// Adding more declarations keeps what was added before.
pub proof fn lemma_tokens_keep(
    files: Map<FileId, SourceFileModel>,
    sources: Map<FileId, Seq<char>>,
    graph: GraphModel,
    tokens: Seq<TokenStaticDataModel>,
    from: int,
    count: int,
)
    requires
        0 <= from <= count,
    ensures
        keeps(
            tokens_placed(files, sources, graph, tokens, from),
            tokens_placed(files, sources, graph, tokens, count),
        ),
    decreases count - from,
{
    if from < count {
        lemma_tokens_keep(files, sources, graph, tokens, from, count - 1);
        let before = tokens_placed(files, sources, graph, tokens, count - 1);
        lemma_token_keeps(files, sources, before, tokens[count - 1]);
        lemma_keeps_on(
            tokens_placed(files, sources, graph, tokens, from),
            before,
            tokens_placed(files, sources, graph, tokens, count),
        );
    }
}

pub proof fn lemma_files_keep(graph: GraphModel, listing: Seq<(FileId, Seq<char>)>, from: int, count: int)
    requires
        0 <= from <= count,
    ensures
        keeps(files_placed(graph, listing, from), files_placed(graph, listing, count)),
    decreases count - from,
{
    if from < count {
        lemma_files_keep(graph, listing, from, count - 1);
        let before = files_placed(graph, listing, count - 1);
        let source = listing[count - 1].1;
        let owned = claimed(before, file_node_id(source), source);
        lemma_claim_keeps(before, file_node_id(source), source);
        lemma_node_keeps(owned, source, file_node(source));
        lemma_keeps_on(before, owned, files_placed(graph, listing, count));
        lemma_keeps_on(
            files_placed(graph, listing, from),
            before,
            files_placed(graph, listing, count),
        );
    }
}

/// Every listed source file has its node in its shard.
proof fn lemma_file_placed(
    graph: GraphModel,
    listing: Seq<(FileId, Seq<char>)>,
    at: int,
    count: int,
)
    requires
        0 <= at < count,
        graph.shards.contains_key(listing[at].1),
    ensures
        holds_node(
            files_placed(graph, listing, count).shards[listing[at].1],
            file_node(listing[at].1),
        ),
{
    let source = listing[at].1;
    let before = files_placed(graph, listing, at);
    lemma_files_keep(graph, listing, 0, at);
    assert(before.shards.dom().contains(source));
    let owned = claimed(before, file_node_id(source), source);
    lemma_node_keeps(owned, source, file_node(source));
    let after = files_placed(graph, listing, at + 1);
    assert(after == with_node(owned, source, file_node(source)));
    assert(holds_node(after.shards[source], file_node(source)));
    lemma_files_keep(graph, listing, at + 1, count);
    assert(after.shards.dom() =~= owned.shards.dom());
    assert(after.shards.contains_key(source));
}

pub proof fn lemma_housed_on(sources: Map<FileId, Seq<char>>, before: GraphModel, after: GraphModel)
    requires
        is_housed(sources, before),
        keeps(before, after),
    ensures
        is_housed(sources, after),
{
    assert forall|file_id: FileId| #[trigger]
        sources.contains_key(file_id) implies after.shards.contains_key(sources[file_id]) by {
        assert(before.shards.dom().contains(sources[file_id]));
    }
}

pub proof fn lemma_reference_keeps(
    files: Map<FileId, SourceFileModel>,
    sources: Map<FileId, Seq<char>>,
    definitions: Seq<DefinitionBodyModel>,
    graph: GraphModel,
    token: TokenStaticDataModel,
    reference: ReferenceDataModel,
)
    requires
        is_housed(sources, graph),
    ensures
        keeps(graph, reference_added(files, sources, definitions, graph, token, reference)),
        !reference.is_definition && sources.contains_key(reference.range.file_id) ==> has_edge(
            reference_added(
                files,
                sources,
                definitions,
                graph,
                token,
                reference,
            ).shards[sources[reference.range.file_id]].edges,
            reference_from(sources, definitions, reference),
            token.stable_id,
            reference_edge_kind(reference),
        ),
{
    if !reference.is_definition && sources.contains_key(reference.range.file_id) {
        let source = sources[reference.range.file_id];
        let after = reference_added(files, sources, definitions, graph, token, reference);
        match reference.export {
            Some(export) => {
                let owned = claimed(graph, export.alias_id, source);
                let node = alias_node(files, source, token, export);
                let named = with_node(owned, source, node);
                let first = GraphSnapshotEdgeModel {
                    from: export.exporter,
                    to: export.alias_id,
                    kind: "exports"@,
                    evidence: evidence_of(files, export.alias_range),
                };
                let exported = with_edge(named, source, first);
                let second = GraphSnapshotEdgeModel {
                    from: export.alias_id,
                    to: token.stable_id,
                    kind: "references"@,
                    evidence: evidence_of(files, reference.range),
                };
                lemma_claim_keeps(graph, export.alias_id, source);
                lemma_node_keeps(owned, source, node);
                lemma_keeps_on(graph, owned, named);
                lemma_housed_on(sources, graph, named);
                lemma_edge_keeps(named, source, first);
                lemma_keeps_on(graph, named, exported);
                lemma_housed_on(sources, graph, exported);
                lemma_edge_keeps(exported, source, second);
                lemma_keeps_on(graph, exported, after);
            },
            None => {
                lemma_edge_keeps(
                    graph,
                    source,
                    GraphSnapshotEdgeModel {
                        from: reference_owner(definitions, source, reference),
                        to: token.stable_id,
                        kind: reference_kind_name(reference.role),
                        evidence: evidence_of(files, reference.range),
                    },
                );
            },
        }
    }
}

/// The node that the edge of a reference to a declaration starts from: the alias, where the
/// reference exports under one.
pub open spec fn reference_from(
    sources: Map<FileId, Seq<char>>,
    definitions: Seq<DefinitionBodyModel>,
    reference: ReferenceDataModel,
) -> Seq<char> {
    match reference.export {
        Some(export) => export.alias_id,
        None => reference_owner(definitions, sources[reference.range.file_id], reference),
    }
}

/// The kind of the edge of a reference to a declaration.
pub open spec fn reference_edge_kind(reference: ReferenceDataModel) -> Seq<char> {
    match reference.export {
        Some(_) => "references"@,
        None => reference_kind_name(reference.role),
    }
}

pub proof fn lemma_references_keep(
    files: Map<FileId, SourceFileModel>,
    sources: Map<FileId, Seq<char>>,
    definitions: Seq<DefinitionBodyModel>,
    graph: GraphModel,
    token: TokenStaticDataModel,
    from: int,
    count: int,
)
    requires
        is_housed(sources, graph),
        0 <= from <= count,
    ensures
        keeps(
            token_referenced(files, sources, definitions, graph, token, from),
            token_referenced(files, sources, definitions, graph, token, count),
        ),
        is_housed(sources, token_referenced(files, sources, definitions, graph, token, count)),
    decreases count,
{
    if count > 0 {
        let before = token_referenced(files, sources, definitions, graph, token, count - 1);
        let after = token_referenced(files, sources, definitions, graph, token, count);
        lemma_references_keep(files, sources, definitions, graph, token, if from < count {
            from
        } else {
            count - 1
        }, count - 1);
        lemma_reference_keeps(
            files,
            sources,
            definitions,
            before,
            token,
            token.references[count - 1],
        );
        lemma_housed_on(sources, before, after);
        if from < count {
            lemma_keeps_on(
                token_referenced(files, sources, definitions, graph, token, from),
                before,
                after,
            );
        }
    }
}

pub proof fn lemma_all_references_keep(
    files: Map<FileId, SourceFileModel>,
    sources: Map<FileId, Seq<char>>,
    definitions: Seq<DefinitionBodyModel>,
    placed: Seq<(bool, Option<Seq<char>>)>,
    graph: GraphModel,
    tokens: Seq<TokenStaticDataModel>,
    from: int,
    count: int,
)
    requires
        is_housed(sources, graph),
        0 <= from <= count,
    ensures
        keeps(
            tokens_referenced(files, sources, definitions, placed, graph, tokens, from),
            tokens_referenced(files, sources, definitions, placed, graph, tokens, count),
        ),
        is_housed(
            sources,
            tokens_referenced(files, sources, definitions, placed, graph, tokens, count),
        ),
    decreases count,
{
    if count > 0 {
        let before = tokens_referenced(
            files,
            sources,
            definitions,
            placed,
            graph,
            tokens,
            count - 1,
        );
        let after = tokens_referenced(files, sources, definitions, placed, graph, tokens, count);
        let token = tokens[count - 1];
        lemma_all_references_keep(
            files,
            sources,
            definitions,
            placed,
            graph,
            tokens,
            if from < count {
                from
            } else {
                count - 1
            },
            count - 1,
        );
        lemma_references_keep(
            files,
            sources,
            definitions,
            before,
            token,
            0,
            token.references.len() as int,
        );
        if from < count {
            lemma_keeps_on(
                tokens_referenced(files, sources, definitions, placed, graph, tokens, from),
                before,
                after,
            );
        }
    }
}

pub proof fn lemma_relation_keeps(
    files: Map<FileId, SourceFileModel>,
    sources: Map<FileId, Seq<char>>,
    graph: GraphModel,
    relation: StaticRelationModel,
)
    requires
        is_housed(sources, graph),
    ensures
        keeps(graph, relation_added(files, sources, graph, relation)),
{
    if sources.contains_key(relation.file_id) && graph.owners.contains_key(relation.from) {
        let source = sources[relation.file_id];
        if graph.owners.contains_key(relation.to) {
            lemma_edge_keeps(graph, source, relation_edge(relation));
        } else {
            match relation.to_display_name {
                None => {},
                Some(name) => {
                    let owner = match target_source(files, relation) {
                        Some(target) => target,
                        None => source,
                    };
                    let node = target_node(files, relation, name);
                    let added = with_node(graph, owner, node);
                    let named = claimed(added, relation.to, owner);
                    lemma_node_keeps(graph, owner, node);
                    lemma_claim_keeps(added, relation.to, owner);
                    lemma_keeps_on(graph, added, named);
                    lemma_housed_on(sources, graph, named);
                    lemma_edge_keeps(named, source, relation_edge(relation));
                    lemma_keeps_on(
                        graph,
                        named,
                        relation_added(files, sources, graph, relation),
                    );
                },
            }
        }
    }
}

pub proof fn lemma_relations_keep(
    files: Map<FileId, SourceFileModel>,
    sources: Map<FileId, Seq<char>>,
    graph: GraphModel,
    relations: Seq<StaticRelationModel>,
    count: int,
)
    requires
        is_housed(sources, graph),
    ensures
        keeps(graph, relations_added(files, sources, graph, relations, count)),
    decreases count,
{
    if count > 0 {
        lemma_relations_keep(files, sources, graph, relations, count - 1);
        let before = relations_added(files, sources, graph, relations, count - 1);
        lemma_housed_on(sources, graph, before);
        lemma_relation_keeps(files, sources, before, relations[count - 1]);
        lemma_keeps_on(
            graph,
            before,
            relations_added(files, sources, graph, relations, count),
        );
    }
}

pub proof fn lemma_definition_keeps(
    files: Map<FileId, SourceFileModel>,
    sources: Map<FileId, Seq<char>>,
    definitions: Seq<DefinitionBodyModel>,
    placed: Seq<(bool, Option<Seq<char>>)>,
    tokens: Seq<TokenStaticDataModel>,
    graph: GraphModel,
    definition: DefinitionBodyModel,
)
    ensures
        definition_contained(
            files,
            sources,
            definitions,
            placed,
            tokens,
            graph,
            definition,
        ) matches Ok(after) ==> keeps(graph, after),
{
    match placed[definition.token as int].1 {
        None => {},
        Some(source) => {
            if graph.shards.contains_key(source) {
                let token = tokens[definition.token as int];
                let file = file_node_id(sources[definition.body.file_id]);
                let at = match token.definition {
                    Some(range) => range,
                    None => definition.body,
                };
                let first = GraphSnapshotEdgeModel {
                    from: match owner_of(
                        definitions,
                        definition.body,
                        Some(definition.token),
                    ) {
                        Some(parent) => parent,
                        None => file,
                    },
                    to: definition.id,
                    kind: "contains"@,
                    evidence: evidence_of(files, at),
                };
                let contained = with_edge(graph, source, first);
                lemma_edge_keeps(graph, source, first);
                if token.exported {
                    let second = GraphSnapshotEdgeModel {
                        from: file,
                        to: definition.id,
                        kind: "exports"@,
                        evidence: evidence_of(files, at),
                    };
                    assert(contained.shards.dom().contains(source));
                    lemma_edge_keeps(contained, source, second);
                    lemma_keeps_on(graph, contained, with_edge(contained, source, second));
                }
            }
        },
    }
}

pub proof fn lemma_definitions_keep(
    files: Map<FileId, SourceFileModel>,
    sources: Map<FileId, Seq<char>>,
    definitions: Seq<DefinitionBodyModel>,
    placed: Seq<(bool, Option<Seq<char>>)>,
    tokens: Seq<TokenStaticDataModel>,
    graph: GraphModel,
    count: int,
)
    ensures
        definitions_contained(
            files,
            sources,
            definitions,
            placed,
            tokens,
            graph,
            count,
        ) matches Ok(after) ==> keeps(graph, after),
    decreases count,
{
    if count > 0 {
        lemma_definitions_keep(files, sources, definitions, placed, tokens, graph, count - 1);
        match definitions_contained(files, sources, definitions, placed, tokens, graph, count - 1) {
            Ok(before) => {
                lemma_definition_keeps(
                    files,
                    sources,
                    definitions,
                    placed,
                    tokens,
                    before,
                    definitions[count - 1],
                );
                match definition_contained(
                    files,
                    sources,
                    definitions,
                    placed,
                    tokens,
                    before,
                    definitions[count - 1],
                ) {
                    Ok(after) => {
                        lemma_keeps_on(graph, before, after);
                    },
                    Err(_) => {},
                }
            },
            Err(_) => {},
        }
    }
}

pub proof fn lemma_diagnostics_keep(
    files: Map<FileId, SourceFileModel>,
    source: Seq<char>,
    graph: GraphModel,
    diagnostics: Seq<SourceDiagnosticModel>,
    count: int,
)
    requires
        graph.shards.contains_key(source),
    ensures
        diagnostics_added(files, source, graph, diagnostics, count) matches Ok(after) ==> keeps(
            graph,
            after,
        ),
    decreases count,
{
    if count > 0 {
        lemma_diagnostics_keep(files, source, graph, diagnostics, count - 1);
        match diagnostics_added(files, source, graph, diagnostics, count - 1) {
            Ok(before) => {
                assert(before.shards.dom().contains(source));
                match diagnostics_added(files, source, graph, diagnostics, count) {
                    Ok(after) => {
                        let position = required_evidence_of(
                            files,
                            diagnostics[count - 1].range,
                        )->Ok_0;
                        let diagnostic = GraphSnapshotDiagnosticModel {
                            file: position.file,
                            line: position.start_line,
                            column: Some(position.start_column),
                            code: diagnostics[count - 1].code,
                            message: diagnostics[count - 1].message,
                            severity: Some(
                                severity_name(diagnostics[count - 1].severity),
                            ),
                        };
                        lemma_diagnostic_keeps(before, source, diagnostic);
                        assert(after == with_diagnostic(before, source, diagnostic));
                        lemma_keeps_on(graph, before, after);
                    },
                    Err(_) => {},
                }
            },
            Err(_) => {},
        }
    }
}

pub proof fn lemma_detail_keeps(
    files: Map<FileId, SourceFileModel>,
    indexed: Seq<StaticIndexedFileModel>,
    tokens: Seq<TokenStaticDataModel>,
    graph: GraphModel,
    file_id: FileId,
    source: Seq<char>,
)
    requires
        graph.shards.contains_key(source),
    ensures
        file_detailed(files, indexed, tokens, graph, file_id, source) matches Ok(after) ==> keeps(
            graph,
            after,
        ),
{
    if file_detailed(files, indexed, tokens, graph, file_id, source) is Ok {
        let analysis = files[file_id].analysis->0;
        let count = analysis.diagnostics.len() as int;
        lemma_diagnostics_keep(files, source, graph, analysis.diagnostics, count);
        let diagnosed = diagnostics_added(
            files,
            source,
            graph,
            analysis.diagnostics,
            count,
        )->Ok_0;
        let sites = unresolved_of(files, file_id, analysis, tokens)->Ok_0;
        let position = required_evidence_of(
            files,
            (FileRange { file_id, range: analysis.root }),
        )->Ok_0;
        let families = coverage_model();
        assert(diagnosed.shards.dom().contains(source));
        let found = with_unresolved(diagnosed, source, sites);
        lemma_sites_keep(diagnosed, source, sites);
        lemma_keeps_on(graph, diagnosed, found);
        let more = conditional_sites(families, position, families.len() as int);
        let conditional = if is_conditional(indexed, file_id) {
            with_unresolved(found, source, more)
        } else {
            found
        };
        assert(found.shards.dom().contains(source));
        lemma_sites_keep(found, source, more);
        if is_conditional(indexed, file_id) {
            lemma_keeps_on(graph, found, conditional);
        }
        assert(conditional.shards.dom().contains(source));
        let gaps = gap_sites(
            families,
            conditional.shards[source].unresolved,
            position,
            families.len() as int,
        );
        lemma_sites_keep(conditional, source, gaps);
        lemma_keeps_on(graph, conditional, with_unresolved(conditional, source, gaps));
    }
}

pub proof fn lemma_details_keep(
    files: Map<FileId, SourceFileModel>,
    indexed: Seq<StaticIndexedFileModel>,
    tokens: Seq<TokenStaticDataModel>,
    graph: GraphModel,
    listing: Seq<(FileId, Seq<char>)>,
    count: int,
)
    requires
        count <= listing.len(),
        forall|i: int| 0 <= i < listing.len() ==> graph.shards.contains_key((#[trigger] listing[i]).1),
    ensures
        files_detailed(files, indexed, tokens, graph, listing, count) matches Ok(after) ==> keeps(
            graph,
            after,
        ),
    decreases count,
{
    if count > 0 {
        lemma_details_keep(files, indexed, tokens, graph, listing, count - 1);
        match files_detailed(files, indexed, tokens, graph, listing, count - 1) {
            Ok(before) => {
                let (file_id, source) = listing[count - 1];
                assert(before.shards.dom().contains(source));
                lemma_detail_keeps(files, indexed, tokens, before, file_id, source);
                match file_detailed(files, indexed, tokens, before, file_id, source) {
                    Ok(after) => {
                        lemma_keeps_on(graph, before, after);
                    },
                    Err(_) => {},
                }
            },
            Err(_) => {},
        }
    }
}

proof fn lemma_shard_tests_home(
    tokens: Seq<TokenStaticDataModel>,
    listing: Seq<(Seq<char>, MutableShardModel)>,
    source: Seq<char>,
    edges: Seq<GraphSnapshotEdgeModel>,
    count: int,
)
    ensures
        forall|i: int|
            0 <= i < shard_tests(tokens, listing, source, edges, count).len() ==> (
            #[trigger] shard_tests(tokens, listing, source, edges, count)[i]).0 == source,
    decreases count,
{
    if count > 0 {
        lemma_shard_tests_home(tokens, listing, source, edges, count - 1);
        let before = shard_tests(tokens, listing, source, edges, count - 1);
        let all = shard_tests(tokens, listing, source, edges, count);
        assert forall|i: int| 0 <= i < all.len() implies (#[trigger] all[i]).0 == source by {
            if i < before.len() {
                assert(all[i] == before[i]);
            }
        }
    }
}

pub proof fn lemma_tests_home(
    tokens: Seq<TokenStaticDataModel>,
    listing: Seq<(Seq<char>, MutableShardModel)>,
    count: int,
    shards: Map<Seq<char>, MutableShardModel>,
)
    requires
        count <= listing.len(),
        forall|i: int| 0 <= i < listing.len() ==> shards.contains_key((#[trigger] listing[i]).0),
    ensures
        forall|i: int|
            0 <= i < tests_of(tokens, listing, count).len() ==> shards.contains_key(
                (#[trigger] tests_of(tokens, listing, count)[i]).0,
            ),
    decreases count,
{
    if count > 0 {
        lemma_tests_home(tokens, listing, count - 1, shards);
        let (source, shard) = listing[count - 1];
        let before = tests_of(tokens, listing, count - 1);
        let more = shard_tests(tokens, listing, source, shard.edges, shard.edges.len() as int);
        lemma_shard_tests_home(tokens, listing, source, shard.edges, shard.edges.len() as int);
        let all = tests_of(tokens, listing, count);
        assert forall|i: int| 0 <= i < all.len() implies shards.contains_key(
            (#[trigger] all[i]).0,
        ) by {
            if i < before.len() {
                assert(all[i] == before[i]);
            } else {
                assert(all[i] == more[i - before.len()]);
                assert(shards.contains_key(listing[count - 1].0));
            }
        }
    }
}

pub proof fn lemma_tests_keep(
    graph: GraphModel,
    tests: Seq<(Seq<char>, GraphSnapshotEdgeModel)>,
    count: int,
)
    requires
        count <= tests.len(),
        forall|i: int| 0 <= i < tests.len() ==> graph.shards.contains_key((#[trigger] tests[i]).0),
    ensures
        keeps(graph, tests_added(graph, tests, count)),
    decreases count,
{
    if count > 0 {
        lemma_tests_keep(graph, tests, count - 1);
        let before = tests_added(graph, tests, count - 1);
        assert(graph.shards.contains_key(tests[count - 1].0));
        assert(before.shards.dom().contains(tests[count - 1].0));
        lemma_edge_keeps(before, tests[count - 1].0, tests[count - 1].1);
        lemma_keeps_on(graph, before, tests_added(graph, tests, count));
    }
}

proof fn lemma_sources_finite(
    files: Map<FileId, SourceFileModel>,
    indexed: Seq<StaticIndexedFileModel>,
    count: int,
)
    requires
        0 <= count <= indexed.len(),
    ensures
        Set::new(|source: Seq<char>| is_source(files, indexed.take(count), source)).finite(),
    decreases count,
{
    let all = Set::new(|source: Seq<char>| is_source(files, indexed.take(count), source));
    if count > 0 {
        lemma_sources_finite(files, indexed, count - 1);
        let before = Set::new(
            |source: Seq<char>| is_source(files, indexed.take(count - 1), source),
        );
        let bound = before.insert(source_of(files, indexed[count - 1].file_id));
        assert forall|source: Seq<char>| #[trigger] all.contains(source) implies bound.contains(
            source,
        ) by {
            let some = indexed.take(count);
            let i = choose|i: int|
                0 <= i < some.len() && source_of(files, (#[trigger] some[i]).file_id) == source;
            if i < count - 1 {
                assert(indexed.take(count - 1)[i] == some[i]);
                assert(is_source(files, indexed.take(count - 1), source));
            }
        }
        assert(all.subset_of(bound));
        vstd::set_lib::lemma_set_subset_finite(bound, all);
    } else {
        assert(all =~= Set::empty());
    }
}

proof fn lemma_files_finite(indexed: Seq<StaticIndexedFileModel>, count: int)
    requires
        0 <= count <= indexed.len(),
    ensures
        Set::new(|file_id: FileId| is_indexed(indexed.take(count), file_id)).finite(),
    decreases count,
{
    let all = Set::new(|file_id: FileId| is_indexed(indexed.take(count), file_id));
    if count > 0 {
        lemma_files_finite(indexed, count - 1);
        let before = Set::new(|file_id: FileId| is_indexed(indexed.take(count - 1), file_id));
        let bound = before.insert(indexed[count - 1].file_id);
        assert forall|file_id: FileId| #[trigger] all.contains(file_id) implies bound.contains(
            file_id,
        ) by {
            let some = indexed.take(count);
            let i = choose|i: int|
                0 <= i < some.len() && (#[trigger] some[i]).file_id == file_id;
            if i < count - 1 {
                assert(indexed.take(count - 1)[i] == some[i]);
                assert(is_indexed(indexed.take(count - 1), file_id));
            }
        }
        assert(all.subset_of(bound));
        vstd::set_lib::lemma_set_subset_finite(bound, all);
    } else {
        assert(all =~= Set::empty());
    }
}

/// The graph of declarations and source files, before references.
pub open spec fn named_graph(
    files: Map<FileId, SourceFileModel>,
    index: StaticIndexModel,
    owners: Map<Seq<char>, Seq<char>>,
) -> GraphModel {
    let sources = sources_of(files, index.files);
    let start = GraphModel { owners, shards: empty_shards(files, index.files) };
    files_placed(
        tokens_placed(files, sources, start, index.tokens, index.tokens.len() as int),
        ordered::<FileId, Seq<char>>(sources),
        sources.len() as int,
    )
}

/// The graph of declarations, source files and references.
pub open spec fn referenced_graph(
    files: Map<FileId, SourceFileModel>,
    index: StaticIndexModel,
    owners: Map<Seq<char>, Seq<char>>,
) -> GraphModel {
    let sources = sources_of(files, index.files);
    let start = GraphModel { owners, shards: empty_shards(files, index.files) };
    tokens_referenced(
        files,
        sources,
        definitions_of(sources, index.tokens, index.tokens.len() as int),
        placements(files, sources, start, index.tokens),
        named_graph(files, index, owners),
        index.tokens,
        index.tokens.len() as int,
    )
}

/// The graph from which the shards are finished.
pub open spec fn whole_graph(
    files: Map<FileId, SourceFileModel>,
    index: StaticIndexModel,
    owners: Map<Seq<char>, Seq<char>>,
) -> GraphModel {
    let sources = sources_of(files, index.files);
    let start = GraphModel { owners, shards: empty_shards(files, index.files) };
    let definitions = definitions_of(sources, index.tokens, index.tokens.len() as int);
    let related = relations_added(
        files,
        sources,
        referenced_graph(files, index, owners),
        index.relations,
        index.relations.len() as int,
    );
    let contained = definitions_contained(
        files,
        sources,
        definitions,
        placements(files, sources, start, index.tokens),
        index.tokens,
        related,
        definitions.len() as int,
    )->Ok_0;
    let detailed = files_detailed(
        files,
        index.files,
        index.tokens,
        contained,
        ordered::<FileId, Seq<char>>(sources),
        sources.len() as int,
    )->Ok_0;
    let listing = ordered::<String, MutableShardModel>(detailed.shards);
    let tests = tests_of(index.tokens, listing, listing.len() as int);
    tests_added(detailed, tests, tests.len() as int)
}

/// The sources of an index are finitely many, and each has an empty shard at first.
pub proof fn lemma_start(
    files: Map<FileId, SourceFileModel>,
    index: StaticIndexModel,
    owners: Map<Seq<char>, Seq<char>>,
)
    ensures
        ({
            let sources = sources_of(files, index.files);
            let listing = ordered::<FileId, Seq<char>>(sources);
            let start = GraphModel { owners, shards: empty_shards(files, index.files) };
            &&& lists::<FileId, Seq<char>>(listing, sources)
            &&& listing.len() == sources.len()
            &&& start.shards.dom().finite()
            &&& is_housed(sources, start)
        }),
{
    let sources = sources_of(files, index.files);
    let start = GraphModel { owners, shards: empty_shards(files, index.files) };
    let count = index.files.len() as int;
    assert(index.files.take(count) =~= index.files);
    lemma_files_finite(index.files, count);
    lemma_sources_finite(files, index.files, count);
    assert(sources.dom() =~= Set::new(|file_id: FileId| is_indexed(index.files.take(count), file_id)));
    assert(start.shards.dom() =~= Set::new(
        |source: Seq<char>| is_source(files, index.files.take(count), source),
    ));
    lemma_ordered_lists::<FileId, Seq<char>>(sources);
    lemma_listed_length::<FileId, Seq<char>>(ordered::<FileId, Seq<char>>(sources), sources);
    assert forall|file_id: FileId| #[trigger]
        sources.contains_key(file_id) implies start.shards.contains_key(sources[file_id]) by {
        let i = choose|i: int|
            0 <= i < index.files.len() && (#[trigger] index.files[i]).file_id == file_id;
        assert(source_of(files, index.files[i].file_id) == sources[file_id]);
    }
}

/// Everything that is added to the empty shards stays, from one stage to the next.
pub proof fn lemma_stages(
    files: Map<FileId, SourceFileModel>,
    index: StaticIndexModel,
    target: Seq<char>,
    interface_fingerprints: Map<Seq<char>, Seq<char>>,
    source_inputs: Map<FileId, Seq<char>>,
    owners: Map<Seq<char>, Seq<char>>,
)
    requires
        built(files, index, target, interface_fingerprints, source_inputs, owners) is Ok,
    ensures
        ({
            let start = GraphModel { owners, shards: empty_shards(files, index.files) };
            let whole = whole_graph(files, index, owners);
            &&& keeps(start, named_graph(files, index, owners))
            &&& is_housed(sources_of(files, index.files), named_graph(files, index, owners))
            &&& keeps(named_graph(files, index, owners), referenced_graph(files, index, owners))
            &&& keeps(referenced_graph(files, index, owners), whole)
            &&& whole.shards.dom().finite()
            &&& whole.shards.dom() == start.shards.dom()
        }),
{
    let sources = sources_of(files, index.files);
    let start = GraphModel { owners, shards: empty_shards(files, index.files) };
    let listing = ordered::<FileId, Seq<char>>(sources);
    let count = index.tokens.len() as int;
    let placed = placements(files, sources, start, index.tokens);
    let definitions = definitions_of(sources, index.tokens, count);
    lemma_start(files, index, owners);
    let declared = tokens_placed(files, sources, start, index.tokens, count);
    let named = named_graph(files, index, owners);
    lemma_tokens_keep(files, sources, start, index.tokens, 0, count);
    lemma_files_keep(declared, listing, 0, sources.len() as int);
    lemma_keeps_on(start, declared, named);
    lemma_housed_on(sources, start, named);
    let referenced = referenced_graph(files, index, owners);
    lemma_all_references_keep(
        files,
        sources,
        definitions,
        placed,
        named,
        index.tokens,
        0,
        count,
    );
    let related = relations_added(
        files,
        sources,
        referenced,
        index.relations,
        index.relations.len() as int,
    );
    lemma_relations_keep(
        files,
        sources,
        referenced,
        index.relations,
        index.relations.len() as int,
    );
    lemma_definitions_keep(
        files,
        sources,
        definitions,
        placed,
        index.tokens,
        related,
        definitions.len() as int,
    );
    let contained = definitions_contained(
        files,
        sources,
        definitions,
        placed,
        index.tokens,
        related,
        definitions.len() as int,
    )->Ok_0;
    lemma_keeps_on(referenced, related, contained);
    lemma_keeps_on(named, referenced, contained);
    lemma_housed_on(sources, named, contained);
    assert forall|i: int| 0 <= i < listing.len() implies contained.shards.contains_key(
        (#[trigger] listing[i]).1,
    ) by {
        assert(sources.contains_key(listing[i].0));
    }
    lemma_details_keep(
        files,
        index.files,
        index.tokens,
        contained,
        listing,
        sources.len() as int,
    );
    let detailed = files_detailed(
        files,
        index.files,
        index.tokens,
        contained,
        listing,
        sources.len() as int,
    )->Ok_0;
    lemma_keeps_on(referenced, contained, detailed);
    assert(detailed.shards.dom() == start.shards.dom());
    lemma_ordered_lists::<String, MutableShardModel>(detailed.shards);
    let shards = ordered::<String, MutableShardModel>(detailed.shards);
    let tests = tests_of(index.tokens, shards, shards.len() as int);
    lemma_tests_home(index.tokens, shards, shards.len() as int, detailed.shards);
    lemma_tests_keep(detailed, tests, tests.len() as int);
    lemma_keeps_on(referenced, detailed, whole_graph(files, index, owners));
}

proof fn lemma_finished_list(
    target: Seq<char>,
    listing: Seq<(Seq<char>, MutableShardModel)>,
    digests: Map<Seq<char>, Seq<char>>,
    fingerprints: Map<Seq<char>, Seq<char>>,
    count: int,
)
    requires
        0 <= count <= listing.len(),
        shards_finished(target, listing, digests, fingerprints, count) is Ok,
    ensures
        ({
            let list = shards_finished(target, listing, digests, fingerprints, count)->Ok_0;
            &&& list.len() == count
            &&& forall|i: int|
                0 <= i < count ==> {
                    let source = (#[trigger] listing[i]).1.source;
                    &&& list[i] == finished(
                        target,
                        listing[i].1,
                        digests[source],
                        fingerprints[source],
                    )
                    &&& fingerprints.contains_key(source)
                }
        }),
    decreases count,
{
    if count > 0 {
        lemma_finished_list(target, listing, digests, fingerprints, count - 1);
    }
}

/// Whether a shard is that of a source file, finished from what a graph holds of it.
pub open spec fn is_finished_from(
    shard: GraphSnapshotShardModel,
    target: Seq<char>,
    graph: GraphModel,
    digests: Map<Seq<char>, Seq<char>>,
    fingerprints: Map<Seq<char>, Seq<char>>,
) -> bool {
    &&& graph.shards.contains_key(shard.source)
    &&& fingerprints.contains_key(shard.source)
    &&& shard == finished(
        target,
        graph.shards[shard.source],
        digests[shard.source],
        fingerprints[shard.source],
    )
}

/// The shards of a graph, in the order in which they are built.
pub open spec fn shards_of(
    target: Seq<char>,
    graph: GraphModel,
    digests: Map<Seq<char>, Seq<char>>,
    fingerprints: Map<Seq<char>, Seq<char>>,
) -> Seq<GraphSnapshotShardModel> {
    let listing = ordered::<String, MutableShardModel>(graph.shards);
    shards_finished(target, listing, digests, fingerprints, listing.len() as int)->Ok_0
}

/// Whether the shards of a graph can be built, each under its own source file.
pub open spec fn is_complete(
    target: Seq<char>,
    graph: GraphModel,
    digests: Map<Seq<char>, Seq<char>>,
    fingerprints: Map<Seq<char>, Seq<char>>,
) -> bool {
    let listing = ordered::<String, MutableShardModel>(graph.shards);
    &&& graph.shards.dom().finite()
    &&& shards_finished(target, listing, digests, fingerprints, listing.len() as int) is Ok
    &&& forall|source: Seq<char>| #[trigger]
        graph.shards.contains_key(source) ==> graph.shards[source].source == source
}

pub proof fn lemma_shards_of(
    target: Seq<char>,
    graph: GraphModel,
    digests: Map<Seq<char>, Seq<char>>,
    fingerprints: Map<Seq<char>, Seq<char>>,
)
    requires
        is_complete(target, graph, digests, fingerprints),
    ensures
        ({
            let list = shards_of(target, graph, digests, fingerprints);
            &&& forall|i: int|
                0 <= i < list.len() ==> is_finished_from(
                    #[trigger] list[i],
                    target,
                    graph,
                    digests,
                    fingerprints,
                )
            &&& forall|source: Seq<char>| #[trigger]
                graph.shards.contains_key(source) ==> exists|i: int|
                    0 <= i < list.len() && (#[trigger] list[i]).source == source
            &&& list.no_duplicates()
        }),
{
    let listing = ordered::<String, MutableShardModel>(graph.shards);
    let list = shards_of(target, graph, digests, fingerprints);
    lemma_ordered_lists::<String, MutableShardModel>(graph.shards);
    lemma_finished_list(target, listing, digests, fingerprints, listing.len() as int);
    assert forall|i: int| 0 <= i < list.len() implies is_finished_from(
        #[trigger] list[i],
        target,
        graph,
        digests,
        fingerprints,
    ) && list[i].source == listing[i].0 by {
        assert(graph.shards.contains_key(listing[i].0));
        assert(graph.shards[listing[i].0] == listing[i].1);
    }
    assert forall|source: Seq<char>| #[trigger]
        graph.shards.contains_key(source) implies exists|i: int|
        0 <= i < list.len() && (#[trigger] list[i]).source == source by {
        let i = choose|i: int| 0 <= i < listing.len() && (#[trigger] listing[i]).0 == source;
        assert(list[i].source == source);
    }
    assert forall|k: int, l: int|
        0 <= k < list.len() && 0 <= l < list.len() && k != l implies list[k] != list[l] by {
        assert(list[k].source == listing[k].0 && list[l].source == listing[l].0);
        if k < l {
            assert(<String as Key>::before(listing[k].0, listing[l].0));
        } else {
            assert(<String as Key>::before(listing[l].0, listing[k].0));
        }
        <String as Key>::lemma_irreflexive(listing[k].0);
    }
}

/// Keys tell source files apart.
proof fn lemma_one_source(target: Seq<char>, source: Seq<char>, other: Seq<char>)
    requires
        target + "\0"@ + source == target + "\0"@ + other,
    ensures
        source == other,
{
    let start = target.len() + "\0"@.len();
    assert((target + "\0"@ + source).skip(start as int) =~= source);
    assert((target + "\0"@ + other).skip(start as int) =~= other);
}

/// Sorted by key, the shards of a graph stand in strictly increasing key order.
pub proof fn lemma_sorted_shards(
    target: Seq<char>,
    graph: GraphModel,
    digests: Map<Seq<char>, Seq<char>>,
    fingerprints: Map<Seq<char>, Seq<char>>,
)
    requires
        is_complete(target, graph, digests, fingerprints),
    ensures
        ({
            let shards = stable_sorted::<GraphSnapshotShard>(
                shards_of(target, graph, digests, fingerprints),
            );
            &&& forall|i: int|
                0 <= i < shards.len() ==> is_finished_from(
                    #[trigger] shards[i],
                    target,
                    graph,
                    digests,
                    fingerprints,
                )
            &&& forall|source: Seq<char>| #[trigger]
                graph.shards.contains_key(source) ==> exists|i: int|
                    0 <= i < shards.len() && (#[trigger] shards[i]).source == source
            &&& forall|i: int, j: int|
                0 <= i < j < shards.len() ==> <String as Key>::before(
                    (#[trigger] shards[i]).key,
                    (#[trigger] shards[j]).key,
                )
        }),
{
    let list = shards_of(target, graph, digests, fingerprints);
    let shards = stable_sorted::<GraphSnapshotShard>(list);
    lemma_shards_of(target, graph, digests, fingerprints);
    lemma_stable_sorted::<GraphSnapshotShard>(list);
    list.lemma_multiset_has_no_duplicates();
    shards.lemma_multiset_has_no_duplicates_conv();
    assert forall|i: int| 0 <= i < shards.len() implies is_finished_from(
        #[trigger] shards[i],
        target,
        graph,
        digests,
        fingerprints,
    ) by {
        assert(shards.contains(shards[i]));
        lemma_stable_sorted_contains::<GraphSnapshotShard>(list, shards[i]);
        let k = choose|k: int| 0 <= k < list.len() && list[k] == shards[i];
        assert(is_finished_from(list[k], target, graph, digests, fingerprints));
    }
    assert forall|source: Seq<char>| #[trigger]
        graph.shards.contains_key(source) implies exists|i: int|
        0 <= i < shards.len() && (#[trigger] shards[i]).source == source by {
        let k = choose|k: int| 0 <= k < list.len() && (#[trigger] list[k]).source == source;
        assert(list.contains(list[k]));
        lemma_stable_sorted_contains::<GraphSnapshotShard>(list, list[k]);
        let i = choose|i: int| 0 <= i < shards.len() && shards[i] == list[k];
        assert(shards[i].source == source);
    }
    assert forall|i: int, j: int| 0 <= i < j < shards.len() implies <String as Key>::before(
        (#[trigger] shards[i]).key,
        (#[trigger] shards[j]).key,
    ) by {
        assert(!ranks_before::<GraphSnapshotShard>(shards[j], shards[i]));
        <String as Key>::lemma_total(shards[i].key, shards[j].key);
        assert(is_finished_from(shards[i], target, graph, digests, fingerprints));
        assert(is_finished_from(shards[j], target, graph, digests, fingerprints));
        if shards[i].key == shards[j].key {
            lemma_one_source(target, shards[i].source, shards[j].source);
            assert(shards[i] == shards[j]);
        }
    }
}

/// The shards that are built are those of the graph, one for each source file and in strictly
/// increasing key order.
pub proof fn lemma_built_list(
    files: Map<FileId, SourceFileModel>,
    index: StaticIndexModel,
    target: Seq<char>,
    interface_fingerprints: Map<Seq<char>, Seq<char>>,
    source_inputs: Map<FileId, Seq<char>>,
    owners: Map<Seq<char>, Seq<char>>,
)
    requires
        built(files, index, target, interface_fingerprints, source_inputs, owners) is Ok,
    ensures
        ({
            let shards = built(
                files,
                index,
                target,
                interface_fingerprints,
                source_inputs,
                owners,
            )->Ok_0.shards;
            let whole = whole_graph(files, index, owners);
            let digests = digests_of(
                files,
                index.files,
                source_inputs,
                index.files.len() as int,
            );
            &&& is_complete(target, whole, digests, interface_fingerprints)
            &&& shards == stable_sorted::<GraphSnapshotShard>(
                shards_of(target, whole, digests, interface_fingerprints),
            )
        }),
{
    lemma_stages(files, index, target, interface_fingerprints, source_inputs, owners);
    let whole = whole_graph(files, index, owners);
    let start = GraphModel { owners, shards: empty_shards(files, index.files) };
    lemma_keeps_on(start, named_graph(files, index, owners), referenced_graph(files, index, owners));
    lemma_keeps_on(start, referenced_graph(files, index, owners), whole);
    assert forall|source: Seq<char>| #[trigger]
        whole.shards.contains_key(source) implies whole.shards[source].source == source by {
        assert(start.shards.dom().contains(source));
        assert(extends(start.shards[source], whole.shards[source]));
    }
}

/// A snapshot is made of shards, one for each source file of the index and none besides, in strictly
/// increasing order of their keys. Each key is made of the target and the path of the source file,
/// and each shard carries the digest and the fingerprint of its source file.
pub proof fn law_one_shard_for_each_source(
    files: Map<FileId, SourceFileModel>,
    index: StaticIndexModel,
    target: Seq<char>,
    interface_fingerprints: Map<Seq<char>, Seq<char>>,
    source_inputs: Map<FileId, Seq<char>>,
    owners: Map<Seq<char>, Seq<char>>,
)
    ensures
        built(
            files,
            index,
            target,
            interface_fingerprints,
            source_inputs,
            owners,
        ) matches Ok(result) ==> {
            &&& forall|i: int, j: int|
                0 <= i < j < result.shards.len() ==> <String as Key>::before(
                    (#[trigger] result.shards[i]).key,
                    (#[trigger] result.shards[j]).key,
                )
            &&& forall|i: int|
                0 <= i < result.shards.len() ==> {
                    let shard = #[trigger] result.shards[i];
                    &&& is_source(files, index.files, shard.source)
                    &&& shard.key == target + "\0"@ + shard.source
                    &&& shard.checker_digest == digests_of(
                        files,
                        index.files,
                        source_inputs,
                        index.files.len() as int,
                    )[shard.source]
                    &&& shard.interface_fingerprint == interface_fingerprints[shard.source]
                    &&& shard.coverage == coverage_model()
                }
            &&& forall|source: Seq<char>| #[trigger]
                is_source(files, index.files, source) ==> exists|i: int|
                    0 <= i < result.shards.len() && (#[trigger] result.shards[i]).source == source
        },
{
    if built(files, index, target, interface_fingerprints, source_inputs, owners) is Ok {
        lemma_stages(files, index, target, interface_fingerprints, source_inputs, owners);
        lemma_built_list(files, index, target, interface_fingerprints, source_inputs, owners);
        lemma_sorted_shards(
            target,
            whole_graph(files, index, owners),
            digests_of(files, index.files, source_inputs, index.files.len() as int),
            interface_fingerprints,
        );
        let whole = whole_graph(files, index, owners);
        let shards = built(
            files,
            index,
            target,
            interface_fingerprints,
            source_inputs,
            owners,
        )->Ok_0.shards;
        let digests = digests_of(files, index.files, source_inputs, index.files.len() as int);
        let empty = empty_shards(files, index.files);
        assert forall|i: int| 0 <= i < shards.len() implies {
            let shard = #[trigger] shards[i];
            &&& is_source(files, index.files, shard.source)
            &&& shard.key == target + "\0"@ + shard.source
            &&& shard.checker_digest == digests[shard.source]
            &&& shard.interface_fingerprint == interface_fingerprints[shard.source]
            &&& shard.coverage == coverage_model()
        } by {
            assert(is_finished_from(shards[i], target, whole, digests, interface_fingerprints));
            assert(empty.dom().contains(shards[i].source));
        }
        assert forall|source: Seq<char>| #[trigger]
            is_source(files, index.files, source) implies exists|i: int|
            0 <= i < shards.len() && (#[trigger] shards[i]).source == source by {
            assert(empty.dom().contains(source));
            assert(whole.shards.contains_key(source));
        }
    }
}

/// Whether a shard names a node.
pub open spec fn names_node(shard: GraphSnapshotShardModel, id: Seq<char>) -> bool {
    exists|i: int| 0 <= i < shard.nodes.len() && (#[trigger] shard.nodes[i]).id == id
}

proof fn lemma_id_kept(nodes: Seq<GraphSnapshotNodeModel>, id: Seq<char>)
    requires
        exists|i: int| 0 <= i < nodes.len() && (#[trigger] nodes[i]).id == id,
    ensures
        ({
            let kept = without_repeats::<GraphSnapshotNode>(nodes);
            exists|i: int| 0 <= i < kept.len() && (#[trigger] kept[i]).id == id
        }),
    decreases nodes.len(),
{
    let shorter = nodes.drop_last();
    let before = without_repeats::<GraphSnapshotNode>(shorter);
    let kept = without_repeats::<GraphSnapshotNode>(nodes);
    if exists|i: int| 0 <= i < shorter.len() && (#[trigger] shorter[i]).id == id {
        lemma_id_kept(shorter, id);
        let i = choose|i: int| 0 <= i < before.len() && (#[trigger] before[i]).id == id;
        assert(kept[i] == before[i]);
    } else {
        let i = choose|i: int| 0 <= i < nodes.len() && (#[trigger] nodes[i]).id == id;
        if i < shorter.len() {
            assert(shorter[i].id == id);
        }
        assert(nodes.last().id == id);
        assert(kept[kept.len() - 1].id == id);
    }
}

/// What the graph holds of a source file stands in its shard.
pub proof fn lemma_finished_holds(
    shard: GraphSnapshotShardModel,
    target: Seq<char>,
    graph: GraphModel,
    digests: Map<Seq<char>, Seq<char>>,
    fingerprints: Map<Seq<char>, Seq<char>>,
)
    requires
        is_finished_from(shard, target, graph, digests, fingerprints),
    ensures
        forall|node: GraphSnapshotNodeModel| #[trigger]
            holds_node(graph.shards[shard.source], node) ==> names_node(shard, node.id),
        forall|from: Seq<char>, to: Seq<char>, kind: Seq<char>| #[trigger]
            has_edge(graph.shards[shard.source].edges, from, to, kind) ==> has_edge(
                shard.edges,
                from,
                to,
                kind,
            ),
{
    let from_shard = graph.shards[shard.source];
    let sorted = stable_sorted::<GraphSnapshotNode>(from_shard.nodes);
    assert forall|node: GraphSnapshotNodeModel| #[trigger]
        holds_node(from_shard, node) implies names_node(shard, node.id) by {
        lemma_stable_sorted_contains::<GraphSnapshotNode>(from_shard.nodes, node);
        let i = choose|i: int| 0 <= i < sorted.len() && sorted[i] == node;
        assert(sorted[i].id == node.id);
        lemma_id_kept(sorted, node.id);
    }
    let edges = from_shard.edges;
    assert forall|from: Seq<char>, to: Seq<char>, kind: Seq<char>| #[trigger]
        has_edge(edges, from, to, kind) implies has_edge(shard.edges, from, to, kind) by {
        let i = choose|i: int|
            0 <= i < edges.len() && (#[trigger] edges[i]).from == from && edges[i].to == to
                && edges[i].kind == kind;
        assert(edges.contains(edges[i]));
        lemma_stable_sorted_contains::<GraphSnapshotEdge>(edges, edges[i]);
        let j = choose|j: int| 0 <= j < shard.edges.len() && shard.edges[j] == edges[i];
        assert(shard.edges[j].from == from);
    }
}

/// Every shard names the node of its source file. The node of every declaration that has a name
/// stands in the shard of the source file that owns it, where that is one of the index.
pub proof fn law_declarations_have_nodes(
    files: Map<FileId, SourceFileModel>,
    index: StaticIndexModel,
    target: Seq<char>,
    interface_fingerprints: Map<Seq<char>, Seq<char>>,
    source_inputs: Map<FileId, Seq<char>>,
    owners: Map<Seq<char>, Seq<char>>,
)
    ensures
        ({
            let sources = sources_of(files, index.files);
            let start = GraphModel { owners, shards: empty_shards(files, index.files) };
            let placed = placements(files, sources, start, index.tokens);
            built(
                files,
                index,
                target,
                interface_fingerprints,
                source_inputs,
                owners,
            ) matches Ok(result) ==> {
                &&& forall|i: int|
                    0 <= i < result.shards.len() ==> names_node(
                        #[trigger] result.shards[i],
                        file_node_id(result.shards[i].source),
                    )
                &&& forall|i: int, t: int|
                    0 <= i < result.shards.len() && 0 <= t < index.tokens.len() && token_node(
                        files,
                        #[trigger] index.tokens[t],
                    ) is Some && placed[t].1 == Some((#[trigger] result.shards[i]).source)
                        ==> names_node(result.shards[i], index.tokens[t].stable_id)
            }
        }),
{
    if built(files, index, target, interface_fingerprints, source_inputs, owners) is Ok {
        let sources = sources_of(files, index.files);
        let start = GraphModel { owners, shards: empty_shards(files, index.files) };
        let placed = placements(files, sources, start, index.tokens);
        let listing = ordered::<FileId, Seq<char>>(sources);
        let count = index.tokens.len() as int;
        let declared = tokens_placed(files, sources, start, index.tokens, count);
        let named = named_graph(files, index, owners);
        let whole = whole_graph(files, index, owners);
        let digests = digests_of(files, index.files, source_inputs, index.files.len() as int);
        lemma_start(files, index, owners);
        lemma_stages(files, index, target, interface_fingerprints, source_inputs, owners);
        lemma_built_list(files, index, target, interface_fingerprints, source_inputs, owners);
        lemma_sorted_shards(
            target,
            whole_graph(files, index, owners),
            digests_of(files, index.files, source_inputs, index.files.len() as int),
            interface_fingerprints,
        );
        lemma_keeps_on(named, referenced_graph(files, index, owners), whole);
        lemma_tokens_keep(files, sources, start, index.tokens, 0, count);
        lemma_files_keep(declared, listing, 0, sources.len() as int);
        let shards = built(
            files,
            index,
            target,
            interface_fingerprints,
            source_inputs,
            owners,
        )->Ok_0.shards;
        assert forall|i: int| 0 <= i < shards.len() implies names_node(
            #[trigger] shards[i],
            file_node_id(shards[i].source),
        ) by {
            let source = shards[i].source;
            assert(is_finished_from(shards[i], target, whole, digests, interface_fingerprints));
            lemma_finished_holds(shards[i], target, whole, digests, interface_fingerprints);
            assert(start.shards.dom().contains(source));
            let f = choose|f: int|
                0 <= f < index.files.len() && source_of(
                    files,
                    (#[trigger] index.files[f]).file_id,
                ) == source;
            assert(is_indexed(index.files, index.files[f].file_id));
            assert(sources.contains_key(index.files[f].file_id));
            let k = choose|k: int|
                0 <= k < listing.len() && (#[trigger] listing[k]).0 == index.files[f].file_id;
            assert(listing[k].1 == source);
            assert(declared.shards.dom().contains(source));
            lemma_file_placed(declared, listing, k, sources.len() as int);
            assert(holds_node(named.shards[source], file_node(source)));
            assert(named.shards.dom().contains(source));
            assert(named.shards.contains_key(source));
            assert(holds_node(whole.shards[source], file_node(source)));
        }
        assert forall|i: int, t: int|
            0 <= i < shards.len() && 0 <= t < index.tokens.len() && token_node(
                files,
                #[trigger] index.tokens[t],
            ) is Some && placed[t].1 == Some((#[trigger] shards[i]).source) implies names_node(
            shards[i],
            index.tokens[t].stable_id,
        ) by {
            let source = shards[i].source;
            let token = index.tokens[t];
            let node = token_node(files, token)->0;
            assert(is_finished_from(shards[i], target, whole, digests, interface_fingerprints));
            lemma_finished_holds(shards[i], target, whole, digests, interface_fingerprints);
            let before = tokens_placed(files, sources, start, index.tokens, t);
            lemma_tokens_keep(files, sources, start, index.tokens, 0, t);
            assert(start.shards.dom().contains(source));
            assert(before.shards.dom().contains(source));
            lemma_token_keeps(files, sources, before, token);
            let after = tokens_placed(files, sources, start, index.tokens, t + 1);
            assert(after == token_placed(files, sources, before, token));
            assert(holds_node(after.shards[source], node));
            lemma_tokens_keep(files, sources, start, index.tokens, t + 1, count);
            assert(after.shards.dom().contains(source) && after.shards.contains_key(source));
            assert(holds_node(declared.shards[source], node));
            assert(declared.shards.dom().contains(source) && declared.shards.contains_key(source));
            assert(holds_node(named.shards[source], node));
            assert(named.shards.dom().contains(source) && named.shards.contains_key(source));
            assert(holds_node(whole.shards[source], node));
        }
    }
}

/// Every reference in a source file of the index to a declaration whose owner is known, other than
/// that by which it is declared, has its edge in the shard of that source file: from the alias, where
/// it exports under one, else from the innermost declaration around it or from the source file.
pub proof fn law_references_have_edges(
    files: Map<FileId, SourceFileModel>,
    index: StaticIndexModel,
    target: Seq<char>,
    interface_fingerprints: Map<Seq<char>, Seq<char>>,
    source_inputs: Map<FileId, Seq<char>>,
    owners: Map<Seq<char>, Seq<char>>,
    t: int,
    r: int,
)
    requires
        0 <= t < index.tokens.len(),
        0 <= r < index.tokens[t].references.len(),
        !index.tokens[t].references[r].is_definition,
        is_indexed(index.files, index.tokens[t].references[r].range.file_id),
        ({
            let sources = sources_of(files, index.files);
            let start = GraphModel { owners, shards: empty_shards(files, index.files) };
            placements(files, sources, start, index.tokens)[t].0
        }),
    ensures
        ({
            let sources = sources_of(files, index.files);
            let token = index.tokens[t];
            let reference = token.references[r];
            built(
                files,
                index,
                target,
                interface_fingerprints,
                source_inputs,
                owners,
            ) matches Ok(result) ==> exists|i: int|
                0 <= i < result.shards.len() && (#[trigger] result.shards[i]).source == source_of(
                    files,
                    reference.range.file_id,
                ) && has_edge(
                    result.shards[i].edges,
                    reference_from(
                        sources,
                        definitions_of(sources, index.tokens, index.tokens.len() as int),
                        reference,
                    ),
                    token.stable_id,
                    reference_edge_kind(reference),
                )
        }),
{
    if built(files, index, target, interface_fingerprints, source_inputs, owners) is Ok {
        let sources = sources_of(files, index.files);
        let start = GraphModel { owners, shards: empty_shards(files, index.files) };
        let placed = placements(files, sources, start, index.tokens);
        let definitions = definitions_of(sources, index.tokens, index.tokens.len() as int);
        let named = named_graph(files, index, owners);
        let referenced = referenced_graph(files, index, owners);
        let whole = whole_graph(files, index, owners);
        let digests = digests_of(files, index.files, source_inputs, index.files.len() as int);
        let count = index.tokens.len() as int;
        let token = index.tokens[t];
        let reference = token.references[r];
        let source = source_of(files, reference.range.file_id);
        let from = reference_from(sources, definitions, reference);
        let kind = reference_edge_kind(reference);
        lemma_stages(files, index, target, interface_fingerprints, source_inputs, owners);
        lemma_built_list(files, index, target, interface_fingerprints, source_inputs, owners);
        lemma_sorted_shards(
            target,
            whole_graph(files, index, owners),
            digests_of(files, index.files, source_inputs, index.files.len() as int),
            interface_fingerprints,
        );
        assert(sources.contains_key(reference.range.file_id));
        let before = tokens_referenced(
            files,
            sources,
            definitions,
            placed,
            named,
            index.tokens,
            t,
        );
        lemma_all_references_keep(files, sources, definitions, placed, named, index.tokens, 0, t);
        let half = token_referenced(files, sources, definitions, before, token, r);
        lemma_references_keep(files, sources, definitions, before, token, 0, r);
        lemma_reference_keeps(files, sources, definitions, half, token, reference);
        let made = token_referenced(files, sources, definitions, before, token, r + 1);
        assert(has_edge(made.shards[source].edges, from, token.stable_id, kind));
        lemma_references_keep(
            files,
            sources,
            definitions,
            before,
            token,
            r + 1,
            token.references.len() as int,
        );
        lemma_housed_on(sources, half, made);
        let after = tokens_referenced(
            files,
            sources,
            definitions,
            placed,
            named,
            index.tokens,
            t + 1,
        );
        assert(made.shards.contains_key(source));
        assert(has_edge(after.shards[source].edges, from, token.stable_id, kind));
        lemma_all_references_keep(
            files,
            sources,
            definitions,
            placed,
            named,
            index.tokens,
            t + 1,
            count,
        );
        assert(after.shards.dom().contains(source) && after.shards.contains_key(source));
        assert(has_edge(referenced.shards[source].edges, from, token.stable_id, kind));
        assert(referenced.shards.dom().contains(source) && referenced.shards.contains_key(source));
        assert(has_edge(whole.shards[source].edges, from, token.stable_id, kind));
        let shards = built(
            files,
            index,
            target,
            interface_fingerprints,
            source_inputs,
            owners,
        )->Ok_0.shards;
        assert(whole.shards.dom().contains(source) && whole.shards.contains_key(source));
        let i = choose|i: int| 0 <= i < shards.len() && (#[trigger] shards[i]).source == source;
        assert(is_finished_from(shards[i], target, whole, digests, interface_fingerprints));
        lemma_finished_holds(shards[i], target, whole, digests, interface_fingerprints);
        assert(has_edge(shards[i].edges, from, token.stable_id, kind));
    }
}

} // verus!
