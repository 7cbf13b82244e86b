//! In which order the shards list what they hold, and how often.

use vstd::prelude::*;
use vstd::string::*;

use crate::edges::{
    alias_node, definitions_contained, definitions_of, is_housed, owner_of, reference_owner,
    relation_edge, relations_added, target_node, target_source, token_referenced, tokens_referenced,
};
use crate::files::{FileId, SourceFileModel, evidence_of};
use crate::graph::{GraphModel, MutableShardModel, claimed, has_edge, with_edge, with_node};
use crate::grounding::{detailed_graph, is_alike, lemma_details_alike};
use crate::housing::{
    is_finished_from, lemma_built_list, lemma_definitions_keep, lemma_edge_keeps, lemma_housed_on,
    lemma_node_keeps, lemma_reference_keeps, lemma_relation_keeps, lemma_relations_keep,
    lemma_sorted_shards, lemma_stages, lemma_start, lemma_tests_home, named_graph, referenced_graph,
    whole_graph,
};
use crate::nodes::{
    digests_of, empty_shards, file_node_id, files_placed, placements, sources_of, tokens_placed,
};
use crate::order::Key;
use crate::restoring::lemma_places;
use crate::shards::{built, tests_added, tests_of};
use crate::snapshot::{
    GraphSnapshotDiagnostic, GraphSnapshotDiagnosticModel, GraphSnapshotEdge,
    GraphSnapshotEdgeModel, GraphSnapshotNode, GraphSnapshotNodeModel, GraphSnapshotUnresolved,
    GraphSnapshotUnresolvedModel,
};
use crate::sorting::{
    lemma_neighbours_differ, lemma_repeats_dropped, lemma_stable_sorted, ranks_before,
    stable_sorted, without_repeats,
};
use crate::static_index::{StaticIndexModel, StaticRelationModel, TokenStaticDataModel};
use crate::table::{lemma_ordered_lists, ordered};

verus! {

/// Whether two edges are of one kind and between the same nodes.
pub open spec fn is_same_edge(one: GraphSnapshotEdgeModel, other: GraphSnapshotEdgeModel) -> bool {
    one.from == other.from && one.to == other.to && one.kind == other.kind
}

/// Whether no two edges are of one kind and between the same nodes.
pub open spec fn are_single(edges: Seq<GraphSnapshotEdgeModel>) -> bool {
    forall|i: int, j: int|
        0 <= i < j < edges.len() ==> !is_same_edge(#[trigger] edges[i], #[trigger] edges[j])
}

/// Whether no shard of a graph has two edges of one kind between the same nodes.
spec fn is_single(graph: GraphModel) -> bool {
    forall|source: Seq<char>| #[trigger]
        graph.shards.contains_key(source) ==> are_single(graph.shards[source].edges)
}

proof fn lemma_tokens_single(
    files: Map<FileId, SourceFileModel>,
    sources: Map<FileId, Seq<char>>,
    graph: GraphModel,
    tokens: Seq<TokenStaticDataModel>,
    count: int,
)
    requires
        is_single(graph),
    ensures
        is_single(tokens_placed(files, sources, graph, tokens, count)),
    decreases count,
{
    if count > 0 {
        lemma_tokens_single(files, sources, graph, tokens, count - 1);
    }
}

proof fn lemma_files_single(graph: GraphModel, listing: Seq<(FileId, Seq<char>)>, count: int)
    requires
        is_single(graph),
    ensures
        is_single(files_placed(graph, listing, count)),
    decreases count,
{
    if count > 0 {
        lemma_files_single(graph, listing, count - 1);
    }
}

proof fn lemma_edge_single(graph: GraphModel, source: Seq<char>, edge: GraphSnapshotEdgeModel)
    requires
        is_single(graph),
        graph.shards.contains_key(source),
    ensures
        is_single(with_edge(graph, source, edge)),
{
    let after = with_edge(graph, source, edge);
    assert forall|other: Seq<char>| #[trigger]
        after.shards.contains_key(other) implies are_single(after.shards[other].edges) by {
        assert(graph.shards.contains_key(other));
        let before = graph.shards[other].edges;
        let now = after.shards[other].edges;
        assert(are_single(before));
        if other == source && !has_edge(before, edge.from, edge.to, edge.kind) {
            assert forall|i: int, j: int| 0 <= i < j < now.len() implies !is_same_edge(
                #[trigger] now[i],
                #[trigger] now[j],
            ) by {
                assert(now[i] == before[i]);
                if j < before.len() {
                    assert(now[j] == before[j]);
                }
            }
        }
    }
}

proof fn lemma_node_single(graph: GraphModel, source: Seq<char>, node: GraphSnapshotNodeModel)
    requires
        is_single(graph),
    ensures
        is_single(with_node(graph, source, node)),
{
    let after = with_node(graph, source, node);
    assert forall|other: Seq<char>| #[trigger]
        after.shards.contains_key(other) implies are_single(after.shards[other].edges) by {
        assert(graph.shards.contains_key(other));
    }
}

proof fn lemma_token_references_single(
    files: Map<FileId, SourceFileModel>,
    sources: Map<FileId, Seq<char>>,
    definitions: Seq<crate::edges::DefinitionBodyModel>,
    graph: GraphModel,
    token: TokenStaticDataModel,
    count: int,
)
    requires
        is_single(graph),
        is_housed(sources, graph),
        0 <= count <= token.references.len(),
    ensures
        is_single(token_referenced(files, sources, definitions, graph, token, count)),
        is_housed(sources, token_referenced(files, sources, definitions, graph, token, count)),
    decreases count,
{
    if count > 0 {
        lemma_token_references_single(files, sources, definitions, graph, token, count - 1);
        let before = token_referenced(files, sources, definitions, graph, token, count - 1);
        let after = token_referenced(files, sources, definitions, graph, token, count);
        let reference = token.references[count - 1];
        lemma_reference_keeps(files, sources, definitions, before, token, reference);
        lemma_housed_on(sources, before, after);
        if !reference.is_definition && sources.contains_key(reference.range.file_id) {
            let source = sources[reference.range.file_id];
            match reference.export {
                Some(export) => {
                    let owned = claimed(before, export.alias_id, source);
                    let node = alias_node(files, source, token, export);
                    let named = with_node(owned, source, node);
                    let first = GraphSnapshotEdgeModel {
                        from: export.exporter,
                        to: export.alias_id,
                        kind: "exports"@,
                        evidence: evidence_of(files, export.alias_range),
                    };
                    let second = GraphSnapshotEdgeModel {
                        from: export.alias_id,
                        to: token.stable_id,
                        kind: "references"@,
                        evidence: evidence_of(files, reference.range),
                    };
                    assert(is_single(owned));
                    lemma_node_single(owned, source, node);
                    lemma_edge_single(named, source, first);
                    lemma_edge_single(with_edge(named, source, first), source, second);
                },
                None => {
                    let edge = GraphSnapshotEdgeModel {
                        from: reference_owner(definitions, source, reference),
                        to: token.stable_id,
                        kind: crate::nodes::reference_kind_name(reference.role),
                        evidence: evidence_of(files, reference.range),
                    };
                    lemma_edge_single(before, source, edge);
                },
            }
        }
    }
}

proof fn lemma_references_single(
    files: Map<FileId, SourceFileModel>,
    sources: Map<FileId, Seq<char>>,
    definitions: Seq<crate::edges::DefinitionBodyModel>,
    placed: Seq<(bool, Option<Seq<char>>)>,
    graph: GraphModel,
    tokens: Seq<TokenStaticDataModel>,
    count: int,
)
    requires
        is_single(graph),
        is_housed(sources, graph),
        0 <= count <= tokens.len(),
    ensures
        is_single(
            tokens_referenced(files, sources, definitions, placed, graph, tokens, count),
        ),
        is_housed(
            sources,
            tokens_referenced(files, sources, definitions, placed, graph, tokens, count),
        ),
    decreases count,
{
    if count > 0 {
        lemma_references_single(files, sources, definitions, placed, graph, tokens, count - 1);
        lemma_token_references_single(
            files,
            sources,
            definitions,
            tokens_referenced(files, sources, definitions, placed, graph, tokens, count - 1),
            tokens[count - 1],
            tokens[count - 1].references.len() as int,
        );
    }
}

proof fn lemma_relations_single(
    files: Map<FileId, SourceFileModel>,
    sources: Map<FileId, Seq<char>>,
    graph: GraphModel,
    relations: Seq<StaticRelationModel>,
    count: int,
)
    requires
        is_single(graph),
        is_housed(sources, graph),
    ensures
        is_single(relations_added(files, sources, graph, relations, count)),
        is_housed(sources, relations_added(files, sources, graph, relations, count)),
    decreases count,
{
    if count > 0 {
        lemma_relations_single(files, sources, graph, relations, count - 1);
        let before = relations_added(files, sources, graph, relations, count - 1);
        let relation = relations[count - 1];
        lemma_relation_keeps(files, sources, before, relation);
        lemma_housed_on(
            sources,
            before,
            relations_added(files, sources, graph, relations, count),
        );
        if sources.contains_key(relation.file_id) && before.owners.contains_key(relation.from) {
            let source = sources[relation.file_id];
            let edge = relation_edge(relation);
            if before.owners.contains_key(relation.to) {
                lemma_edge_single(before, source, edge);
            } else {
                match relation.to_display_name {
                    None => {},
                    Some(name) => {
                        let owner = match target_source(files, relation) {
                            Some(target) => target,
                            None => source,
                        };
                        let node = target_node(files, relation, name);
                        let added = with_node(before, owner, node);
                        lemma_node_single(before, owner, node);
                        lemma_node_keeps(before, owner, node);
                        lemma_housed_on(sources, before, added);
                        assert(is_single(claimed(added, relation.to, owner)));
                        lemma_edge_single(claimed(added, relation.to, owner), source, edge);
                    },
                }
            }
        }
    }
}

proof fn lemma_definitions_single(
    files: Map<FileId, SourceFileModel>,
    sources: Map<FileId, Seq<char>>,
    definitions: Seq<crate::edges::DefinitionBodyModel>,
    placed: Seq<(bool, Option<Seq<char>>)>,
    tokens: Seq<TokenStaticDataModel>,
    graph: GraphModel,
    count: int,
)
    requires
        is_single(graph),
        definitions_contained(files, sources, definitions, placed, tokens, graph, count) is Ok,
    ensures
        is_single(
            definitions_contained(
                files,
                sources,
                definitions,
                placed,
                tokens,
                graph,
                count,
            )->Ok_0,
        ),
    decreases count,
{
    if count > 0 {
        lemma_definitions_single(files, sources, definitions, placed, tokens, graph, count - 1);
        let before = definitions_contained(
            files,
            sources,
            definitions,
            placed,
            tokens,
            graph,
            count - 1,
        )->Ok_0;
        let definition = definitions[count - 1];
        match placed[definition.token as int].1 {
            None => {},
            Some(source) => {
                let token = tokens[definition.token as int];
                let file = file_node_id(sources[definition.body.file_id]);
                let at = match token.definition {
                    Some(range) => range,
                    None => definition.body,
                };
                let first = GraphSnapshotEdgeModel {
                    from: match owner_of(definitions, definition.body, Some(definition.token)) {
                        Some(parent) => parent,
                        None => file,
                    },
                    to: definition.id,
                    kind: "contains"@,
                    evidence: evidence_of(files, at),
                };
                let second = GraphSnapshotEdgeModel {
                    from: file,
                    to: definition.id,
                    kind: "exports"@,
                    evidence: evidence_of(files, at),
                };
                lemma_edge_single(before, source, first);
                lemma_edge_keeps(before, source, first);
                let contained = with_edge(before, source, first);
                assert(contained.shards.dom().contains(source));
                lemma_edge_single(contained, source, second);
            },
        }
    }
}

proof fn lemma_tests_single(
    graph: GraphModel,
    tests: Seq<(Seq<char>, GraphSnapshotEdgeModel)>,
    count: int,
)
    requires
        is_single(graph),
        0 <= count <= tests.len(),
        forall|i: int| 0 <= i < tests.len() ==> graph.shards.contains_key((#[trigger] tests[i]).0),
    ensures
        is_single(tests_added(graph, tests, count)),
        tests_added(graph, tests, count).shards.dom() == graph.shards.dom(),
    decreases count,
{
    if count > 0 {
        lemma_tests_single(graph, tests, count - 1);
        let before = tests_added(graph, tests, count - 1);
        let after = tests_added(graph, tests, count);
        assert(graph.shards.contains_key(tests[count - 1].0));
        assert(before.shards.dom().contains(tests[count - 1].0));
        lemma_edge_single(before, tests[count - 1].0, tests[count - 1].1);
        assert(after.shards.dom() =~= graph.shards.dom());
    }
}

proof fn lemma_whole_single(
    files: Map<FileId, SourceFileModel>,
    index: StaticIndexModel,
    target: Seq<char>,
    interface_fingerprints: Map<Seq<char>, Seq<char>>,
    source_inputs: Map<FileId, Seq<char>>,
    owners: Map<Seq<char>, Seq<char>>,
)
    requires
        built(files, index, target, interface_fingerprints, source_inputs, owners) is Ok,
    ensures
        is_single(whole_graph(files, index, owners)),
{
    let sources = sources_of(files, index.files);
    let start = GraphModel { owners, shards: empty_shards(files, index.files) };
    let listing = ordered::<FileId, Seq<char>>(sources);
    let count = index.tokens.len() as int;
    let placed = placements(files, sources, start, index.tokens);
    let definitions = definitions_of(sources, index.tokens, count);
    let declared = tokens_placed(files, sources, start, index.tokens, count);
    let named = named_graph(files, index, owners);
    let referenced = referenced_graph(files, index, owners);
    let n = index.relations.len() as int;
    let related = relations_added(files, sources, referenced, index.relations, n);
    let contained = definitions_contained(
        files,
        sources,
        definitions,
        placed,
        index.tokens,
        related,
        definitions.len() as int,
    )->Ok_0;
    lemma_start(files, index, owners);
    lemma_stages(files, index, target, interface_fingerprints, source_inputs, owners);
    assert(is_single(start));
    lemma_tokens_single(files, sources, start, index.tokens, count);
    lemma_files_single(declared, listing, sources.len() as int);
    lemma_references_single(files, sources, definitions, placed, named, index.tokens, count);
    lemma_relations_single(files, sources, referenced, index.relations, n);
    lemma_definitions_single(
        files,
        sources,
        definitions,
        placed,
        index.tokens,
        related,
        definitions.len() as int,
    );
    lemma_definitions_keep(
        files,
        sources,
        definitions,
        placed,
        index.tokens,
        related,
        definitions.len() as int,
    );
    lemma_housed_on(sources, related, contained);
    assert forall|i: int| 0 <= i < listing.len() implies contained.shards.contains_key(
        (#[trigger] listing[i]).1,
    ) by {
        assert(sources.contains_key(listing[i].0));
    }
    lemma_details_alike(
        files,
        index.files,
        index.tokens,
        contained,
        listing,
        sources.len() as int,
    );
    let detailed = detailed_graph(files, index, owners);
    assert(is_alike(contained, detailed));
    assert forall|source: Seq<char>| #[trigger] detailed.shards.contains_key(
        source,
    ) implies are_single(detailed.shards[source].edges) by {
        assert(contained.shards.dom().contains(source));
        assert(contained.shards.contains_key(source));
    }
    lemma_relations_keep(files, sources, referenced, index.relations, n);
    assert(detailed.shards.dom() == start.shards.dom());
    let shards = ordered::<String, MutableShardModel>(detailed.shards);
    let tests = tests_of(index.tokens, shards, shards.len() as int);
    lemma_ordered_lists::<String, MutableShardModel>(detailed.shards);
    lemma_tests_home(index.tokens, shards, shards.len() as int, detailed.shards);
    lemma_tests_single(detailed, tests, tests.len() as int);
}

/// Whether an edge comes before another: by where it starts, then by where it leads, then by its kind.
pub open spec fn is_edge_before(
    one: GraphSnapshotEdgeModel,
    other: GraphSnapshotEdgeModel,
) -> bool {
    ||| <String as Key>::before(one.from, other.from)
    ||| one.from == other.from && <String as Key>::before(one.to, other.to)
    ||| one.from == other.from && one.to == other.to && <String as Key>::before(
        one.kind,
        other.kind,
    )
}

/// Whether a site comes before another: by its family, then by its place, then by its reason.
pub open spec fn is_site_before(
    one: GraphSnapshotUnresolvedModel,
    other: GraphSnapshotUnresolvedModel,
) -> bool {
    let a = one.evidence;
    let b = other.evidence;
    ||| <String as Key>::before(one.family, other.family)
    ||| one.family == other.family && {
        ||| <String as Key>::before(a.file, b.file)
        ||| a.file == b.file && a.start_line < b.start_line
        ||| a.file == b.file && a.start_line == b.start_line && a.start_column < b.start_column
        ||| a.file == b.file && a.start_line == b.start_line && a.start_column == b.start_column
            && <String as Key>::before(one.reason, other.reason)
    }
}

/// Whether a diagnostic comes before another: by the line that it is about.
pub open spec fn is_diagnostic_before(
    one: GraphSnapshotDiagnosticModel,
    other: GraphSnapshotDiagnosticModel,
) -> bool {
    ||| <String as Key>::before(one.file, other.file)
    ||| one.file == other.file && one.line < other.line
}

/// A shard lists its nodes in increasing order of their identities, one for each of these, its edges
/// in order, one of each kind between two nodes, and its diagnostics and unresolved sites in order.
pub proof fn law_shards_are_in_order(
    files: Map<FileId, SourceFileModel>,
    index: StaticIndexModel,
    target: Seq<char>,
    interface_fingerprints: Map<Seq<char>, Seq<char>>,
    source_inputs: Map<FileId, Seq<char>>,
    owners: Map<Seq<char>, Seq<char>>,
    s: int,
)
    ensures
        built(
            files,
            index,
            target,
            interface_fingerprints,
            source_inputs,
            owners,
        ) matches Ok(result) ==> 0 <= s < result.shards.len() ==> {
            let shard = result.shards[s];
            &&& forall|i: int, j: int|
                0 <= i < j < shard.nodes.len() ==> <String as Key>::before(
                    (#[trigger] shard.nodes[i]).id,
                    (#[trigger] shard.nodes[j]).id,
                )
            &&& forall|i: int, j: int|
                0 <= i < j < shard.edges.len() ==> !is_edge_before(
                    #[trigger] shard.edges[j],
                    #[trigger] shard.edges[i],
                )
            &&& are_single(shard.edges)
            &&& forall|i: int, j: int|
                0 <= i < j < shard.diagnostics.len() ==> !is_diagnostic_before(
                    #[trigger] shard.diagnostics[j],
                    #[trigger] shard.diagnostics[i],
                )
            &&& forall|i: int, j: int|
                0 <= i < j < shard.unresolved.len() ==> !is_site_before(
                    #[trigger] shard.unresolved[j],
                    #[trigger] shard.unresolved[i],
                )
        },
{
    let outcome = built(files, index, target, interface_fingerprints, source_inputs, owners);
    if outcome is Ok && 0 <= s < outcome->Ok_0.shards.len() {
        let shard = outcome->Ok_0.shards[s];
        let whole = whole_graph(files, index, owners);
        let digests = digests_of(files, index.files, source_inputs, index.files.len() as int);
        lemma_stages(files, index, target, interface_fingerprints, source_inputs, owners);
        lemma_built_list(files, index, target, interface_fingerprints, source_inputs, owners);
        lemma_sorted_shards(target, whole, digests, interface_fingerprints);
        assert(is_finished_from(shard, target, whole, digests, interface_fingerprints));
        lemma_whole_single(files, index, target, interface_fingerprints, source_inputs, owners);
        let held = whole.shards[shard.source];
        lemma_nodes_in_order(held.nodes);
        lemma_edges_in_order(held.edges);
        lemma_details_in_order(held.diagnostics, held.unresolved);
    }
}

proof fn lemma_nodes_in_order(nodes: Seq<GraphSnapshotNodeModel>)
    ensures
        ({
            let listed = without_repeats::<GraphSnapshotNode>(
                stable_sorted::<GraphSnapshotNode>(nodes),
            );
            forall|i: int, j: int|
                0 <= i < j < listed.len() ==> <String as Key>::before(
                    (#[trigger] listed[i]).id,
                    (#[trigger] listed[j]).id,
                )
        }),
{
    let sorted = stable_sorted::<GraphSnapshotNode>(nodes);
    let listed = without_repeats::<GraphSnapshotNode>(sorted);
    lemma_stable_sorted::<GraphSnapshotNode>(nodes);
    lemma_repeats_dropped::<GraphSnapshotNode>(sorted);
    assert forall|i: int, j: int| 0 <= i < j < listed.len() implies <String as Key>::before(
        (#[trigger] listed[i]).id,
        (#[trigger] listed[j]).id,
    ) by {
        assert(ranks_before::<GraphSnapshotNode>(listed[i], listed[j]));
    }
}

proof fn lemma_edges_in_order(edges: Seq<GraphSnapshotEdgeModel>)
    requires
        are_single(edges),
    ensures
        ({
            let listed = stable_sorted::<GraphSnapshotEdge>(edges);
            &&& are_single(listed)
            &&& forall|i: int, j: int|
                0 <= i < j < listed.len() ==> !is_edge_before(
                    #[trigger] listed[j],
                    #[trigger] listed[i],
                )
        }),
{
    let listed = stable_sorted::<GraphSnapshotEdge>(edges);
    lemma_stable_sorted::<GraphSnapshotEdge>(edges);
    assert(edges.no_duplicates()) by {
        assert forall|i: int, j: int|
            0 <= i < edges.len() && 0 <= j < edges.len() && i != j implies edges[i]
            != edges[j] by {
            if i < j {
                assert(!is_same_edge(edges[i], edges[j]));
            } else {
                assert(!is_same_edge(edges[j], edges[i]));
            }
        }
    }
    assert forall|i: int, j: int| 0 <= i < j < listed.len() implies !is_same_edge(
        #[trigger] listed[i],
        #[trigger] listed[j],
    ) by {
        let (k, l) = lemma_places(edges, listed, i, j);
        if k < l {
            assert(!is_same_edge(edges[k], edges[l]));
        } else {
            assert(!is_same_edge(edges[l], edges[k]));
        }
    }
    assert forall|i: int, j: int| 0 <= i < j < listed.len() implies !is_edge_before(
        #[trigger] listed[j],
        #[trigger] listed[i],
    ) by {
        assert(!ranks_before::<GraphSnapshotEdge>(listed[j], listed[i]));
    }
}

proof fn lemma_details_in_order(
    diagnostics: Seq<GraphSnapshotDiagnosticModel>,
    unresolved: Seq<GraphSnapshotUnresolvedModel>,
)
    ensures
        ({
            let reports = stable_sorted::<GraphSnapshotDiagnostic>(diagnostics);
            let sites = without_repeats::<GraphSnapshotUnresolved>(
                stable_sorted::<GraphSnapshotUnresolved>(unresolved),
            );
            &&& forall|i: int, j: int|
                0 <= i < j < reports.len() ==> !is_diagnostic_before(
                    #[trigger] reports[j],
                    #[trigger] reports[i],
                )
            &&& forall|i: int, j: int|
                0 <= i < j < sites.len() ==> !is_site_before(
                    #[trigger] sites[j],
                    #[trigger] sites[i],
                )
        }),
{
    let reports = stable_sorted::<GraphSnapshotDiagnostic>(diagnostics);
    let sorted = stable_sorted::<GraphSnapshotUnresolved>(unresolved);
    let sites = without_repeats::<GraphSnapshotUnresolved>(sorted);
    lemma_stable_sorted::<GraphSnapshotDiagnostic>(diagnostics);
    lemma_stable_sorted::<GraphSnapshotUnresolved>(unresolved);
    lemma_neighbours_differ::<GraphSnapshotUnresolved>(sorted);
    assert forall|i: int, j: int| 0 <= i < j < reports.len() implies !is_diagnostic_before(
        #[trigger] reports[j],
        #[trigger] reports[i],
    ) by {
        assert(!ranks_before::<GraphSnapshotDiagnostic>(reports[j], reports[i]));
    }
    assert forall|i: int, j: int| 0 <= i < j < sites.len() implies !is_site_before(
        #[trigger] sites[j],
        #[trigger] sites[i],
    ) by {
        assert(!ranks_before::<GraphSnapshotUnresolved>(sites[j], sites[i]));
    }
}

} // verus!
