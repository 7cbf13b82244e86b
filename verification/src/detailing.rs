//! What the shards tell of diagnostics and of sites whose edges are not known.

use vstd::prelude::*;
use vstd::string::*;

use crate::edges::{
    alias_node, definitions_contained, definitions_of, is_housed, owner_of, reference_owner,
    relation_edge, relations_added, target_node, target_source, token_referenced, tokens_referenced,
};
use crate::files::{
    FileId, FileRange, Severity, SourceDiagnosticModel, SourceFileModel, evidence_of,
    required_evidence_of, source_of,
};
use crate::graph::{GraphModel, claimed, with_edge, with_node, with_unresolved};
use crate::gaps::law_sites_lie_in_their_file;
use crate::grounding::{detailed_graph, lemma_tests_details};
use crate::housing::{
    is_finished_from, lemma_built_list, lemma_definitions_keep, lemma_edge_keeps, lemma_housed_on,
    lemma_node_keeps, lemma_reference_keeps, lemma_relation_keeps, lemma_relations_keep,
    lemma_sorted_shards, lemma_stages, lemma_start, lemma_tests_home, named_graph, referenced_graph,
    whole_graph,
};
use crate::nodes::{
    digests_of, empty_shards, file_node_id, files_placed, is_indexed, placements, sources_of,
    tokens_placed,
};
use crate::order::Key;
use crate::shards::{built, diagnostics_added, file_detailed, files_detailed, is_conditional};
use crate::snapshot::{
    GraphSnapshotDiagnostic, GraphSnapshotDiagnosticModel, GraphSnapshotEdgeModel,
    GraphSnapshotEvidenceModel, GraphSnapshotNodeModel, GraphSnapshotUnresolved,
    GraphSnapshotUnresolvedModel,
};
use crate::sorting::{
    lemma_neighbours_differ, lemma_stable_sorted, lemma_stable_sorted_contains, stable_sorted,
    without_repeats,
};
use crate::static_index::{
    StaticIndexModel, StaticIndexedFileModel, StaticRelationModel, TokenStaticDataModel,
};
use crate::table::{lemma_ordered_lists, lists, ordered};
use crate::unresolved::{
    conditional_sites, coverage_model, gap_sites, has_family, unresolved_of, unresolved_site,
};

verus! {

/// Whether a graph tells of no diagnostics and of no sites whose edges are not known.
spec fn is_bare(graph: GraphModel) -> bool {
    forall|source: Seq<char>| #[trigger]
        graph.shards.contains_key(source) ==> graph.shards[source].unresolved.len() == 0
            && graph.shards[source].diagnostics.len() == 0
}

proof fn lemma_tokens_bare(
    files: Map<FileId, SourceFileModel>,
    sources: Map<FileId, Seq<char>>,
    graph: GraphModel,
    tokens: Seq<TokenStaticDataModel>,
    count: int,
)
    requires
        is_bare(graph),
    ensures
        is_bare(tokens_placed(files, sources, graph, tokens, count)),
    decreases count,
{
    if count > 0 {
        lemma_tokens_bare(files, sources, graph, tokens, count - 1);
    }
}

proof fn lemma_files_bare(graph: GraphModel, listing: Seq<(FileId, Seq<char>)>, count: int)
    requires
        is_bare(graph),
    ensures
        is_bare(files_placed(graph, listing, count)),
    decreases count,
{
    if count > 0 {
        lemma_files_bare(graph, listing, count - 1);
    }
}

proof fn lemma_edge_bare(graph: GraphModel, source: Seq<char>, edge: GraphSnapshotEdgeModel)
    requires
        is_bare(graph),
        graph.shards.contains_key(source),
    ensures
        is_bare(with_edge(graph, source, edge)),
{
    let after = with_edge(graph, source, edge);
    assert forall|other: Seq<char>| #[trigger]
        after.shards.contains_key(other) implies after.shards[other].unresolved.len() == 0
        && after.shards[other].diagnostics.len() == 0 by {
        assert(graph.shards.contains_key(other));
    }
}

proof fn lemma_node_bare(graph: GraphModel, source: Seq<char>, node: GraphSnapshotNodeModel)
    requires
        is_bare(graph),
    ensures
        is_bare(with_node(graph, source, node)),
{
    let after = with_node(graph, source, node);
    assert forall|other: Seq<char>| #[trigger]
        after.shards.contains_key(other) implies after.shards[other].unresolved.len() == 0
        && after.shards[other].diagnostics.len() == 0 by {
        assert(graph.shards.contains_key(other));
    }
}

proof fn lemma_token_references_bare(
    files: Map<FileId, SourceFileModel>,
    sources: Map<FileId, Seq<char>>,
    definitions: Seq<crate::edges::DefinitionBodyModel>,
    graph: GraphModel,
    token: TokenStaticDataModel,
    count: int,
)
    requires
        is_bare(graph),
        is_housed(sources, graph),
        0 <= count <= token.references.len(),
    ensures
        is_bare(token_referenced(files, sources, definitions, graph, token, count)),
        is_housed(sources, token_referenced(files, sources, definitions, graph, token, count)),
    decreases count,
{
    if count > 0 {
        lemma_token_references_bare(files, sources, definitions, graph, token, count - 1);
        let before = token_referenced(files, sources, definitions, graph, token, count - 1);
        let after = token_referenced(files, sources, definitions, graph, token, count);
        let reference = token.references[count - 1];
        lemma_reference_keeps(files, sources, definitions, before, token, reference);
        lemma_housed_on(sources, before, after);
        if !reference.is_definition && sources.contains_key(reference.range.file_id) {
            let source = sources[reference.range.file_id];
            match reference.export {
                Some(export) => {
                    let owned = claimed(before, export.alias_id, source);
                    let node = alias_node(files, source, token, export);
                    let named = with_node(owned, source, node);
                    let first = GraphSnapshotEdgeModel {
                        from: export.exporter,
                        to: export.alias_id,
                        kind: "exports"@,
                        evidence: evidence_of(files, export.alias_range),
                    };
                    let second = GraphSnapshotEdgeModel {
                        from: export.alias_id,
                        to: token.stable_id,
                        kind: "references"@,
                        evidence: evidence_of(files, reference.range),
                    };
                    assert(is_bare(owned));
                    lemma_node_bare(owned, source, node);
                    lemma_edge_bare(named, source, first);
                    lemma_edge_bare(with_edge(named, source, first), source, second);
                },
                None => {
                    let edge = GraphSnapshotEdgeModel {
                        from: reference_owner(definitions, source, reference),
                        to: token.stable_id,
                        kind: crate::nodes::reference_kind_name(reference.role),
                        evidence: evidence_of(files, reference.range),
                    };
                    lemma_edge_bare(before, source, edge);
                },
            }
        }
    }
}

proof fn lemma_references_bare(
    files: Map<FileId, SourceFileModel>,
    sources: Map<FileId, Seq<char>>,
    definitions: Seq<crate::edges::DefinitionBodyModel>,
    placed: Seq<(bool, Option<Seq<char>>)>,
    graph: GraphModel,
    tokens: Seq<TokenStaticDataModel>,
    count: int,
)
    requires
        is_bare(graph),
        is_housed(sources, graph),
        0 <= count <= tokens.len(),
    ensures
        is_bare(
            tokens_referenced(files, sources, definitions, placed, graph, tokens, count),
        ),
        is_housed(
            sources,
            tokens_referenced(files, sources, definitions, placed, graph, tokens, count),
        ),
    decreases count,
{
    if count > 0 {
        lemma_references_bare(files, sources, definitions, placed, graph, tokens, count - 1);
        lemma_token_references_bare(
            files,
            sources,
            definitions,
            tokens_referenced(files, sources, definitions, placed, graph, tokens, count - 1),
            tokens[count - 1],
            tokens[count - 1].references.len() as int,
        );
    }
}

proof fn lemma_relations_bare(
    files: Map<FileId, SourceFileModel>,
    sources: Map<FileId, Seq<char>>,
    graph: GraphModel,
    relations: Seq<StaticRelationModel>,
    count: int,
)
    requires
        is_bare(graph),
        is_housed(sources, graph),
    ensures
        is_bare(relations_added(files, sources, graph, relations, count)),
        is_housed(sources, relations_added(files, sources, graph, relations, count)),
    decreases count,
{
    if count > 0 {
        lemma_relations_bare(files, sources, graph, relations, count - 1);
        let before = relations_added(files, sources, graph, relations, count - 1);
        let relation = relations[count - 1];
        lemma_relation_keeps(files, sources, before, relation);
        lemma_housed_on(
            sources,
            before,
            relations_added(files, sources, graph, relations, count),
        );
        if sources.contains_key(relation.file_id) && before.owners.contains_key(relation.from) {
            let source = sources[relation.file_id];
            let edge = relation_edge(relation);
            if before.owners.contains_key(relation.to) {
                lemma_edge_bare(before, source, edge);
            } else {
                match relation.to_display_name {
                    None => {},
                    Some(name) => {
                        let owner = match target_source(files, relation) {
                            Some(target) => target,
                            None => source,
                        };
                        let node = target_node(files, relation, name);
                        let added = with_node(before, owner, node);
                        lemma_node_bare(before, owner, node);
                        lemma_node_keeps(before, owner, node);
                        lemma_housed_on(sources, before, added);
                        assert(is_bare(claimed(added, relation.to, owner)));
                        lemma_edge_bare(claimed(added, relation.to, owner), source, edge);
                    },
                }
            }
        }
    }
}

proof fn lemma_definitions_bare(
    files: Map<FileId, SourceFileModel>,
    sources: Map<FileId, Seq<char>>,
    definitions: Seq<crate::edges::DefinitionBodyModel>,
    placed: Seq<(bool, Option<Seq<char>>)>,
    tokens: Seq<TokenStaticDataModel>,
    graph: GraphModel,
    count: int,
)
    requires
        is_bare(graph),
        definitions_contained(files, sources, definitions, placed, tokens, graph, count) is Ok,
    ensures
        is_bare(
            definitions_contained(
                files,
                sources,
                definitions,
                placed,
                tokens,
                graph,
                count,
            )->Ok_0,
        ),
    decreases count,
{
    if count > 0 {
        lemma_definitions_bare(files, sources, definitions, placed, tokens, graph, count - 1);
        let before = definitions_contained(
            files,
            sources,
            definitions,
            placed,
            tokens,
            graph,
            count - 1,
        )->Ok_0;
        let definition = definitions[count - 1];
        match placed[definition.token as int].1 {
            None => {},
            Some(source) => {
                let token = tokens[definition.token as int];
                let file = file_node_id(sources[definition.body.file_id]);
                let at = match token.definition {
                    Some(range) => range,
                    None => definition.body,
                };
                let first = GraphSnapshotEdgeModel {
                    from: match owner_of(definitions, definition.body, Some(definition.token)) {
                        Some(parent) => parent,
                        None => file,
                    },
                    to: definition.id,
                    kind: "contains"@,
                    evidence: evidence_of(files, at),
                };
                let second = GraphSnapshotEdgeModel {
                    from: file,
                    to: definition.id,
                    kind: "exports"@,
                    evidence: evidence_of(files, at),
                };
                lemma_edge_bare(before, source, first);
                lemma_edge_keeps(before, source, first);
                let contained = with_edge(before, source, first);
                assert(contained.shards.dom().contains(source));
                lemma_edge_bare(contained, source, second);
            },
        }
    }
}

/// Whether a diagnostic of a shard is one of the analysis.
pub open spec fn is_reported(
    files: Map<FileId, SourceFileModel>,
    reported: GraphSnapshotDiagnosticModel,
    diagnostic: SourceDiagnosticModel,
) -> bool {
    &&& evidence_of(files, diagnostic.range) is Some
    &&& reported.file == evidence_of(files, diagnostic.range)->0.file
    &&& reported.line == evidence_of(files, diagnostic.range)->0.start_line
    &&& reported.column == Some(evidence_of(files, diagnostic.range)->0.start_column)
    &&& reported.code == diagnostic.code
    &&& reported.message == diagnostic.message
    &&& diagnostic.severity == Severity::Error ==> reported.severity == Some("error"@)
    &&& diagnostic.severity == Severity::Warning || diagnostic.severity == Severity::WeakWarning
        ==> reported.severity == Some("warning"@)
    &&& diagnostic.severity == Severity::Allow ==> reported.severity == Some("hint"@)
}

proof fn lemma_diagnostics(
    files: Map<FileId, SourceFileModel>,
    source: Seq<char>,
    graph: GraphModel,
    diagnostics: Seq<SourceDiagnosticModel>,
    count: int,
)
    requires
        0 <= count <= diagnostics.len(),
        graph.shards.contains_key(source),
        diagnostics_added(files, source, graph, diagnostics, count) is Ok,
    ensures
        ({
            let after = diagnostics_added(files, source, graph, diagnostics, count)->Ok_0;
            let before = graph.shards[source].diagnostics;
            let now = after.shards[source].diagnostics;
            &&& after.shards.dom() == graph.shards.dom()
            &&& after.shards[source].unresolved == graph.shards[source].unresolved
            &&& forall|other: Seq<char>|
                other != source ==> #[trigger] after.shards[other] == graph.shards[other]
            &&& now.len() == before.len() + count
            &&& forall|i: int| 0 <= i < before.len() ==> #[trigger] now[i] == before[i]
            &&& forall|i: int|
                before.len() <= i < now.len() ==> is_reported(
                    files,
                    #[trigger] now[i],
                    diagnostics[i - before.len()],
                )
        }),
    decreases count,
{
    if count > 0 {
        lemma_diagnostics(files, source, graph, diagnostics, count - 1);
        let before = diagnostics_added(files, source, graph, diagnostics, count - 1)->Ok_0;
        let after = diagnostics_added(files, source, graph, diagnostics, count)->Ok_0;
        assert(before.shards.dom().contains(source));
        assert(after.shards.dom() =~= graph.shards.dom());
        let old = graph.shards[source].diagnostics;
        let held = before.shards[source].diagnostics;
        let now = after.shards[source].diagnostics;
        assert forall|i: int| old.len() <= i < now.len() implies is_reported(
            files,
            #[trigger] now[i],
            diagnostics[i - old.len()],
        ) by {
            if i < held.len() {
                assert(now[i] == held[i]);
            }
        }
        assert forall|i: int| 0 <= i < old.len() implies #[trigger] now[i] == old[i] by {
            assert(now[i] == held[i]);
        }
    }
}

/// Whether a family is one of those whose edges a snapshot covers in part.
pub open spec fn is_partial_family(family: Seq<char>) -> bool {
    ||| family == "contains"@
    ||| family == "exports"@
    ||| family == "imports"@
    ||| family == "calls"@
    ||| family == "accesses"@
    ||| family == "instantiates"@
    ||| family == "type_ref"@
    ||| family == "extends"@
    ||| family == "implements"@
    ||| family == "overrides"@
    ||| family == "dispatches"@
    ||| family == "decorates"@
    ||| family == "tests"@
    ||| family == "references"@
}

/// Whether a site is the whole of a file, under a family and a reason.
pub open spec fn is_whole_site(
    files: Map<FileId, SourceFileModel>,
    file_id: FileId,
    site: GraphSnapshotUnresolvedModel,
    family: Seq<char>,
    reason: Seq<char>,
) -> bool {
    &&& files.contains_key(file_id)
    &&& files[file_id].analysis is Some
    &&& evidence_of(
        files,
        (FileRange { file_id, range: files[file_id].analysis->0.root }),
    ) == Some(site.evidence)
    &&& site.family == family
    &&& site.reason == reason
    &&& site.candidates.len() == 0
}

pub proof fn lemma_families()
    ensures
        forall|i: int|
            0 <= i < coverage_model().len() ==> ((#[trigger] coverage_model()[i]).state
                == "partial"@ <==> is_partial_family(coverage_model()[i].family)),
        forall|i: int|
            0 <= i < coverage_model().len() ==> ((#[trigger] coverage_model()[i]).state
                != "unsupported"@ <==> is_partial_family(coverage_model()[i].family)),
        forall|family: Seq<char>| #[trigger]
            is_partial_family(family) ==> exists|i: int|
                0 <= i < coverage_model().len() && (#[trigger] coverage_model()[i]).family
                    == family,
{
    let families = coverage_model();
    reveal_strlit("partial");
    reveal_strlit("unsupported");
    reveal_strlit("renders");
    reveal_strlit("contains");
    reveal_strlit("exports");
    reveal_strlit("imports");
    reveal_strlit("calls");
    reveal_strlit("accesses");
    reveal_strlit("instantiates");
    reveal_strlit("type_ref");
    reveal_strlit("extends");
    reveal_strlit("implements");
    reveal_strlit("overrides");
    reveal_strlit("dispatches");
    reveal_strlit("decorates");
    reveal_strlit("tests");
    reveal_strlit("references");
    assert("partial"@.len() != "unsupported"@.len());
    assert(families.len() == 15);
    assert(!is_partial_family("renders"@)) by {
        assert("renders"@[0] == 'r' && "renders"@[2] == 'n' && "renders"@.len() == 7);
        assert("references"@.len() != 7 && "exports"@[0] == 'e' && "imports"@[0] == 'i'
            && "extends"@[0] == 'e');
    }
    assert forall|i: int| 0 <= i < families.len() implies ((#[trigger] families[i]).state
        == "partial"@ <==> is_partial_family(families[i].family)) && (families[i].state
        != "unsupported"@ <==> is_partial_family(families[i].family)) by {
        if i == 12 {
            assert(families[12].family == "renders"@ && families[12].state == "unsupported"@);
        } else {
            assert(families[i].state == "partial"@);
        }
    }
    assert forall|family: Seq<char>| #[trigger] is_partial_family(family) implies exists|i: int|
        0 <= i < families.len() && (#[trigger] families[i]).family == family by {
        assert(families[0].family == "contains"@);
        assert(families[1].family == "exports"@);
        assert(families[2].family == "imports"@);
        assert(families[3].family == "calls"@);
        assert(families[4].family == "accesses"@);
        assert(families[5].family == "instantiates"@);
        assert(families[6].family == "type_ref"@);
        assert(families[7].family == "extends"@);
        assert(families[8].family == "implements"@);
        assert(families[9].family == "overrides"@);
        assert(families[10].family == "dispatches"@);
        assert(families[11].family == "decorates"@);
        assert(families[13].family == "tests"@);
        assert(families[14].family == "references"@);
    }
}

proof fn lemma_conditional_sites(
    coverage: Seq<crate::snapshot::GraphSnapshotCoverageModel>,
    position: GraphSnapshotEvidenceModel,
    count: int,
)
    requires
        0 <= count <= coverage.len(),
    ensures
        forall|i: int|
            0 <= i < conditional_sites(coverage, position, count).len() ==> exists|k: int|
                0 <= k < count && (#[trigger] coverage[k]).state != "unsupported"@ && (
                #[trigger] conditional_sites(coverage, position, count)[i]) == unresolved_site(
                    coverage[k].family,
                    position,
                    "conditional-build"@,
                ),
        forall|k: int|
            0 <= k < count && (#[trigger] coverage[k]).state != "unsupported"@
                ==> conditional_sites(coverage, position, count).contains(
                unresolved_site(coverage[k].family, position, "conditional-build"@),
            ),
    decreases count,
{
    if count > 0 {
        lemma_conditional_sites(coverage, position, count - 1);
        let before = conditional_sites(coverage, position, count - 1);
        let sites = conditional_sites(coverage, position, count);
        assert forall|k: int|
            0 <= k < count && (#[trigger] coverage[k]).state
                != "unsupported"@ implies sites.contains(
            unresolved_site(coverage[k].family, position, "conditional-build"@),
        ) by {
            let wanted = unresolved_site(coverage[k].family, position, "conditional-build"@);
            if k < count - 1 {
                let i = choose|i: int| 0 <= i < before.len() && before[i] == wanted;
                assert(sites[i] == wanted);
            } else {
                assert(sites[before.len() as int] == wanted);
            }
        }
        assert forall|i: int| 0 <= i < sites.len() implies exists|k: int|
            0 <= k < count && (#[trigger] coverage[k]).state != "unsupported"@ && (
            #[trigger] sites[i]) == unresolved_site(
                coverage[k].family,
                position,
                "conditional-build"@,
            ) by {
            if i < before.len() {
                assert(sites[i] == before[i]);
                let k = choose|k: int|
                    0 <= k < count - 1 && (#[trigger] coverage[k]).state != "unsupported"@
                        && before[i] == unresolved_site(
                        coverage[k].family,
                        position,
                        "conditional-build"@,
                    );
                assert(coverage[k].state != "unsupported"@);
            } else {
                assert(coverage[count - 1].state != "unsupported"@);
            }
        }
    }
}

/// Whether a site stands for one of the first families of which no site is known.
spec fn is_gap(
    coverage: Seq<crate::snapshot::GraphSnapshotCoverageModel>,
    known: Seq<GraphSnapshotUnresolvedModel>,
    position: GraphSnapshotEvidenceModel,
    count: int,
    site: GraphSnapshotUnresolvedModel,
) -> bool {
    exists|k: int|
        0 <= k < count && (#[trigger] coverage[k]).state == "partial"@ && !has_family(
            known,
            coverage[k].family,
        ) && site == unresolved_site(coverage[k].family, position, "provider-gap"@)
}

proof fn lemma_gap_sites(
    coverage: Seq<crate::snapshot::GraphSnapshotCoverageModel>,
    known: Seq<GraphSnapshotUnresolvedModel>,
    position: GraphSnapshotEvidenceModel,
    count: int,
)
    requires
        0 <= count <= coverage.len(),
    ensures
        forall|i: int|
            0 <= i < gap_sites(coverage, known, position, count).len() ==> is_gap(
                coverage,
                known,
                position,
                count,
                #[trigger] gap_sites(coverage, known, position, count)[i],
            ),
        forall|k: int|
            0 <= k < count && (#[trigger] coverage[k]).state == "partial"@ && !has_family(
                known,
                coverage[k].family,
            ) ==> gap_sites(coverage, known, position, count).contains(
                unresolved_site(coverage[k].family, position, "provider-gap"@),
            ),
    decreases count,
{
    if count > 0 {
        lemma_gap_sites(coverage, known, position, count - 1);
        let before = gap_sites(coverage, known, position, count - 1);
        let sites = gap_sites(coverage, known, position, count);
        assert forall|k: int|
            0 <= k < count && (#[trigger] coverage[k]).state == "partial"@ && !has_family(
                known,
                coverage[k].family,
            ) implies sites.contains(
            unresolved_site(coverage[k].family, position, "provider-gap"@),
        ) by {
            let wanted = unresolved_site(coverage[k].family, position, "provider-gap"@);
            if k < count - 1 {
                let i = choose|i: int| 0 <= i < before.len() && before[i] == wanted;
                assert(sites[i] == wanted);
            } else {
                assert(sites[before.len() as int] == wanted);
            }
        }
        assert forall|i: int| 0 <= i < sites.len() implies is_gap(
            coverage,
            known,
            position,
            count,
            #[trigger] sites[i],
        ) by {
            if i < before.len() {
                assert(sites[i] == before[i]);
                assert(is_gap(coverage, known, position, count - 1, before[i]));
                let k = choose|k: int|
                    0 <= k < count - 1 && (#[trigger] coverage[k]).state == "partial"@
                        && !has_family(known, coverage[k].family) && before[i] == unresolved_site(
                        coverage[k].family,
                        position,
                        "provider-gap"@,
                    );
                assert(coverage[k].state == "partial"@);
            } else {
                assert(coverage[count - 1].state == "partial"@);
            }
        }
    }
}

/// Whether a file takes part in several builds.
pub open spec fn builds_in_several(indexed: Seq<StaticIndexedFileModel>, file_id: FileId) -> bool {
    exists|i: int|
        0 <= i < indexed.len() && (#[trigger] indexed[i]).file_id == file_id
            && indexed[i].conditional_build
}

/// Whether a file contributes a site: one without edges, or the whole of it, under a family that is
/// covered in part, because it takes part in several builds, or because no other site of the family is
/// known.
pub open spec fn is_contributed(
    files: Map<FileId, SourceFileModel>,
    index: StaticIndexModel,
    file_id: FileId,
    site: GraphSnapshotUnresolvedModel,
) -> bool {
    &&& files.contains_key(file_id)
    &&& files[file_id].analysis is Some
    &&& unresolved_of(files, file_id, files[file_id].analysis->0, index.tokens) is Ok
    &&& {
        ||| unresolved_of(
            files,
            file_id,
            files[file_id].analysis->0,
            index.tokens,
        )->Ok_0.contains(site)
        ||| builds_in_several(index.files, file_id) && is_partial_family(site.family)
            && is_whole_site(files, file_id, site, site.family, "conditional-build"@)
        ||| is_partial_family(site.family) && is_whole_site(
            files,
            file_id,
            site,
            site.family,
            "provider-gap"@,
        )
    }
}

/// Whether every site that stands for a family of which no other site is known is the only one of its
/// family.
pub open spec fn are_gaps_alone(unresolved: Seq<GraphSnapshotUnresolvedModel>) -> bool {
    forall|i: int, j: int|
        0 <= i < unresolved.len() && 0 <= j < unresolved.len() && (
        #[trigger] unresolved[i]).reason == "provider-gap"@ && (#[trigger] unresolved[j]).family
            == unresolved[i].family ==> unresolved[j] == unresolved[i]
}

/// No site of a construct or of a call has the reason of a gap.
proof fn lemma_reasons(
    files: Map<FileId, SourceFileModel>,
    index: StaticIndexModel,
    file_id: FileId,
    i: int,
)
    requires
        files.contains_key(file_id),
        files[file_id].analysis is Some,
        unresolved_of(files, file_id, files[file_id].analysis->0, index.tokens) is Ok,
        0 <= i < unresolved_of(
            files,
            file_id,
            files[file_id].analysis->0,
            index.tokens,
        )->Ok_0.len(),
    ensures
        unresolved_of(
            files,
            file_id,
            files[file_id].analysis->0,
            index.tokens,
        )->Ok_0[i].reason != "provider-gap"@,
{
    law_sites_lie_in_their_file(
        files,
        file_id,
        files[file_id].analysis->0,
        index.tokens,
        i,
    );
    reveal_strlit("provider-gap");
    reveal_strlit("dynamic");
    reveal_strlit("analysis-error");
    reveal_strlit("macro-or-generated");
    assert("provider-gap"@.len() == 12);
}

/// Whether a shard holds what a file has to contribute.
spec fn is_covered_by(
    files: Map<FileId, SourceFileModel>,
    index: StaticIndexModel,
    file_id: FileId,
    unresolved: Seq<GraphSnapshotUnresolvedModel>,
) -> bool {
    &&& files.contains_key(file_id)
    &&& files[file_id].analysis is Some
    &&& unresolved_of(files, file_id, files[file_id].analysis->0, index.tokens) is Ok
    &&& forall|site: GraphSnapshotUnresolvedModel| #[trigger]
        unresolved_of(
            files,
            file_id,
            files[file_id].analysis->0,
            index.tokens,
        )->Ok_0.contains(site) ==> unresolved.contains(site)
    &&& forall|family: Seq<char>|
        builds_in_several(index.files, file_id) && #[trigger] is_partial_family(family)
            ==> exists|i: int|
            0 <= i < unresolved.len() && is_whole_site(
                files,
                file_id,
                #[trigger] unresolved[i],
                family,
                "conditional-build"@,
            )
    &&& forall|family: Seq<char>| #[trigger]
        is_partial_family(family) ==> has_family(unresolved, family)
}

proof fn lemma_file_detailed(
    files: Map<FileId, SourceFileModel>,
    index: StaticIndexModel,
    graph: GraphModel,
    file_id: FileId,
    source: Seq<char>,
)
    requires
        graph.shards.contains_key(source),
        file_detailed(files, index.files, index.tokens, graph, file_id, source) is Ok,
    ensures
        ({
            let after = file_detailed(
                files,
                index.files,
                index.tokens,
                graph,
                file_id,
                source,
            )->Ok_0;
            let before = graph.shards[source].unresolved;
            let now = after.shards[source].unresolved;
            let reported = after.shards[source].diagnostics;
            let old = graph.shards[source].diagnostics;
            let diagnostics = files[file_id].analysis->0.diagnostics;
            &&& after.shards.dom() == graph.shards.dom()
            &&& forall|other: Seq<char>|
                other != source ==> #[trigger] after.shards[other] == graph.shards[other]
            &&& before.len() <= now.len()
            &&& forall|i: int| 0 <= i < before.len() ==> #[trigger] now[i] == before[i]
            &&& forall|i: int|
                before.len() <= i < now.len() ==> is_contributed(
                    files,
                    index,
                    file_id,
                    #[trigger] now[i],
                )
            &&& is_covered_by(files, index, file_id, now)
            &&& before.len() == 0 ==> are_gaps_alone(now)
            &&& reported.len() == old.len() + diagnostics.len()
            &&& forall|i: int| 0 <= i < old.len() ==> #[trigger] reported[i] == old[i]
            &&& forall|i: int|
                old.len() <= i < reported.len() ==> is_reported(
                    files,
                    #[trigger] reported[i],
                    diagnostics[i - old.len()],
                )
        }),
{
    let analysis = files[file_id].analysis->0;
    let n = analysis.diagnostics.len() as int;
    lemma_diagnostics(files, source, graph, analysis.diagnostics, n);
    let diagnosed = diagnostics_added(files, source, graph, analysis.diagnostics, n)->Ok_0;
    let sites = unresolved_of(files, file_id, analysis, index.tokens)->Ok_0;
    let position = required_evidence_of(
        files,
        (FileRange { file_id, range: analysis.root }),
    )->Ok_0;
    let families = coverage_model();
    let m = families.len() as int;
    let found = with_unresolved(diagnosed, source, sites);
    let more = conditional_sites(families, position, m);
    let several = is_conditional(index.files, file_id);
    assert(several == builds_in_several(index.files, file_id));
    let conditional = if several {
        with_unresolved(found, source, more)
    } else {
        found
    };
    let known = conditional.shards[source].unresolved;
    let gaps = gap_sites(families, known, position, m);
    let after = file_detailed(files, index.files, index.tokens, graph, file_id, source)->Ok_0;
    assert(after == with_unresolved(conditional, source, gaps));
    assert(diagnosed.shards.dom().contains(source));
    assert(after.shards.dom() =~= graph.shards.dom());
    let before = graph.shards[source].unresolved;
    let now = after.shards[source].unresolved;
    assert(known =~= before + sites + if several {
        more
    } else {
        Seq::empty()
    });
    assert(now =~= known + gaps);
    lemma_families();
    lemma_conditional_sites(families, position, m);
    lemma_gap_sites(families, known, position, m);
    assert forall|i: int| before.len() <= i < now.len() implies is_contributed(
        files,
        index,
        file_id,
        #[trigger] now[i],
    ) by {
        let first = before.len() + sites.len();
        if i < first {
            assert(now[i] == sites[i - before.len()]);
            assert(sites.contains(sites[i - before.len()]));
        } else if i < known.len() {
            assert(now[i] == more[i - first]);
            let k = choose|k: int|
                0 <= k < m && (#[trigger] families[k]).state != "unsupported"@ && more[i - first]
                    == unresolved_site(families[k].family, position, "conditional-build"@);
            assert(is_partial_family(families[k].family));
        } else {
            assert(now[i] == gaps[i - known.len()]);
            assert(is_gap(families, known, position, m, gaps[i - known.len()]));
            let k = choose|k: int|
                0 <= k < m && (#[trigger] families[k]).state == "partial"@ && !has_family(
                    known,
                    families[k].family,
                ) && gaps[i - known.len()] == unresolved_site(
                    families[k].family,
                    position,
                    "provider-gap"@,
                );
            assert(is_partial_family(families[k].family));
        }
    }
    assert forall|site: GraphSnapshotUnresolvedModel| #[trigger]
        sites.contains(site) implies now.contains(site) by {
        let i = choose|i: int| 0 <= i < sites.len() && sites[i] == site;
        assert(now[before.len() + i] == site);
    }
    assert forall|family: Seq<char>|
        builds_in_several(index.files, file_id) && #[trigger] is_partial_family(
            family,
        ) implies exists|i: int|
        0 <= i < now.len() && is_whole_site(
            files,
            file_id,
            #[trigger] now[i],
            family,
            "conditional-build"@,
        ) by {
        let k = choose|k: int| 0 <= k < m && (#[trigger] families[k]).family == family;
        let wanted = unresolved_site(family, position, "conditional-build"@);
        assert(more.contains(wanted));
        let i = choose|i: int| 0 <= i < more.len() && more[i] == wanted;
        assert(now[before.len() + sites.len() + i] == wanted);
    }
    assert forall|family: Seq<char>| #[trigger] is_partial_family(family) implies has_family(
        now,
        family,
    ) by {
        let k = choose|k: int| 0 <= k < m && (#[trigger] families[k]).family == family;
        if has_family(known, family) {
            let i = choose|i: int| 0 <= i < known.len() && (#[trigger] known[i]).family == family;
            assert(now[i] == known[i]);
        } else {
            let wanted = unresolved_site(family, position, "provider-gap"@);
            assert(gaps.contains(wanted));
            let i = choose|i: int| 0 <= i < gaps.len() && gaps[i] == wanted;
            assert(now[known.len() + i] == wanted);
        }
    }
    if before.len() == 0 {
        assert forall|i: int, j: int|
            0 <= i < now.len() && 0 <= j < now.len() && (#[trigger] now[i]).reason
                == "provider-gap"@ && (#[trigger] now[j]).family == now[i].family implies now[j]
            == now[i] by {
            if i < sites.len() {
                assert(now[i] == sites[i]);
                lemma_reasons(files, index, file_id, i);
            } else if i < known.len() {
                assert(now[i] == more[i - sites.len()]);
                let k = choose|k: int|
                    0 <= k < m && (#[trigger] families[k]).state != "unsupported"@
                        && more[i - sites.len()] == unresolved_site(
                        families[k].family,
                        position,
                        "conditional-build"@,
                    );
                reveal_strlit("provider-gap");
                reveal_strlit("conditional-build");
                assert("provider-gap"@.len() != "conditional-build"@.len());
            }
            assert(now[i] == gaps[i - known.len()]);
            assert(is_gap(families, known, position, m, gaps[i - known.len()]));
            assert(!has_family(known, now[i].family));
            if j < known.len() {
                assert(known[j] == now[j]);
            } else {
                assert(now[j] == gaps[j - known.len()]);
                assert(is_gap(families, known, position, m, gaps[j - known.len()]));
            }
        }
    }
}

/// Whether a file is the only one of those listed under its path.
spec fn is_alone(listing: Seq<(FileId, Seq<char>)>, k: int) -> bool {
    forall|j: int|
        0 <= j < listing.len() && (#[trigger] listing[j]).1 == listing[k].1 ==> j == k
}

/// Whether a shard tells of what its files contribute, and of nothing else.
spec fn is_told(
    files: Map<FileId, SourceFileModel>,
    index: StaticIndexModel,
    listing: Seq<(FileId, Seq<char>)>,
    count: int,
    graph: GraphModel,
) -> bool {
    &&& forall|source: Seq<char>, i: int|
        graph.shards.contains_key(source) && 0 <= i < graph.shards[source].unresolved.len()
            ==> is_from_some(
            files,
            index,
            listing,
            count,
            source,
            #[trigger] graph.shards[source].unresolved[i],
        )
    &&& forall|source: Seq<char>, i: int|
        graph.shards.contains_key(source) && 0 <= i < graph.shards[source].diagnostics.len()
            ==> is_reported_by_some(
            files,
            listing,
            count,
            source,
            #[trigger] graph.shards[source].diagnostics[i],
        )
    &&& forall|k: int|
        0 <= k < count ==> is_covered_by(
            files,
            index,
            (#[trigger] listing[k]).0,
            graph.shards[listing[k].1].unresolved,
        )
    &&& forall|k: int|
        0 <= k < count ==> are_passed_on(
            files,
            (#[trigger] listing[k]).0,
            graph.shards[listing[k].1].diagnostics,
        )
    &&& forall|k: int|
        0 <= k < count && #[trigger] is_alone(listing, k) ==> are_gaps_alone(
            graph.shards[listing[k].1].unresolved,
        )
}

/// Whether a diagnostic is among those of a shard.
pub open spec fn is_passed_on(
    files: Map<FileId, SourceFileModel>,
    reported: Seq<GraphSnapshotDiagnosticModel>,
    diagnostic: SourceDiagnosticModel,
) -> bool {
    exists|i: int| 0 <= i < reported.len() && is_reported(files, #[trigger] reported[i], diagnostic)
}

/// Whether the diagnostics of a file are among those of a shard.
spec fn are_passed_on(
    files: Map<FileId, SourceFileModel>,
    file_id: FileId,
    reported: Seq<GraphSnapshotDiagnosticModel>,
) -> bool {
    forall|d: int|
        0 <= d < files[file_id].analysis->0.diagnostics.len() ==> is_passed_on(
            files,
            reported,
            #[trigger] files[file_id].analysis->0.diagnostics[d],
        )
}

/// Whether one of the first files, under a path, contributes a site.
spec fn is_from_some(
    files: Map<FileId, SourceFileModel>,
    index: StaticIndexModel,
    listing: Seq<(FileId, Seq<char>)>,
    count: int,
    source: Seq<char>,
    site: GraphSnapshotUnresolvedModel,
) -> bool {
    exists|k: int|
        0 <= k < count && (#[trigger] listing[k]).1 == source && is_contributed(
            files,
            index,
            listing[k].0,
            site,
        )
}

/// Whether one of the first files, under a path, has a diagnostic.
spec fn is_reported_by_some(
    files: Map<FileId, SourceFileModel>,
    listing: Seq<(FileId, Seq<char>)>,
    count: int,
    source: Seq<char>,
    reported: GraphSnapshotDiagnosticModel,
) -> bool {
    exists|k: int, d: int|
        0 <= k < count && listing[k].1 == source && 0 <= d
            < files[listing[k].0].analysis->0.diagnostics.len() && is_reported(
            files,
            reported,
            #[trigger] files[listing[k].0].analysis->0.diagnostics[d],
        )
}

proof fn lemma_files_detailed(
    files: Map<FileId, SourceFileModel>,
    index: StaticIndexModel,
    graph: GraphModel,
    listing: Seq<(FileId, Seq<char>)>,
    count: int,
)
    requires
        0 <= count <= listing.len(),
        is_bare(graph),
        forall|i: int|
            0 <= i < listing.len() ==> graph.shards.contains_key((#[trigger] listing[i]).1),
        files_detailed(files, index.files, index.tokens, graph, listing, count) is Ok,
    ensures
        ({
            let after = files_detailed(
                files,
                index.files,
                index.tokens,
                graph,
                listing,
                count,
            )->Ok_0;
            &&& after.shards.dom() == graph.shards.dom()
            &&& is_told(files, index, listing, count, after)
        }),
    decreases count,
{
    if count > 0 {
        lemma_files_detailed(files, index, graph, listing, count - 1);
        let before = files_detailed(
            files,
            index.files,
            index.tokens,
            graph,
            listing,
            count - 1,
        )->Ok_0;
        let after = files_detailed(
            files,
            index.files,
            index.tokens,
            graph,
            listing,
            count,
        )->Ok_0;
        let (file_id, source) = listing[count - 1];
        assert(graph.shards.contains_key(listing[count - 1].1));
        assert(before.shards.dom().contains(source));
        lemma_file_detailed(files, index, before, file_id, source);
        assert(listing[count - 1].1 == source && listing[count - 1].0 == file_id);
        let held = before.shards[source].unresolved;
        let now = after.shards[source].unresolved;
        let old = before.shards[source].diagnostics;
        let reported = after.shards[source].diagnostics;
        assert forall|at: Seq<char>, i: int|
            after.shards.contains_key(at) && 0 <= i
                < after.shards[at].unresolved.len() implies is_from_some(
            files,
            index,
            listing,
            count,
            at,
            #[trigger] after.shards[at].unresolved[i],
        ) by {
            assert(before.shards.dom().contains(at));
            if at == source && i >= held.len() {
                assert(is_contributed(files, index, file_id, now[i]));
                assert(listing[count - 1].1 == at);
            } else {
                assert(after.shards[at].unresolved[i] == before.shards[at].unresolved[i]);
                assert(is_from_some(
                    files,
                    index,
                    listing,
                    count - 1,
                    at,
                    before.shards[at].unresolved[i],
                ));
                let k = choose|k: int|
                    0 <= k < count - 1 && (#[trigger] listing[k]).1 == at && is_contributed(
                        files,
                        index,
                        listing[k].0,
                        before.shards[at].unresolved[i],
                    );
                assert(listing[k].1 == at);
            }
        }
        assert forall|at: Seq<char>, i: int|
            after.shards.contains_key(at) && 0 <= i
                < after.shards[at].diagnostics.len() implies is_reported_by_some(
            files,
            listing,
            count,
            at,
            #[trigger] after.shards[at].diagnostics[i],
        ) by {
            assert(before.shards.dom().contains(at));
            if at == source && i >= old.len() {
                assert(is_reported(
                    files,
                    reported[i],
                    files[listing[count - 1].0].analysis->0.diagnostics[i - old.len()],
                ));
            } else {
                assert(after.shards[at].diagnostics[i] == before.shards[at].diagnostics[i]);
                assert(is_reported_by_some(
                    files,
                    listing,
                    count - 1,
                    at,
                    before.shards[at].diagnostics[i],
                ));
                let (k, d) = choose|k: int, d: int|
                    0 <= k < count - 1 && listing[k].1 == at && 0 <= d
                        < files[listing[k].0].analysis->0.diagnostics.len() && is_reported(
                        files,
                        before.shards[at].diagnostics[i],
                        #[trigger] files[listing[k].0].analysis->0.diagnostics[d],
                    );
                assert(is_reported(
                    files,
                    after.shards[at].diagnostics[i],
                    files[listing[k].0].analysis->0.diagnostics[d],
                ));
            }
        }
        assert forall|k: int| 0 <= k < count implies is_covered_by(
            files,
            index,
            (#[trigger] listing[k]).0,
            after.shards[listing[k].1].unresolved,
        ) by {
            if k < count - 1 {
                let one = before.shards[listing[k].1].unresolved;
                let two = after.shards[listing[k].1].unresolved;
                assert(is_covered_by(files, index, listing[k].0, one));
                lemma_covered_on(files, index, listing[k].0, one, two);
            }
        }
        assert forall|k: int| 0 <= k < count implies are_passed_on(
            files,
            (#[trigger] listing[k]).0,
            after.shards[listing[k].1].diagnostics,
        ) by {
            let diagnostics = files[listing[k].0].analysis->0.diagnostics;
            let one = before.shards[listing[k].1].diagnostics;
            let two = after.shards[listing[k].1].diagnostics;
            assert forall|d: int| 0 <= d < diagnostics.len() implies is_passed_on(
                files,
                two,
                #[trigger] diagnostics[d],
            ) by {
                if k < count - 1 {
                    assert(are_passed_on(files, listing[k].0, one));
                    assert(is_passed_on(files, one, diagnostics[d]));
                    let i = choose|i: int|
                        0 <= i < one.len() && is_reported(
                            files,
                            #[trigger] one[i],
                            diagnostics[d],
                        );
                    assert(two[i] == one[i]);
                } else {
                    assert(is_reported(files, two[old.len() + d], diagnostics[d]));
                }
            }
        }
        assert forall|k: int| 0 <= k < count && #[trigger] is_alone(
            listing,
            k,
        ) implies are_gaps_alone(after.shards[listing[k].1].unresolved) by {
            if k < count - 1 {
                if listing[k].1 == source {
                    assert(listing[count - 1].1 == listing[k].1);
                }
                assert(after.shards[listing[k].1] == before.shards[listing[k].1]);
            } else if held.len() > 0 {
                assert(is_from_some(
                    files,
                    index,
                    listing,
                    count - 1,
                    source,
                    before.shards[source].unresolved[0],
                ));
                let j = choose|j: int|
                    0 <= j < count - 1 && (#[trigger] listing[j]).1 == source && is_contributed(
                        files,
                        index,
                        listing[j].0,
                        before.shards[source].unresolved[0],
                    );
                assert(j == k);
            }
        }
        assert(is_told(files, index, listing, count, after));
    } else {
        assert(is_told(files, index, listing, count, graph)) by {
            assert forall|source: Seq<char>, i: int|
                graph.shards.contains_key(source) && 0 <= i
                    < graph.shards[source].unresolved.len() implies is_from_some(
                files,
                index,
                listing,
                count,
                source,
                #[trigger] graph.shards[source].unresolved[i],
            ) by {
                assert(graph.shards[source].unresolved.len() == 0);
            }
            assert forall|source: Seq<char>, i: int|
                graph.shards.contains_key(source) && 0 <= i
                    < graph.shards[source].diagnostics.len() implies is_reported_by_some(
                files,
                listing,
                count,
                source,
                #[trigger] graph.shards[source].diagnostics[i],
            ) by {
                assert(graph.shards[source].diagnostics.len() == 0);
            }
        }
    }
}

proof fn lemma_covered_on(
    files: Map<FileId, SourceFileModel>,
    index: StaticIndexModel,
    file_id: FileId,
    before: Seq<GraphSnapshotUnresolvedModel>,
    after: Seq<GraphSnapshotUnresolvedModel>,
)
    requires
        is_covered_by(files, index, file_id, before),
        before.len() <= after.len(),
        forall|i: int| 0 <= i < before.len() ==> #[trigger] after[i] == before[i],
    ensures
        is_covered_by(files, index, file_id, after),
{
    let sites = unresolved_of(
        files,
        file_id,
        files[file_id].analysis->0,
        index.tokens,
    )->Ok_0;
    assert forall|site: GraphSnapshotUnresolvedModel| #[trigger]
        sites.contains(site) implies after.contains(site) by {
        assert(before.contains(site));
        let i = choose|i: int| 0 <= i < before.len() && before[i] == site;
        assert(after[i] == site);
    }
    assert forall|family: Seq<char>|
        builds_in_several(index.files, file_id) && #[trigger] is_partial_family(
            family,
        ) implies exists|i: int|
        0 <= i < after.len() && is_whole_site(
            files,
            file_id,
            #[trigger] after[i],
            family,
            "conditional-build"@,
        ) by {
        let i = choose|i: int|
            0 <= i < before.len() && is_whole_site(
                files,
                file_id,
                #[trigger] before[i],
                family,
                "conditional-build"@,
            );
        assert(after[i] == before[i]);
    }
    assert forall|family: Seq<char>| #[trigger] is_partial_family(family) implies has_family(
        after,
        family,
    ) by {
        let i = choose|i: int| 0 <= i < before.len() && (#[trigger] before[i]).family == family;
        assert(after[i] == before[i]);
    }
}

proof fn lemma_detailed_told(
    files: Map<FileId, SourceFileModel>,
    index: StaticIndexModel,
    target: Seq<char>,
    interface_fingerprints: Map<Seq<char>, Seq<char>>,
    source_inputs: Map<FileId, Seq<char>>,
    owners: Map<Seq<char>, Seq<char>>,
)
    requires
        built(files, index, target, interface_fingerprints, source_inputs, owners) is Ok,
    ensures
        ({
            let sources = sources_of(files, index.files);
            let listing = ordered::<FileId, Seq<char>>(sources);
            &&& lists::<FileId, Seq<char>>(listing, sources)
            &&& is_told(
                files,
                index,
                listing,
                listing.len() as int,
                detailed_graph(files, index, owners),
            )
            &&& forall|i: int|
                0 <= i < listing.len() ==> detailed_graph(files, index, owners).shards.contains_key(
                    (#[trigger] listing[i]).1,
                )
            &&& detailed_graph(files, index, owners).shards.dom().finite()
        }),
{
    let sources = sources_of(files, index.files);
    let start = GraphModel { owners, shards: empty_shards(files, index.files) };
    let listing = ordered::<FileId, Seq<char>>(sources);
    let count = index.tokens.len() as int;
    let placed = placements(files, sources, start, index.tokens);
    let definitions = definitions_of(sources, index.tokens, count);
    let declared = tokens_placed(files, sources, start, index.tokens, count);
    let named = named_graph(files, index, owners);
    let referenced = referenced_graph(files, index, owners);
    let n = index.relations.len() as int;
    let related = relations_added(files, sources, referenced, index.relations, n);
    let contained = definitions_contained(
        files,
        sources,
        definitions,
        placed,
        index.tokens,
        related,
        definitions.len() as int,
    )->Ok_0;
    lemma_start(files, index, owners);
    lemma_stages(files, index, target, interface_fingerprints, source_inputs, owners);
    assert(is_bare(start));
    lemma_tokens_bare(files, sources, start, index.tokens, count);
    lemma_files_bare(declared, listing, sources.len() as int);
    lemma_references_bare(files, sources, definitions, placed, named, index.tokens, count);
    lemma_relations_bare(files, sources, referenced, index.relations, n);
    lemma_definitions_bare(
        files,
        sources,
        definitions,
        placed,
        index.tokens,
        related,
        definitions.len() as int,
    );
    lemma_definitions_keep(
        files,
        sources,
        definitions,
        placed,
        index.tokens,
        related,
        definitions.len() as int,
    );
    lemma_housed_on(sources, related, contained);
    assert forall|i: int| 0 <= i < listing.len() implies contained.shards.contains_key(
        (#[trigger] listing[i]).1,
    ) by {
        assert(sources.contains_key(listing[i].0));
    }
    lemma_files_detailed(files, index, contained, listing, listing.len() as int);
    let detailed = detailed_graph(files, index, owners);
    assert forall|i: int| 0 <= i < listing.len() implies detailed.shards.contains_key(
        (#[trigger] listing[i]).1,
    ) by {
        assert(contained.shards.dom().contains(listing[i].1));
    }
    lemma_relations_keep(files, sources, referenced, index.relations, n);
    assert(detailed.shards.dom() == start.shards.dom());
}

proof fn lemma_site_kept(sites: Seq<GraphSnapshotUnresolvedModel>, site: GraphSnapshotUnresolvedModel)
    requires
        sites.contains(site),
    ensures
        exists|i: int|
            0 <= i < without_repeats::<GraphSnapshotUnresolved>(sites).len() && (
            #[trigger] without_repeats::<GraphSnapshotUnresolved>(sites)[i]).family == site.family
                && without_repeats::<GraphSnapshotUnresolved>(sites)[i].evidence == site.evidence
                && without_repeats::<GraphSnapshotUnresolved>(sites)[i].reason == site.reason,
    decreases sites.len(),
{
    let shorter = sites.drop_last();
    let before = without_repeats::<GraphSnapshotUnresolved>(shorter);
    let kept = without_repeats::<GraphSnapshotUnresolved>(sites);
    if shorter.contains(site) {
        lemma_site_kept(shorter, site);
        let i = choose|i: int|
            0 <= i < before.len() && (#[trigger] before[i]).family == site.family
                && before[i].evidence == site.evidence && before[i].reason == site.reason;
        assert(kept[i] == before[i]);
    } else {
        let i = choose|i: int| 0 <= i < sites.len() && sites[i] == site;
        if i < shorter.len() {
            assert(shorter[i] == site);
        }
        assert(sites.last() == site);
        assert(kept[kept.len() - 1].family == site.family);
    }
}

/// The details of a built shard are those of the graph.
proof fn lemma_shard_details(
    files: Map<FileId, SourceFileModel>,
    index: StaticIndexModel,
    target: Seq<char>,
    interface_fingerprints: Map<Seq<char>, Seq<char>>,
    source_inputs: Map<FileId, Seq<char>>,
    owners: Map<Seq<char>, Seq<char>>,
    s: int,
)
    requires
        built(files, index, target, interface_fingerprints, source_inputs, owners) is Ok,
        0 <= s < built(
            files,
            index,
            target,
            interface_fingerprints,
            source_inputs,
            owners,
        )->Ok_0.shards.len(),
    ensures
        ({
            let shard = built(
                files,
                index,
                target,
                interface_fingerprints,
                source_inputs,
                owners,
            )->Ok_0.shards[s];
            let detailed = detailed_graph(files, index, owners).shards[shard.source];
            &&& detailed_graph(files, index, owners).shards.contains_key(shard.source)
            &&& forall|i: int|
                0 <= i < shard.unresolved.len() ==> detailed.unresolved.contains(
                    #[trigger] shard.unresolved[i],
                )
            &&& forall|site: GraphSnapshotUnresolvedModel| #[trigger]
                detailed.unresolved.contains(site) ==> is_listed_site(shard.unresolved, site)
            &&& forall|reported: GraphSnapshotDiagnosticModel| #[trigger]
                detailed.diagnostics.contains(reported) <==> shard.diagnostics.contains(reported)
        }),
{
    let shards = built(
        files,
        index,
        target,
        interface_fingerprints,
        source_inputs,
        owners,
    )->Ok_0.shards;
    let shard = shards[s];
    let source = shard.source;
    let detailed = detailed_graph(files, index, owners);
    let listing = ordered::<String, crate::graph::MutableShardModel>(detailed.shards);
    let tests = crate::shards::tests_of(index.tokens, listing, listing.len() as int);
    let whole = whole_graph(files, index, owners);
    let digests = digests_of(files, index.files, source_inputs, index.files.len() as int);
    lemma_detailed_told(files, index, target, interface_fingerprints, source_inputs, owners);
    lemma_built_list(files, index, target, interface_fingerprints, source_inputs, owners);
    lemma_sorted_shards(target, whole, digests, interface_fingerprints);
    assert(is_finished_from(shard, target, whole, digests, interface_fingerprints));
    lemma_ordered_lists::<String, crate::graph::MutableShardModel>(detailed.shards);
    lemma_tests_home(index.tokens, listing, listing.len() as int, detailed.shards);
    lemma_tests_details(detailed, tests, tests.len() as int);
    assert(whole == crate::shards::tests_added(detailed, tests, tests.len() as int));
    assert(detailed.shards.dom().contains(source));
    let held = detailed.shards[source].unresolved;
    let sorted = stable_sorted::<GraphSnapshotUnresolved>(held);
    assert(shard.unresolved == without_repeats::<GraphSnapshotUnresolved>(sorted));
    lemma_stable_sorted::<GraphSnapshotUnresolved>(held);
    lemma_neighbours_differ::<GraphSnapshotUnresolved>(sorted);
    assert forall|i: int| 0 <= i < shard.unresolved.len() implies held.contains(
        #[trigger] shard.unresolved[i],
    ) by {
        lemma_stable_sorted_contains::<GraphSnapshotUnresolved>(held, shard.unresolved[i]);
    }
    assert forall|site: GraphSnapshotUnresolvedModel| #[trigger]
        held.contains(site) implies is_listed_site(shard.unresolved, site) by {
        lemma_stable_sorted_contains::<GraphSnapshotUnresolved>(held, site);
        lemma_site_kept(sorted, site);
    }
    let reports = detailed.shards[source].diagnostics;
    assert(shard.diagnostics == stable_sorted::<GraphSnapshotDiagnostic>(reports));
    assert forall|reported: GraphSnapshotDiagnosticModel| #[trigger]
        reports.contains(reported) <==> shard.diagnostics.contains(reported) by {
        lemma_stable_sorted_contains::<GraphSnapshotDiagnostic>(reports, reported);
    }
}

/// Whether a site is listed: one of its family, at its place and with its reason.
pub open spec fn is_listed_site(
    sites: Seq<GraphSnapshotUnresolvedModel>,
    site: GraphSnapshotUnresolvedModel,
) -> bool {
    exists|i: int|
        0 <= i < sites.len() && (#[trigger] sites[i]).family == site.family && sites[i].evidence
            == site.evidence && sites[i].reason == site.reason
}

/// Whether a file is indexed under a path.
pub open spec fn is_indexed_under(
    files: Map<FileId, SourceFileModel>,
    index: StaticIndexModel,
    file_id: FileId,
    source: Seq<char>,
) -> bool {
    is_indexed(index.files, file_id) && source_of(files, file_id) == source
}

/// Whether an indexed file under a path contributes a site.
pub open spec fn is_from_indexed(
    files: Map<FileId, SourceFileModel>,
    index: StaticIndexModel,
    source: Seq<char>,
    site: GraphSnapshotUnresolvedModel,
) -> bool {
    exists|file_id: FileId|
        #[trigger] is_indexed_under(files, index, file_id, source) && is_contributed(
            files,
            index,
            file_id,
            site,
        )
}

/// Every site that a shard lists as one whose edges are not known is contributed by an indexed file
/// under its path.
pub proof fn law_shards_list_contributed_sites(
    files: Map<FileId, SourceFileModel>,
    index: StaticIndexModel,
    target: Seq<char>,
    interface_fingerprints: Map<Seq<char>, Seq<char>>,
    source_inputs: Map<FileId, Seq<char>>,
    owners: Map<Seq<char>, Seq<char>>,
    s: int,
    i: int,
)
    ensures
        built(
            files,
            index,
            target,
            interface_fingerprints,
            source_inputs,
            owners,
        ) matches Ok(result) ==> 0 <= s < result.shards.len() && 0 <= i
            < result.shards[s].unresolved.len() ==> is_from_indexed(
            files,
            index,
            result.shards[s].source,
            result.shards[s].unresolved[i],
        ),
{
    let outcome = built(files, index, target, interface_fingerprints, source_inputs, owners);
    if outcome is Ok && 0 <= s < outcome->Ok_0.shards.len() && 0 <= i
        < outcome->Ok_0.shards[s].unresolved.len() {
        let shard = outcome->Ok_0.shards[s];
        let source = shard.source;
        let sources = sources_of(files, index.files);
        let listing = ordered::<FileId, Seq<char>>(sources);
        let detailed = detailed_graph(files, index, owners);
        let held = detailed.shards[source].unresolved;
        lemma_detailed_told(files, index, target, interface_fingerprints, source_inputs, owners);
        lemma_shard_details(
            files,
            index,
            target,
            interface_fingerprints,
            source_inputs,
            owners,
            s,
        );
        assert(held.contains(shard.unresolved[i]));
        let j = choose|j: int| 0 <= j < held.len() && held[j] == shard.unresolved[i];
        assert(is_from_some(
            files,
            index,
            listing,
            listing.len() as int,
            source,
            detailed.shards[source].unresolved[j],
        ));
        let k = choose|k: int|
            0 <= k < listing.len() && (#[trigger] listing[k]).1 == source && is_contributed(
                files,
                index,
                listing[k].0,
                held[j],
            );
        assert(sources.contains_key(listing[k].0) && sources[listing[k].0] == source);
        assert(is_indexed_under(files, index, listing[k].0, source));
    }
}

/// Where one indexed file only stands under a path, a site that its shard lists for a family because
/// no other one of it is known is the only one of the family.
pub proof fn law_gaps_stand_alone(
    files: Map<FileId, SourceFileModel>,
    index: StaticIndexModel,
    target: Seq<char>,
    interface_fingerprints: Map<Seq<char>, Seq<char>>,
    source_inputs: Map<FileId, Seq<char>>,
    owners: Map<Seq<char>, Seq<char>>,
    file_id: FileId,
    s: int,
)
    requires
        built(
            files,
            index,
            target,
            interface_fingerprints,
            source_inputs,
            owners,
        ) matches Ok(result) && 0 <= s < result.shards.len() && is_indexed_under(
            files,
            index,
            file_id,
            result.shards[s].source,
        ) && forall|other: FileId| #[trigger]
            is_indexed_under(files, index, other, result.shards[s].source) ==> other == file_id,
    ensures
        are_gaps_alone(
            built(
                files,
                index,
                target,
                interface_fingerprints,
                source_inputs,
                owners,
            )->Ok_0.shards[s].unresolved,
        ),
{
    let shard = built(
        files,
        index,
        target,
        interface_fingerprints,
        source_inputs,
        owners,
    )->Ok_0.shards[s];
    let source = shard.source;
    let sources = sources_of(files, index.files);
    let listing = ordered::<FileId, Seq<char>>(sources);
    let detailed = detailed_graph(files, index, owners);
    let held = detailed.shards[source].unresolved;
    lemma_detailed_told(files, index, target, interface_fingerprints, source_inputs, owners);
    lemma_shard_details(files, index, target, interface_fingerprints, source_inputs, owners, s);
    assert(sources.contains_key(file_id));
    let k = choose|k: int| 0 <= k < listing.len() && (#[trigger] listing[k]).0 == file_id;
    assert(listing[k].1 == source);
    assert(is_alone(listing, k)) by {
        assert forall|j: int|
            0 <= j < listing.len() && (#[trigger] listing[j]).1 == listing[k].1 implies j == k by {
            assert(sources.contains_key(listing[j].0));
            assert(is_indexed_under(files, index, listing[j].0, source));
            <FileId as Key>::lemma_irreflexive(listing[k].0);
            if j < k {
                assert(<FileId as Key>::before(listing[j].0, listing[k].0));
            } else if k < j {
                assert(<FileId as Key>::before(listing[k].0, listing[j].0));
            }
        }
    }
    assert(are_gaps_alone(held));
    assert forall|i: int, j: int|
        0 <= i < shard.unresolved.len() && 0 <= j < shard.unresolved.len() && (
        #[trigger] shard.unresolved[i]).reason == "provider-gap"@ && (
        #[trigger] shard.unresolved[j]).family
            == shard.unresolved[i].family implies shard.unresolved[j] == shard.unresolved[i] by {
        assert(held.contains(shard.unresolved[i]));
        assert(held.contains(shard.unresolved[j]));
        let a = choose|a: int| 0 <= a < held.len() && held[a] == shard.unresolved[i];
        let b = choose|b: int| 0 <= b < held.len() && held[b] == shard.unresolved[j];
        assert(held[b] == held[a]);
    }
}

/// The shard of an indexed file lists every site without edges of that file, the whole file under every
/// family that is covered in part where the file takes part in several builds, and at least one site
/// of every such family in any case. It lists every diagnostic of the file.
pub proof fn law_shards_list_what_files_contribute(
    files: Map<FileId, SourceFileModel>,
    index: StaticIndexModel,
    target: Seq<char>,
    interface_fingerprints: Map<Seq<char>, Seq<char>>,
    source_inputs: Map<FileId, Seq<char>>,
    owners: Map<Seq<char>, Seq<char>>,
    file_id: FileId,
    s: int,
)
    ensures
        built(
            files,
            index,
            target,
            interface_fingerprints,
            source_inputs,
            owners,
        ) matches Ok(result) ==> 0 <= s < result.shards.len() && is_indexed_under(
            files,
            index,
            file_id,
            result.shards[s].source,
        ) ==> {
            let shard = result.shards[s];
            let sites = unresolved_of(
                files,
                file_id,
                files[file_id].analysis->0,
                index.tokens,
            );
            &&& files.contains_key(file_id)
            &&& files[file_id].analysis is Some
            &&& sites is Ok
            &&& forall|i: int|
                0 <= i < sites->Ok_0.len() ==> is_listed_site(
                    shard.unresolved,
                    #[trigger] sites->Ok_0[i],
                )
            &&& forall|family: Seq<char>|
                builds_in_several(index.files, file_id) && #[trigger] is_partial_family(family)
                    ==> exists|i: int|
                    0 <= i < shard.unresolved.len() && is_whole_site(
                        files,
                        file_id,
                        #[trigger] shard.unresolved[i],
                        family,
                        "conditional-build"@,
                    )
            &&& forall|family: Seq<char>| #[trigger]
                is_partial_family(family) ==> exists|i: int|
                    0 <= i < shard.unresolved.len() && (#[trigger] shard.unresolved[i]).family
                        == family
            &&& forall|d: int|
                0 <= d < files[file_id].analysis->0.diagnostics.len() ==> is_passed_on(
                    files,
                    shard.diagnostics,
                    #[trigger] files[file_id].analysis->0.diagnostics[d],
                )
        },
{
    let outcome = built(files, index, target, interface_fingerprints, source_inputs, owners);
    if outcome is Ok && 0 <= s < outcome->Ok_0.shards.len() && is_indexed_under(
        files,
        index,
        file_id,
        outcome->Ok_0.shards[s].source,
    ) {
        let shard = outcome->Ok_0.shards[s];
        let source = shard.source;
        let sources = sources_of(files, index.files);
        let listing = ordered::<FileId, Seq<char>>(sources);
        let detailed = detailed_graph(files, index, owners);
        let held = detailed.shards[source].unresolved;
        let sites = unresolved_of(files, file_id, files[file_id].analysis->0, index.tokens);
        lemma_detailed_told(files, index, target, interface_fingerprints, source_inputs, owners);
        lemma_shard_details(
            files,
            index,
            target,
            interface_fingerprints,
            source_inputs,
            owners,
            s,
        );
        assert(sources.contains_key(file_id));
        let k = choose|k: int| 0 <= k < listing.len() && (#[trigger] listing[k]).0 == file_id;
        assert(listing[k].1 == source);
        assert(is_covered_by(files, index, listing[k].0, held));
        assert(are_passed_on(files, listing[k].0, detailed.shards[source].diagnostics));
        assert forall|i: int| 0 <= i < sites->Ok_0.len() implies is_listed_site(
            shard.unresolved,
            #[trigger] sites->Ok_0[i],
        ) by {
            assert(sites->Ok_0.contains(sites->Ok_0[i]));
        }
        assert forall|family: Seq<char>|
            builds_in_several(index.files, file_id) && #[trigger] is_partial_family(
                family,
            ) implies exists|i: int|
            0 <= i < shard.unresolved.len() && is_whole_site(
                files,
                file_id,
                #[trigger] shard.unresolved[i],
                family,
                "conditional-build"@,
            ) by {
            let i = choose|i: int|
                0 <= i < held.len() && is_whole_site(
                    files,
                    file_id,
                    #[trigger] held[i],
                    family,
                    "conditional-build"@,
                );
            assert(held.contains(held[i]));
            assert(is_listed_site(shard.unresolved, held[i]));
            let j = choose|j: int|
                0 <= j < shard.unresolved.len() && (#[trigger] shard.unresolved[j]).family
                    == held[i].family && shard.unresolved[j].evidence == held[i].evidence
                    && shard.unresolved[j].reason == held[i].reason;
            lemma_no_candidates(
                files,
                index,
                target,
                interface_fingerprints,
                source_inputs,
                owners,
                s,
                j,
            );
            assert(is_whole_site(
                files,
                file_id,
                shard.unresolved[j],
                family,
                "conditional-build"@,
            ));
        }
        assert forall|family: Seq<char>| #[trigger] is_partial_family(family) implies exists|
            i: int,
        |
            0 <= i < shard.unresolved.len() && (#[trigger] shard.unresolved[i]).family
                == family by {
            assert(has_family(held, family));
            let i = choose|i: int| 0 <= i < held.len() && (#[trigger] held[i]).family == family;
            assert(held.contains(held[i]));
            assert(is_listed_site(shard.unresolved, held[i]));
        }
        assert forall|d: int|
            0 <= d < files[file_id].analysis->0.diagnostics.len() implies is_passed_on(
            files,
            shard.diagnostics,
            #[trigger] files[file_id].analysis->0.diagnostics[d],
        ) by {
            let reports = detailed.shards[source].diagnostics;
            let diagnostic = files[file_id].analysis->0.diagnostics[d];
            assert(is_passed_on(files, reports, diagnostic));
            let i = choose|i: int|
                0 <= i < reports.len() && is_reported(files, #[trigger] reports[i], diagnostic);
            assert(reports.contains(reports[i]));
            assert(shard.diagnostics.contains(reports[i]));
            let j = choose|j: int|
                0 <= j < shard.diagnostics.len() && shard.diagnostics[j] == reports[i];
            assert(is_reported(files, shard.diagnostics[j], diagnostic));
        }
    }
}

/// No site that a shard lists has candidates.
proof fn lemma_no_candidates(
    files: Map<FileId, SourceFileModel>,
    index: StaticIndexModel,
    target: Seq<char>,
    interface_fingerprints: Map<Seq<char>, Seq<char>>,
    source_inputs: Map<FileId, Seq<char>>,
    owners: Map<Seq<char>, Seq<char>>,
    s: int,
    j: int,
)
    requires
        built(files, index, target, interface_fingerprints, source_inputs, owners) is Ok,
        0 <= s < built(
            files,
            index,
            target,
            interface_fingerprints,
            source_inputs,
            owners,
        )->Ok_0.shards.len(),
        0 <= j < built(
            files,
            index,
            target,
            interface_fingerprints,
            source_inputs,
            owners,
        )->Ok_0.shards[s].unresolved.len(),
    ensures
        built(
            files,
            index,
            target,
            interface_fingerprints,
            source_inputs,
            owners,
        )->Ok_0.shards[s].unresolved[j].candidates.len() == 0,
{
    let shard = built(
        files,
        index,
        target,
        interface_fingerprints,
        source_inputs,
        owners,
    )->Ok_0.shards[s];
    law_shards_list_contributed_sites(
        files,
        index,
        target,
        interface_fingerprints,
        source_inputs,
        owners,
        s,
        j,
    );
    let site = shard.unresolved[j];
    let file_id = choose|file_id: FileId|
        #[trigger] is_indexed_under(files, index, file_id, shard.source) && is_contributed(
            files,
            index,
            file_id,
            site,
        );
    let analysis = files[file_id].analysis->0;
    let sites = unresolved_of(files, file_id, analysis, index.tokens)->Ok_0;
    if sites.contains(site) {
        let i = choose|i: int| 0 <= i < sites.len() && sites[i] == site;
        law_sites_lie_in_their_file(files, file_id, analysis, index.tokens, i);
    }
}

/// Every diagnostic that a shard lists is one of an indexed file under its path.
pub proof fn law_shards_list_reported_diagnostics(
    files: Map<FileId, SourceFileModel>,
    index: StaticIndexModel,
    target: Seq<char>,
    interface_fingerprints: Map<Seq<char>, Seq<char>>,
    source_inputs: Map<FileId, Seq<char>>,
    owners: Map<Seq<char>, Seq<char>>,
    s: int,
    i: int,
)
    ensures
        built(
            files,
            index,
            target,
            interface_fingerprints,
            source_inputs,
            owners,
        ) matches Ok(result) ==> 0 <= s < result.shards.len() && 0 <= i
            < result.shards[s].diagnostics.len() ==> exists|file_id: FileId, d: int|
            is_indexed_under(files, index, file_id, result.shards[s].source) && 0 <= d
                < files[file_id].analysis->0.diagnostics.len() && is_reported(
                files,
                result.shards[s].diagnostics[i],
                #[trigger] files[file_id].analysis->0.diagnostics[d],
            ),
{
    let outcome = built(files, index, target, interface_fingerprints, source_inputs, owners);
    if outcome is Ok && 0 <= s < outcome->Ok_0.shards.len() && 0 <= i
        < outcome->Ok_0.shards[s].diagnostics.len() {
        let shard = outcome->Ok_0.shards[s];
        let source = shard.source;
        let sources = sources_of(files, index.files);
        let listing = ordered::<FileId, Seq<char>>(sources);
        let detailed = detailed_graph(files, index, owners);
        let reports = detailed.shards[source].diagnostics;
        lemma_detailed_told(files, index, target, interface_fingerprints, source_inputs, owners);
        lemma_shard_details(
            files,
            index,
            target,
            interface_fingerprints,
            source_inputs,
            owners,
            s,
        );
        assert(shard.diagnostics.contains(shard.diagnostics[i]));
        assert(reports.contains(shard.diagnostics[i]));
        let j = choose|j: int| 0 <= j < reports.len() && reports[j] == shard.diagnostics[i];
        assert(is_reported_by_some(
            files,
            listing,
            listing.len() as int,
            source,
            detailed.shards[source].diagnostics[j],
        ));
        let (k, d) = choose|k: int, d: int|
            0 <= k < listing.len() && listing[k].1 == source && 0 <= d
                < files[listing[k].0].analysis->0.diagnostics.len() && is_reported(
                files,
                reports[j],
                #[trigger] files[listing[k].0].analysis->0.diagnostics[d],
            );
        assert(sources.contains_key(listing[k].0) && sources[listing[k].0] == source);
        assert(is_indexed_under(files, index, listing[k].0, source));
        assert(is_reported(
            files,
            shard.diagnostics[i],
            files[listing[k].0].analysis->0.diagnostics[d],
        ));
    }
}

} // verus!
