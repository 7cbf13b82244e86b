//! What the nodes and edges of shards stand for: none is there without a reason.

use vstd::prelude::*;
use vstd::string::*;

use crate::drawing::{
    extent, file_identity, is_innermost_around, is_use, lemma_definitions_listed,
    lemma_innermost_owns, surrounds,
};
use crate::edges::{
    DefinitionBodyModel, alias_node, definitions_contained, definitions_of, is_candidate, is_housed,
    is_narrowest, owner_of, reference_added, reference_owner, relation_edge, relations_added,
    target_node, target_source, token_referenced, tokens_referenced,
};
use crate::files::{
    FileId, FileRange, SourceDiagnosticModel, SourceFileModel, evidence_of, required_evidence_of,
    source_of,
};
use crate::graph::{
    GraphModel, MutableShardModel, claimed, claimed_if_free, has_edge, with_edge, with_node,
    with_unresolved,
};
use crate::housing::{
    is_finished_from, lemma_claim_keeps, lemma_definitions_keep, lemma_edge_keeps, lemma_housed_on,
    lemma_keeps_on, lemma_node_keeps, lemma_reference_keeps, lemma_relation_keeps,
    lemma_relations_keep, lemma_built_list, lemma_sorted_shards, lemma_stages, lemma_start,
    lemma_tests_home, named_graph, referenced_graph, whole_graph,
};
use crate::moniker::SymbolInformationKind;
use crate::nodes::{
    digests_of, empty_shards, file_node, file_node_id, files_placed, is_indexed, placements,
    sources_of, token_node, token_owner, tokens_placed,
};
use crate::shards::{
    built, diagnostics_added, file_detailed, files_detailed, is_conditional, is_exercise, is_test,
    is_test_attribute, is_test_mark, shard_tests, test_edge, tests_added, tests_of,
};
use crate::snapshot::{
    GraphSnapshotEdge, GraphSnapshotEdgeModel, GraphSnapshotNode, GraphSnapshotNodeModel,
    GraphSnapshotShardModel, GraphSnapshotUnresolvedModel,
};
use crate::sorting::{
    lemma_neighbours_differ, lemma_stable_sorted, lemma_stable_sorted_contains, stable_sorted,
};
use crate::static_index::{
    StaticIndexModel, StaticIndexedFileModel, StaticReferenceRole, StaticRelationKind,
    StaticRelationModel, TokenStaticDataModel,
};
use crate::table::{lemma_ordered_lists, lists, ordered};
use crate::text::after_last;
use crate::unresolved::{conditional_sites, coverage_model, gap_sites, unresolved_of};

verus! {

/// Whether a name is that of the nodes of declarations of a kind.
pub open spec fn is_node_kind(kind: SymbolInformationKind, name: Seq<char>) -> bool {
    &&& kind == SymbolInformationKind::Module ==> name == "module"@
    &&& kind == SymbolInformationKind::Function || kind == SymbolInformationKind::Macro || kind
        == SymbolInformationKind::Attribute ==> name == "function"@
    &&& kind == SymbolInformationKind::Method || kind == SymbolInformationKind::StaticMethod
        || kind == SymbolInformationKind::TraitMethod ==> name == "method"@
    &&& kind == SymbolInformationKind::Struct || kind == SymbolInformationKind::Union ==> name
        == "class"@
    &&& kind == SymbolInformationKind::Trait ==> name == "interface"@
    &&& kind == SymbolInformationKind::Enum ==> name == "enum"@
    &&& kind == SymbolInformationKind::Type || kind == SymbolInformationKind::TypeAlias || kind
        == SymbolInformationKind::AssociatedType || kind == SymbolInformationKind::TypeParameter
        ==> name == "type"@
    &&& kind == SymbolInformationKind::Field ==> name == "field"@
    &&& kind == SymbolInformationKind::Parameter || kind == SymbolInformationKind::SelfParameter
        ==> name == "parameter"@
    &&& kind == SymbolInformationKind::Constant || kind == SymbolInformationKind::EnumMember
        || kind == SymbolInformationKind::StaticVariable || kind == SymbolInformationKind::Variable
        ==> name == "variable"@
}

/// Whether a node is that of a source file.
pub open spec fn is_file_node(source: Seq<char>, node: GraphSnapshotNodeModel) -> bool {
    &&& node.id == file_identity(source)
    &&& node.kind == "file"@
    &&& node.name == after_last(source, "/"@)
    &&& node.qualified_name is None
    &&& node.file == source
    &&& !node.external
    &&& !node.exported
    &&& node.signature is None
    &&& node.evidence is None
}

/// Whether a node is that of a declaration. One of the workspace lies where it is declared; one from
/// outside, or that is declared nowhere, is external and lies among the dependencies.
pub open spec fn is_declaration_node(
    files: Map<FileId, SourceFileModel>,
    token: TokenStaticDataModel,
    node: GraphSnapshotNodeModel,
) -> bool {
    &&& node.id == token.stable_id
    &&& is_node_kind(token.kind, node.kind)
    &&& token.display_name is Some ==> node.name == token.display_name->0
    &&& token.display_name is None ==> token.qualified_name is Some && node.name == after_last(
        token.qualified_name->0,
        "::"@,
    )
    &&& node.qualified_name == token.qualified_name
    &&& node.exported == token.exported
    &&& node.signature == token.signature
    &&& token.external || token.definition is None ==> node.external && node.file
        == "bundled:///rust/dependencies"@ && node.evidence is None
    &&& !token.external && token.definition is Some ==> !node.external && node.file == source_of(
        files,
        token.definition->0.file_id,
    ) && node.evidence == evidence_of(files, token.definition->0)
}

/// Whether a node is that of an alias under which a reference in a source file exports a declaration.
pub open spec fn is_alias_node(
    files: Map<FileId, SourceFileModel>,
    index: StaticIndexModel,
    source: Seq<char>,
    t: int,
    r: int,
    node: GraphSnapshotNodeModel,
) -> bool {
    let reference = index.tokens[t].references[r];
    &&& is_use(index, t, r)
    &&& reference.export is Some
    &&& source == source_of(files, reference.range.file_id)
    &&& node.id == reference.export->0.alias_id
    &&& is_node_kind(index.tokens[t].kind, node.kind)
    &&& node.name == reference.export->0.alias
    &&& node.qualified_name == Some(reference.export->0.qualified_name)
    &&& node.file == source
    &&& !node.external
    &&& node.exported
    &&& node.signature == index.tokens[t].signature
    &&& node.evidence == evidence_of(files, reference.export->0.alias_range)
}

/// Whether a node is that of the target of a relation.
pub open spec fn is_target_node(
    files: Map<FileId, SourceFileModel>,
    relation: StaticRelationModel,
    node: GraphSnapshotNodeModel,
) -> bool {
    &&& node.id == relation.to
    &&& is_node_kind(relation.to_kind, node.kind)
    &&& Some(node.name) == relation.to_display_name
    &&& node.qualified_name == relation.to_qualified_name
    &&& node.exported == relation.to_exported
    &&& node.signature == Some(relation.to_signature)
    &&& node.evidence is None
    &&& relation.to_external || relation.to_definition_file is None ==> node.external && node.file
        == "bundled:///rust/dependencies"@
    &&& !relation.to_external && relation.to_definition_file is Some ==> !node.external && node.file
        == source_of(files, relation.to_definition_file->0)
}

/// Whether a node in the shard of a source file stands for something.
pub open spec fn has_origin(
    files: Map<FileId, SourceFileModel>,
    index: StaticIndexModel,
    source: Seq<char>,
    node: GraphSnapshotNodeModel,
) -> bool {
    ||| is_file_node(source, node)
    ||| exists|t: int|
        0 <= t < index.tokens.len() && is_declaration_node(files, #[trigger] index.tokens[t], node)
    ||| exists|t: int, r: int| #[trigger] is_alias_node(files, index, source, t, r, node)
    ||| exists|k: int|
        0 <= k < index.relations.len() && is_target_node(files, #[trigger] index.relations[k], node)
}

/// Whether a kind of edges is that of references of a role.
pub open spec fn is_use_kind(role: StaticReferenceRole, kind: Seq<char>) -> bool {
    &&& role == StaticReferenceRole::Access ==> kind == "accesses"@
    &&& role == StaticReferenceRole::Call ==> kind == "calls"@
    &&& role == StaticReferenceRole::Decorate ==> kind == "decorates"@
    &&& role == StaticReferenceRole::Export ==> kind == "exports"@
    &&& role == StaticReferenceRole::Import ==> kind == "imports"@
    &&& role == StaticReferenceRole::Instantiate ==> kind == "instantiates"@
    &&& role == StaticReferenceRole::Reference ==> kind == "references"@
    &&& role == StaticReferenceRole::Type ==> kind == "type_ref"@
}

/// Whether a kind of edges is that of relations of a kind.
pub open spec fn is_relation_kind(relation: StaticRelationKind, kind: Seq<char>) -> bool {
    &&& relation == StaticRelationKind::Extends ==> kind == "extends"@
    &&& relation == StaticRelationKind::Implements ==> kind == "implements"@
    &&& relation == StaticRelationKind::Overrides ==> kind == "overrides"@
}

/// Whether an identity is that of the innermost declaration, other than the excluded one, around a
/// range, or that of its source file where there is none.
pub open spec fn is_around(
    files: Map<FileId, SourceFileModel>,
    tokens: Seq<TokenStaticDataModel>,
    range: FileRange,
    excluded: Option<int>,
    id: Seq<char>,
) -> bool {
    ||| exists|d: int|
        #[trigger] is_innermost_around(tokens, d, range, excluded) && id == tokens[d].stable_id
    ||| id == file_identity(source_of(files, range.file_id)) && forall|d: int|
        #[trigger] surrounds(tokens, d, range) ==> excluded == Some(d)
}

/// Whether an edge is that of a reference without an alias.
pub open spec fn is_use_edge(
    files: Map<FileId, SourceFileModel>,
    index: StaticIndexModel,
    source: Seq<char>,
    t: int,
    r: int,
    edge: GraphSnapshotEdgeModel,
) -> bool {
    let reference = index.tokens[t].references[r];
    &&& is_use(index, t, r)
    &&& reference.export is None
    &&& source == source_of(files, reference.range.file_id)
    &&& edge.to == index.tokens[t].stable_id
    &&& is_use_kind(reference.role, edge.kind)
    &&& edge.evidence == evidence_of(files, reference.range)
    &&& reference.role == StaticReferenceRole::Export ==> edge.from == file_identity(source)
    &&& reference.role != StaticReferenceRole::Export ==> is_around(
        files,
        index.tokens,
        reference.range,
        None,
        edge.from,
    )
}

/// Whether an edge is one of those of a reference that exports under an alias: from the module that
/// exports to the alias, or from the alias to the declaration.
pub open spec fn is_alias_edge(
    files: Map<FileId, SourceFileModel>,
    index: StaticIndexModel,
    source: Seq<char>,
    t: int,
    r: int,
    edge: GraphSnapshotEdgeModel,
) -> bool {
    let reference = index.tokens[t].references[r];
    &&& is_use(index, t, r)
    &&& reference.export is Some
    &&& source == source_of(files, reference.range.file_id)
    &&& {
        ||| edge.from == reference.export->0.exporter && edge.to == reference.export->0.alias_id
            && edge.kind == "exports"@ && edge.evidence == evidence_of(
            files,
            reference.export->0.alias_range,
        )
        ||| edge.from == reference.export->0.alias_id && edge.to == index.tokens[t].stable_id
            && edge.kind == "references"@ && edge.evidence == evidence_of(files, reference.range)
    }
}

/// Whether an edge is that of a relation in an indexed file.
pub open spec fn is_relation_edge(
    files: Map<FileId, SourceFileModel>,
    index: StaticIndexModel,
    source: Seq<char>,
    relation: StaticRelationModel,
    edge: GraphSnapshotEdgeModel,
) -> bool {
    &&& is_indexed(index.files, relation.file_id)
    &&& source == source_of(files, relation.file_id)
    &&& edge.from == relation.from
    &&& edge.to == relation.to
    &&& is_relation_kind(relation.kind, edge.kind)
    &&& edge.evidence is None
}

/// Whether an edge is one of those to a declaration whose body lies in an indexed file: from what is
/// around it, or, where it is exported, from its source file.
pub open spec fn is_containment_edge(
    files: Map<FileId, SourceFileModel>,
    index: StaticIndexModel,
    d: int,
    edge: GraphSnapshotEdgeModel,
) -> bool {
    let token = index.tokens[d];
    &&& 0 <= d < index.tokens.len()
    &&& token.definition_body is Some
    &&& is_indexed(index.files, token.definition_body->0.file_id)
    &&& edge.to == token.stable_id
    &&& edge.evidence == evidence_of(
        files,
        if token.definition is Some {
            token.definition->0
        } else {
            token.definition_body->0
        },
    )
    &&& {
        ||| edge.kind == "contains"@ && is_around(
            files,
            index.tokens,
            token.definition_body->0,
            Some(d),
            edge.from,
        )
        ||| edge.kind == "exports"@ && token.exported && edge.from == file_identity(
            source_of(files, token.definition_body->0.file_id),
        )
    }
}

/// Whether an edge in the shard of a source file stands for something.
pub open spec fn has_cause(
    files: Map<FileId, SourceFileModel>,
    index: StaticIndexModel,
    source: Seq<char>,
    edge: GraphSnapshotEdgeModel,
) -> bool {
    ||| exists|t: int, r: int| #[trigger] is_use_edge(files, index, source, t, r, edge)
    ||| exists|t: int, r: int| #[trigger] is_alias_edge(files, index, source, t, r, edge)
    ||| exists|k: int|
        0 <= k < index.relations.len() && is_relation_edge(
            files,
            index,
            source,
            #[trigger] index.relations[k],
            edge,
        )
    ||| exists|d: int| #[trigger] is_containment_edge(files, index, d, edge)
}

/// Whether everything in a graph stands for something.
pub open spec fn is_grounded(
    files: Map<FileId, SourceFileModel>,
    index: StaticIndexModel,
    graph: GraphModel,
) -> bool {
    &&& forall|source: Seq<char>, i: int|
        graph.shards.contains_key(source) && 0 <= i < graph.shards[source].nodes.len()
            ==> has_origin(files, index, source, #[trigger] graph.shards[source].nodes[i])
    &&& forall|source: Seq<char>, i: int|
        graph.shards.contains_key(source) && 0 <= i < graph.shards[source].edges.len()
            ==> has_cause(files, index, source, #[trigger] graph.shards[source].edges[i])
}

proof fn lemma_node_grounded(
    files: Map<FileId, SourceFileModel>,
    index: StaticIndexModel,
    graph: GraphModel,
    source: Seq<char>,
    node: GraphSnapshotNodeModel,
)
    requires
        is_grounded(files, index, graph),
        has_origin(files, index, source, node),
    ensures
        is_grounded(files, index, with_node(graph, source, node)),
{
    let after = with_node(graph, source, node);
    assert forall|other: Seq<char>, i: int|
        after.shards.contains_key(other) && 0 <= i
            < after.shards[other].nodes.len() implies has_origin(
        files,
        index,
        other,
        #[trigger] after.shards[other].nodes[i],
    ) by {
        if other == source && graph.shards.contains_key(source) && i
            == graph.shards[source].nodes.len() {
        } else {
            assert(after.shards[other].nodes[i] == graph.shards[other].nodes[i]);
        }
    }
    assert forall|other: Seq<char>, i: int|
        after.shards.contains_key(other) && 0 <= i
            < after.shards[other].edges.len() implies has_cause(
        files,
        index,
        other,
        #[trigger] after.shards[other].edges[i],
    ) by {
        assert(after.shards[other].edges[i] == graph.shards[other].edges[i]);
    }
}

proof fn lemma_edge_grounded(
    files: Map<FileId, SourceFileModel>,
    index: StaticIndexModel,
    graph: GraphModel,
    source: Seq<char>,
    edge: GraphSnapshotEdgeModel,
)
    requires
        is_grounded(files, index, graph),
        graph.shards.contains_key(source),
        has_cause(files, index, source, edge),
    ensures
        is_grounded(files, index, with_edge(graph, source, edge)),
{
    let after = with_edge(graph, source, edge);
    assert forall|other: Seq<char>, i: int|
        after.shards.contains_key(other) && 0 <= i
            < after.shards[other].nodes.len() implies has_origin(
        files,
        index,
        other,
        #[trigger] after.shards[other].nodes[i],
    ) by {
        assert(after.shards[other].nodes[i] == graph.shards[other].nodes[i]);
    }
    assert forall|other: Seq<char>, i: int|
        after.shards.contains_key(other) && 0 <= i
            < after.shards[other].edges.len() implies has_cause(
        files,
        index,
        other,
        #[trigger] after.shards[other].edges[i],
    ) by {
        if other == source && i == graph.shards[source].edges.len() {
        } else {
            assert(after.shards[other].edges[i] == graph.shards[other].edges[i]);
        }
    }
}

proof fn lemma_claim_grounded(
    files: Map<FileId, SourceFileModel>,
    index: StaticIndexModel,
    graph: GraphModel,
    id: Seq<char>,
    source: Seq<char>,
)
    requires
        is_grounded(files, index, graph),
    ensures
        is_grounded(files, index, claimed(graph, id, source)),
        is_grounded(files, index, claimed_if_free(graph, id, source)),
{
    let after = claimed(graph, id, source);
    assert(after.shards == graph.shards);
    assert forall|other: Seq<char>, i: int|
        after.shards.contains_key(other) && 0 <= i
            < after.shards[other].nodes.len() implies has_origin(
        files,
        index,
        other,
        #[trigger] after.shards[other].nodes[i],
    ) by {
        assert(after.shards[other].nodes[i] == graph.shards[other].nodes[i]);
    }
    assert forall|other: Seq<char>, i: int|
        after.shards.contains_key(other) && 0 <= i
            < after.shards[other].edges.len() implies has_cause(
        files,
        index,
        other,
        #[trigger] after.shards[other].edges[i],
    ) by {
        assert(after.shards[other].edges[i] == graph.shards[other].edges[i]);
    }
}

proof fn lemma_tokens_grounded(
    files: Map<FileId, SourceFileModel>,
    index: StaticIndexModel,
    graph: GraphModel,
    count: int,
)
    requires
        is_grounded(files, index, graph),
        0 <= count <= index.tokens.len(),
    ensures
        is_grounded(
            files,
            index,
            tokens_placed(files, sources_of(files, index.files), graph, index.tokens, count),
        ),
    decreases count,
{
    let sources = sources_of(files, index.files);
    if count > 0 {
        lemma_tokens_grounded(files, index, graph, count - 1);
        let before = tokens_placed(files, sources, graph, index.tokens, count - 1);
        let token = index.tokens[count - 1];
        match (token_node(files, token), token_owner(files, sources, before.owners, token)) {
            (Some(node), Some(source)) => {
                assert(is_declaration_node(files, index.tokens[count - 1], node));
                lemma_claim_grounded(files, index, before, node.id, source);
                lemma_node_grounded(
                    files,
                    index,
                    claimed_if_free(before, node.id, source),
                    source,
                    node,
                );
            },
            _ => {},
        }
    }
}

proof fn lemma_files_grounded(
    files: Map<FileId, SourceFileModel>,
    index: StaticIndexModel,
    graph: GraphModel,
    listing: Seq<(FileId, Seq<char>)>,
    count: int,
)
    requires
        is_grounded(files, index, graph),
    ensures
        is_grounded(files, index, files_placed(graph, listing, count)),
    decreases count,
{
    if count > 0 {
        lemma_files_grounded(files, index, graph, listing, count - 1);
        let before = files_placed(graph, listing, count - 1);
        let source = listing[count - 1].1;
        assert(is_file_node(source, file_node(source)));
        lemma_claim_grounded(files, index, before, file_node_id(source), source);
        lemma_node_grounded(
            files,
            index,
            claimed(before, file_node_id(source), source),
            source,
            file_node(source),
        );
    }
}

/// The number of an excluded declaration.
spec fn excluded_number(excluded: Option<int>) -> Option<usize> {
    match excluded {
        Some(other) => Some(other as usize),
        None => None,
    }
}

/// What owns a range is what is around it.
proof fn lemma_owner_is_around(
    files: Map<FileId, SourceFileModel>,
    index: StaticIndexModel,
    range: FileRange,
    excluded: Option<int>,
)
    requires
        index.tokens.len() <= usize::MAX,
        is_indexed(index.files, range.file_id),
        excluded matches Some(other) ==> 0 <= other < index.tokens.len(),
    ensures
        ({
            let sources = sources_of(files, index.files);
            let found = definitions_of(sources, index.tokens, index.tokens.len() as int);
            let but: Option<usize> = match excluded {
                Some(other) => Some(other as usize),
                None => None,
            };
            is_around(
                files,
                index.tokens,
                range,
                excluded,
                match owner_of(found, range, but) {
                    Some(owner) => owner,
                    None => file_identity(source_of(files, range.file_id)),
                },
            )
        }),
{
    let sources = sources_of(files, index.files);
    let tokens = index.tokens;
    let found = definitions_of(sources, tokens, tokens.len() as int);
    let but: Option<usize> = match excluded {
        Some(other) => Some(other as usize),
        None => None,
    };
    lemma_definitions_listed(sources, tokens, tokens.len() as int);
    if exists|at: int| is_narrowest(found, range, but, at) {
        let at = choose|at: int| is_narrowest(found, range, but, at);
        let d = found[at].token as int;
        assert(is_candidate(found[at], range, but));
        assert(is_innermost_around(tokens, d, range, excluded)) by {
            assert forall|other: int| #[trigger]
                surrounds(tokens, other, range) && excluded != Some(other) implies extent(
                tokens,
                d,
            ) < extent(tokens, other) || extent(tokens, d) == extent(tokens, other) && d
                <= other by {
                assert(tokens[other].definition_body is Some);
                let j = choose|j: int|
                    0 <= j < found.len() && (#[trigger] found[j]).token as int == other;
                assert(is_candidate(found[j], range, but));
                if at < j {
                    assert(found[at].token < found[j].token);
                }
            }
        }
        lemma_innermost_owns(sources, tokens, range, excluded, d);
    } else {
        assert forall|d: int| #[trigger] surrounds(tokens, d, range) implies excluded == Some(
            d,
        ) by {
            if excluded != Some(d) {
                lemma_some_narrowest(sources, tokens, range, excluded, d);
                assert(but == excluded_number(excluded));
            }
        }
    }
}

/// Where some body holds a range, one is the narrowest.
proof fn lemma_some_narrowest(
    sources: Map<FileId, Seq<char>>,
    tokens: Seq<TokenStaticDataModel>,
    range: FileRange,
    excluded: Option<int>,
    d: int,
)
    requires
        tokens.len() <= usize::MAX,
        sources.contains_key(range.file_id),
        excluded matches Some(other) ==> 0 <= other < tokens.len(),
        surrounds(tokens, d, range),
        excluded != Some(d),
    ensures
        exists|at: int|
            is_narrowest(
                definitions_of(sources, tokens, tokens.len() as int),
                range,
                excluded_number(excluded),
                at,
            ),
{
    let found = definitions_of(sources, tokens, tokens.len() as int);
    let but: Option<usize> = match excluded {
        Some(other) => Some(other as usize),
        None => None,
    };
    lemma_definitions_listed(sources, tokens, tokens.len() as int);
    assert(tokens[d].definition_body is Some);
    let i = choose|i: int| 0 <= i < found.len() && (#[trigger] found[i]).token as int == d;
    assert(is_candidate(found[i], range, but));
    let at = lemma_narrowest_among(found, range, but, found.len() as int, i);
    assert(found.take(found.len() as int) =~= found);
    assert(is_narrowest(found, range, but, at));
}

proof fn lemma_narrowest_among(
    found: Seq<DefinitionBodyModel>,
    range: FileRange,
    but: Option<usize>,
    count: int,
    i: int,
) -> (at: int)
    requires
        0 <= i < count <= found.len(),
        is_candidate(found[i], range, but),
    ensures
        is_narrowest(found.take(count), range, but, at),
    decreases count,
{
    let some = found.take(count);
    let last = count - 1;
    if exists|k: int| 0 <= k < last && is_candidate(#[trigger] found[k], range, but) {
        let k = choose|k: int| 0 <= k < last && is_candidate(#[trigger] found[k], range, but);
        let before = lemma_narrowest_among(found, range, but, last, k);
        let fewer = found.take(last);
        assert forall|j: int| 0 <= j < last implies #[trigger] fewer[j] == some[j] by {}
        if is_candidate(found[last], range, but) && found[last].body.range.width()
            < found[before].body.range.width() {
            assert forall|other: int|
                0 <= other < some.len() && is_candidate(
                    #[trigger] some[other],
                    range,
                    but,
                ) implies some[last].body.range.width() < some[other].body.range.width() || (
            some[last].body.range.width() == some[other].body.range.width() && last <= other) by {
                if other < last {
                    assert(fewer[other] == some[other]);
                }
            }
            last
        } else {
            assert forall|other: int|
                0 <= other < some.len() && is_candidate(
                    #[trigger] some[other],
                    range,
                    but,
                ) implies some[before].body.range.width() < some[other].body.range.width() || (
            some[before].body.range.width() == some[other].body.range.width() && before
                <= other) by {
                if other < last {
                    assert(fewer[other] == some[other]);
                }
            }
            before
        }
    } else {
        assert(i == last);
        assert forall|other: int|
            0 <= other < some.len() && is_candidate(
                #[trigger] some[other],
                range,
                but,
            ) implies other == last by {
            if other < last {
                assert(is_candidate(found[other], range, but));
            }
        }
        last
    }
}

proof fn lemma_reference_grounded(
    files: Map<FileId, SourceFileModel>,
    index: StaticIndexModel,
    graph: GraphModel,
    t: int,
    r: int,
)
    requires
        index.tokens.len() <= usize::MAX,
        is_grounded(files, index, graph),
        is_housed(sources_of(files, index.files), graph),
        0 <= t < index.tokens.len(),
        0 <= r < index.tokens[t].references.len(),
    ensures
        ({
            let sources = sources_of(files, index.files);
            is_grounded(
                files,
                index,
                reference_added(
                    files,
                    sources,
                    definitions_of(sources, index.tokens, index.tokens.len() as int),
                    graph,
                    index.tokens[t],
                    index.tokens[t].references[r],
                ),
            )
        }),
{
    let sources = sources_of(files, index.files);
    let definitions = definitions_of(sources, index.tokens, index.tokens.len() as int);
    let token = index.tokens[t];
    let reference = token.references[r];
    if !reference.is_definition && sources.contains_key(reference.range.file_id) {
        let source = sources[reference.range.file_id];
        assert(is_indexed(index.files, reference.range.file_id));
        assert(is_use(index, t, r));
        match reference.export {
            Some(export) => {
                let owned = claimed(graph, export.alias_id, source);
                let node = alias_node(files, source, token, export);
                let named = with_node(owned, source, node);
                let first = GraphSnapshotEdgeModel {
                    from: export.exporter,
                    to: export.alias_id,
                    kind: "exports"@,
                    evidence: evidence_of(files, export.alias_range),
                };
                let second = GraphSnapshotEdgeModel {
                    from: export.alias_id,
                    to: token.stable_id,
                    kind: "references"@,
                    evidence: evidence_of(files, reference.range),
                };
                lemma_claim_grounded(files, index, graph, export.alias_id, source);
                assert(is_alias_node(files, index, source, t, r, node));
                lemma_node_grounded(files, index, owned, source, node);
                lemma_claim_keeps(graph, export.alias_id, source);
                lemma_node_keeps(owned, source, node);
                lemma_keeps_on(graph, owned, named);
                lemma_housed_on(sources, graph, named);
                assert(is_alias_edge(files, index, source, t, r, first));
                lemma_edge_grounded(files, index, named, source, first);
                lemma_edge_keeps(named, source, first);
                lemma_housed_on(sources, named, with_edge(named, source, first));
                assert(is_alias_edge(files, index, source, t, r, second));
                lemma_edge_grounded(files, index, with_edge(named, source, first), source, second);
            },
            None => {
                let edge = GraphSnapshotEdgeModel {
                    from: reference_owner(definitions, source, reference),
                    to: token.stable_id,
                    kind: crate::nodes::reference_kind_name(reference.role),
                    evidence: evidence_of(files, reference.range),
                };
                if reference.role != StaticReferenceRole::Export {
                    lemma_owner_is_around(files, index, reference.range, None);
                }
                assert(is_use_edge(files, index, source, t, r, edge));
                lemma_edge_grounded(files, index, graph, source, edge);
            },
        }
    }
}

proof fn lemma_token_references_grounded(
    files: Map<FileId, SourceFileModel>,
    index: StaticIndexModel,
    graph: GraphModel,
    t: int,
    count: int,
)
    requires
        index.tokens.len() <= usize::MAX,
        is_grounded(files, index, graph),
        is_housed(sources_of(files, index.files), graph),
        0 <= t < index.tokens.len(),
        0 <= count <= index.tokens[t].references.len(),
    ensures
        ({
            let sources = sources_of(files, index.files);
            let after = token_referenced(
                files,
                sources,
                definitions_of(sources, index.tokens, index.tokens.len() as int),
                graph,
                index.tokens[t],
                count,
            );
            is_grounded(files, index, after) && is_housed(sources, after)
        }),
    decreases count,
{
    let sources = sources_of(files, index.files);
    let definitions = definitions_of(sources, index.tokens, index.tokens.len() as int);
    let token = index.tokens[t];
    if count > 0 {
        lemma_token_references_grounded(files, index, graph, t, count - 1);
        let before = token_referenced(files, sources, definitions, graph, token, count - 1);
        lemma_reference_grounded(files, index, before, t, count - 1);
        lemma_reference_keeps(
            files,
            sources,
            definitions,
            before,
            token,
            token.references[count - 1],
        );
        lemma_housed_on(
            sources,
            before,
            token_referenced(files, sources, definitions, graph, token, count),
        );
    }
}

proof fn lemma_references_grounded(
    files: Map<FileId, SourceFileModel>,
    index: StaticIndexModel,
    placed: Seq<(bool, Option<Seq<char>>)>,
    graph: GraphModel,
    count: int,
)
    requires
        index.tokens.len() <= usize::MAX,
        is_grounded(files, index, graph),
        is_housed(sources_of(files, index.files), graph),
        0 <= count <= index.tokens.len(),
    ensures
        ({
            let sources = sources_of(files, index.files);
            let after = tokens_referenced(
                files,
                sources,
                definitions_of(sources, index.tokens, index.tokens.len() as int),
                placed,
                graph,
                index.tokens,
                count,
            );
            is_grounded(files, index, after) && is_housed(sources, after)
        }),
    decreases count,
{
    let sources = sources_of(files, index.files);
    let definitions = definitions_of(sources, index.tokens, index.tokens.len() as int);
    if count > 0 {
        lemma_references_grounded(files, index, placed, graph, count - 1);
        let before = tokens_referenced(
            files,
            sources,
            definitions,
            placed,
            graph,
            index.tokens,
            count - 1,
        );
        lemma_token_references_grounded(
            files,
            index,
            before,
            count - 1,
            index.tokens[count - 1].references.len() as int,
        );
    }
}

proof fn lemma_relations_grounded(
    files: Map<FileId, SourceFileModel>,
    index: StaticIndexModel,
    graph: GraphModel,
    count: int,
)
    requires
        is_grounded(files, index, graph),
        is_housed(sources_of(files, index.files), graph),
        0 <= count <= index.relations.len(),
    ensures
        ({
            let sources = sources_of(files, index.files);
            let after = relations_added(files, sources, graph, index.relations, count);
            is_grounded(files, index, after) && is_housed(sources, after)
        }),
    decreases count,
{
    let sources = sources_of(files, index.files);
    if count > 0 {
        lemma_relations_grounded(files, index, graph, count - 1);
        let before = relations_added(files, sources, graph, index.relations, count - 1);
        let relation = index.relations[count - 1];
        lemma_relation_keeps(files, sources, before, relation);
        lemma_housed_on(
            sources,
            before,
            relations_added(files, sources, graph, index.relations, count),
        );
        if sources.contains_key(relation.file_id) && before.owners.contains_key(relation.from) {
            let source = sources[relation.file_id];
            let edge = relation_edge(relation);
            assert(is_relation_edge(files, index, source, index.relations[count - 1], edge));
            if before.owners.contains_key(relation.to) {
                lemma_edge_grounded(files, index, before, source, edge);
            } else {
                match relation.to_display_name {
                    None => {},
                    Some(name) => {
                        let owner = match target_source(files, relation) {
                            Some(target) => target,
                            None => source,
                        };
                        let node = target_node(files, relation, name);
                        let added = with_node(before, owner, node);
                        assert(is_target_node(files, index.relations[count - 1], node));
                        lemma_node_grounded(files, index, before, owner, node);
                        lemma_claim_grounded(files, index, added, relation.to, owner);
                        lemma_node_keeps(before, owner, node);
                        lemma_housed_on(sources, before, added);
                        lemma_edge_grounded(
                            files,
                            index,
                            claimed(added, relation.to, owner),
                            source,
                            edge,
                        );
                    },
                }
            }
        }
    }
}

proof fn lemma_definitions_grounded(
    files: Map<FileId, SourceFileModel>,
    index: StaticIndexModel,
    placed: Seq<(bool, Option<Seq<char>>)>,
    graph: GraphModel,
    count: int,
)
    requires
        index.tokens.len() <= usize::MAX,
        is_grounded(files, index, graph),
        ({
            let sources = sources_of(files, index.files);
            let definitions = definitions_of(sources, index.tokens, index.tokens.len() as int);
            &&& 0 <= count <= definitions.len()
            &&& definitions_contained(
                files,
                sources,
                definitions,
                placed,
                index.tokens,
                graph,
                count,
            ) is Ok
        }),
    ensures
        ({
            let sources = sources_of(files, index.files);
            let definitions = definitions_of(sources, index.tokens, index.tokens.len() as int);
            is_grounded(
                files,
                index,
                definitions_contained(
                    files,
                    sources,
                    definitions,
                    placed,
                    index.tokens,
                    graph,
                    count,
                )->Ok_0,
            )
        }),
    decreases count,
{
    let sources = sources_of(files, index.files);
    let definitions = definitions_of(sources, index.tokens, index.tokens.len() as int);
    if count > 0 {
        lemma_definitions_grounded(files, index, placed, graph, count - 1);
        let before = definitions_contained(
            files,
            sources,
            definitions,
            placed,
            index.tokens,
            graph,
            count - 1,
        )->Ok_0;
        let definition = definitions[count - 1];
        lemma_definitions_listed(sources, index.tokens, index.tokens.len() as int);
        let d = definition.token as int;
        match placed[definition.token as int].1 {
            None => {},
            Some(source) => {
                let token = index.tokens[d];
                let file = file_node_id(sources[definition.body.file_id]);
                let at = match token.definition {
                    Some(range) => range,
                    None => definition.body,
                };
                let first = GraphSnapshotEdgeModel {
                    from: match owner_of(definitions, definition.body, Some(definition.token)) {
                        Some(parent) => parent,
                        None => file,
                    },
                    to: definition.id,
                    kind: "contains"@,
                    evidence: evidence_of(files, at),
                };
                lemma_owner_is_around(files, index, definition.body, Some(d));
                assert(d as usize == definition.token);
                assert(is_containment_edge(files, index, d, first));
                lemma_edge_grounded(files, index, before, source, first);
                lemma_edge_keeps(before, source, first);
                if token.exported {
                    let second = GraphSnapshotEdgeModel {
                        from: file,
                        to: definition.id,
                        kind: "exports"@,
                        evidence: evidence_of(files, at),
                    };
                    assert(is_containment_edge(files, index, d, second));
                    let contained = with_edge(before, source, first);
                    assert(contained.shards.dom().contains(source));
                    lemma_edge_grounded(files, index, contained, source, second);
                }
            },
        }
    }
}

/// Whether two graphs have the same nodes and edges in the same shards.
pub open spec fn is_alike(before: GraphModel, after: GraphModel) -> bool {
    &&& after.shards.dom() == before.shards.dom()
    &&& forall|source: Seq<char>| #[trigger]
        after.shards.contains_key(source) ==> after.shards[source].nodes
            == before.shards[source].nodes && after.shards[source].edges
            == before.shards[source].edges && after.shards[source].source
            == before.shards[source].source
}

proof fn lemma_alike_on(first: GraphModel, second: GraphModel, third: GraphModel)
    requires
        is_alike(first, second),
        is_alike(second, third),
    ensures
        is_alike(first, third),
{
    assert forall|source: Seq<char>| #[trigger]
        third.shards.contains_key(source) implies third.shards[source].nodes
        == first.shards[source].nodes && third.shards[source].edges == first.shards[source].edges
        && third.shards[source].source == first.shards[source].source by {
        assert(second.shards.dom().contains(source));
    }
}

proof fn lemma_site_alike(
    graph: GraphModel,
    source: Seq<char>,
    sites: Seq<GraphSnapshotUnresolvedModel>,
)
    requires
        graph.shards.contains_key(source),
    ensures
        is_alike(graph, with_unresolved(graph, source, sites)),
{
    assert(with_unresolved(graph, source, sites).shards.dom() =~= graph.shards.dom());
}

proof fn lemma_diagnostics_alike(
    files: Map<FileId, SourceFileModel>,
    source: Seq<char>,
    graph: GraphModel,
    diagnostics: Seq<SourceDiagnosticModel>,
    count: int,
)
    requires
        graph.shards.contains_key(source),
    ensures
        diagnostics_added(files, source, graph, diagnostics, count) matches Ok(after) ==> is_alike(
            graph,
            after,
        ),
    decreases count,
{
    if count > 0 {
        lemma_diagnostics_alike(files, source, graph, diagnostics, count - 1);
        match diagnostics_added(files, source, graph, diagnostics, count - 1) {
            Ok(before) => {
                match diagnostics_added(files, source, graph, diagnostics, count) {
                    Ok(after) => {
                        assert(before.shards.dom().contains(source));
                        assert(after.shards.dom() =~= before.shards.dom());
                        assert(is_alike(before, after));
                        lemma_alike_on(graph, before, after);
                    },
                    Err(_) => {},
                }
            },
            Err(_) => {},
        }
    }
}

proof fn lemma_detail_alike(
    files: Map<FileId, SourceFileModel>,
    indexed: Seq<StaticIndexedFileModel>,
    tokens: Seq<TokenStaticDataModel>,
    graph: GraphModel,
    file_id: FileId,
    source: Seq<char>,
)
    requires
        graph.shards.contains_key(source),
    ensures
        file_detailed(files, indexed, tokens, graph, file_id, source) matches Ok(after) ==> is_alike(
            graph,
            after,
        ),
{
    if file_detailed(files, indexed, tokens, graph, file_id, source) is Ok {
        let analysis = files[file_id].analysis->0;
        let count = analysis.diagnostics.len() as int;
        lemma_diagnostics_alike(files, source, graph, analysis.diagnostics, count);
        let diagnosed = diagnostics_added(
            files,
            source,
            graph,
            analysis.diagnostics,
            count,
        )->Ok_0;
        let sites = unresolved_of(files, file_id, analysis, tokens)->Ok_0;
        let position = required_evidence_of(
            files,
            (FileRange { file_id, range: analysis.root }),
        )->Ok_0;
        let families = coverage_model();
        let found = with_unresolved(diagnosed, source, sites);
        assert(diagnosed.shards.dom().contains(source));
        lemma_site_alike(diagnosed, source, sites);
        lemma_alike_on(graph, diagnosed, found);
        let more = conditional_sites(families, position, families.len() as int);
        let conditional = if is_conditional(indexed, file_id) {
            with_unresolved(found, source, more)
        } else {
            found
        };
        assert(found.shards.dom().contains(source));
        lemma_site_alike(found, source, more);
        if is_conditional(indexed, file_id) {
            lemma_alike_on(graph, found, conditional);
        }
        assert(conditional.shards.dom().contains(source));
        let gaps = gap_sites(
            families,
            conditional.shards[source].unresolved,
            position,
            families.len() as int,
        );
        lemma_site_alike(conditional, source, gaps);
        lemma_alike_on(graph, conditional, with_unresolved(conditional, source, gaps));
    }
}

pub proof fn lemma_details_alike(
    files: Map<FileId, SourceFileModel>,
    indexed: Seq<StaticIndexedFileModel>,
    tokens: Seq<TokenStaticDataModel>,
    graph: GraphModel,
    listing: Seq<(FileId, Seq<char>)>,
    count: int,
)
    requires
        count <= listing.len(),
        forall|i: int|
            0 <= i < listing.len() ==> graph.shards.contains_key((#[trigger] listing[i]).1),
    ensures
        files_detailed(files, indexed, tokens, graph, listing, count) matches Ok(after) ==> is_alike(
            graph,
            after,
        ),
    decreases count,
{
    if count > 0 {
        lemma_details_alike(files, indexed, tokens, graph, listing, count - 1);
        match files_detailed(files, indexed, tokens, graph, listing, count - 1) {
            Ok(before) => {
                let (file_id, source) = listing[count - 1];
                assert(before.shards.dom().contains(source));
                lemma_detail_alike(files, indexed, tokens, before, file_id, source);
                match file_detailed(files, indexed, tokens, before, file_id, source) {
                    Ok(after) => {
                        lemma_alike_on(graph, before, after);
                    },
                    Err(_) => {},
                }
            },
            Err(_) => {},
        }
    }
}

proof fn lemma_alike_grounded(
    files: Map<FileId, SourceFileModel>,
    index: StaticIndexModel,
    before: GraphModel,
    after: GraphModel,
)
    requires
        is_grounded(files, index, before),
        is_alike(before, after),
    ensures
        is_grounded(files, index, after),
{
    assert forall|source: Seq<char>, i: int|
        after.shards.contains_key(source) && 0 <= i
            < after.shards[source].nodes.len() implies has_origin(
        files,
        index,
        source,
        #[trigger] after.shards[source].nodes[i],
    ) by {
        assert(before.shards.dom().contains(source));
        assert(after.shards[source].nodes[i] == before.shards[source].nodes[i]);
    }
    assert forall|source: Seq<char>, i: int|
        after.shards.contains_key(source) && 0 <= i
            < after.shards[source].edges.len() implies has_cause(
        files,
        index,
        source,
        #[trigger] after.shards[source].edges[i],
    ) by {
        assert(before.shards.dom().contains(source));
        assert(after.shards[source].edges[i] == before.shards[source].edges[i]);
    }
}

/// The graph before the edges from tests are added.
pub open spec fn detailed_graph(
    files: Map<FileId, SourceFileModel>,
    index: StaticIndexModel,
    owners: Map<Seq<char>, Seq<char>>,
) -> GraphModel {
    let sources = sources_of(files, index.files);
    let start = GraphModel { owners, shards: empty_shards(files, index.files) };
    let definitions = definitions_of(sources, index.tokens, index.tokens.len() as int);
    let related = relations_added(
        files,
        sources,
        referenced_graph(files, index, owners),
        index.relations,
        index.relations.len() as int,
    );
    let contained = definitions_contained(
        files,
        sources,
        definitions,
        placements(files, sources, start, index.tokens),
        index.tokens,
        related,
        definitions.len() as int,
    )->Ok_0;
    files_detailed(
        files,
        index.files,
        index.tokens,
        contained,
        ordered::<FileId, Seq<char>>(sources),
        sources.len() as int,
    )->Ok_0
}

/// Everything in the graph before the edges from tests stands for something.
pub proof fn lemma_detailed_grounded(
    files: Map<FileId, SourceFileModel>,
    index: StaticIndexModel,
    target: Seq<char>,
    interface_fingerprints: Map<Seq<char>, Seq<char>>,
    source_inputs: Map<FileId, Seq<char>>,
    owners: Map<Seq<char>, Seq<char>>,
)
    requires
        index.tokens.len() <= usize::MAX,
        built(files, index, target, interface_fingerprints, source_inputs, owners) is Ok,
    ensures
        is_grounded(files, index, detailed_graph(files, index, owners)),
        detailed_graph(files, index, owners).shards.dom() == empty_shards(
            files,
            index.files,
        ).dom(),
        detailed_graph(files, index, owners).shards.dom().finite(),
{
    let sources = sources_of(files, index.files);
    let start = GraphModel { owners, shards: empty_shards(files, index.files) };
    let listing = ordered::<FileId, Seq<char>>(sources);
    let count = index.tokens.len() as int;
    let placed = placements(files, sources, start, index.tokens);
    let definitions = definitions_of(sources, index.tokens, count);
    let named = named_graph(files, index, owners);
    let referenced = referenced_graph(files, index, owners);
    let related = relations_added(
        files,
        sources,
        referenced,
        index.relations,
        index.relations.len() as int,
    );
    let contained = definitions_contained(
        files,
        sources,
        definitions,
        placed,
        index.tokens,
        related,
        definitions.len() as int,
    )->Ok_0;
    lemma_start(files, index, owners);
    lemma_stages(files, index, target, interface_fingerprints, source_inputs, owners);
    assert(is_grounded(files, index, start));
    lemma_tokens_grounded(files, index, start, count);
    lemma_files_grounded(
        files,
        index,
        tokens_placed(files, sources, start, index.tokens, count),
        listing,
        sources.len() as int,
    );
    lemma_references_grounded(files, index, placed, named, count);
    lemma_relations_grounded(files, index, referenced, index.relations.len() as int);
    lemma_definitions_grounded(files, index, placed, related, definitions.len() as int);
    lemma_relations_keep(
        files,
        sources,
        referenced,
        index.relations,
        index.relations.len() as int,
    );
    lemma_definitions_keep(
        files,
        sources,
        definitions,
        placed,
        index.tokens,
        related,
        definitions.len() as int,
    );
    lemma_keeps_on(referenced, related, contained);
    lemma_keeps_on(named, referenced, contained);
    lemma_housed_on(sources, named, contained);
    assert forall|i: int| 0 <= i < listing.len() implies contained.shards.contains_key(
        (#[trigger] listing[i]).1,
    ) by {
        assert(sources.contains_key(listing[i].0));
    }
    lemma_details_alike(
        files,
        index.files,
        index.tokens,
        contained,
        listing,
        sources.len() as int,
    );
    lemma_alike_grounded(files, index, contained, detailed_graph(files, index, owners));
}

/// Adding edges from tests adds no others, and no nodes.
proof fn lemma_tests_only(
    graph: GraphModel,
    tests: Seq<(Seq<char>, GraphSnapshotEdgeModel)>,
    count: int,
)
    requires
        0 <= count <= tests.len(),
        forall|i: int| 0 <= i < tests.len() ==> graph.shards.contains_key((#[trigger] tests[i]).0),
    ensures
        ({
            let after = tests_added(graph, tests, count);
            &&& after.shards.dom() == graph.shards.dom()
            &&& forall|source: Seq<char>| #[trigger]
                after.shards.contains_key(source) ==> after.shards[source].nodes
                    == graph.shards[source].nodes
            &&& forall|source: Seq<char>, i: int|
                after.shards.contains_key(source) && 0 <= i < after.shards[source].edges.len()
                    ==> graph.shards[source].edges.contains(
                    #[trigger] after.shards[source].edges[i],
                ) || exists|k: int|
                    0 <= k < count && #[trigger] tests[k] == (
                        source,
                        after.shards[source].edges[i],
                    )
            &&& forall|source: Seq<char>, edge: GraphSnapshotEdgeModel|
                graph.shards.contains_key(source) && #[trigger] graph.shards[source].edges.contains(
                    edge,
                ) ==> after.shards[source].edges.contains(edge)
            &&& forall|k: int|
                0 <= k < count ==> has_edge(
                    after.shards[(#[trigger] tests[k]).0].edges,
                    tests[k].1.from,
                    tests[k].1.to,
                    tests[k].1.kind,
                )
        }),
    decreases count,
{
    if count > 0 {
        lemma_tests_only(graph, tests, count - 1);
        let before = tests_added(graph, tests, count - 1);
        let after = tests_added(graph, tests, count);
        let (at, edge) = tests[count - 1];
        assert(graph.shards.contains_key(tests[count - 1].0));
        assert(before.shards.dom().contains(at));
        lemma_edge_keeps(before, at, edge);
        assert forall|source: Seq<char>, i: int|
            after.shards.contains_key(source) && 0 <= i
                < after.shards[source].edges.len() implies graph.shards[source].edges.contains(
            #[trigger] after.shards[source].edges[i],
        ) || exists|k: int|
            0 <= k < count && #[trigger] tests[k] == (source, after.shards[source].edges[i]) by {
            assert(before.shards.dom().contains(source));
            if source == at && i == before.shards[source].edges.len() {
                assert(tests[count - 1] == (source, after.shards[source].edges[i]));
            } else {
                assert(after.shards[source].edges[i] == before.shards[source].edges[i]);
                if !graph.shards[source].edges.contains(before.shards[source].edges[i]) {
                    let k = choose|k: int|
                        0 <= k < count - 1 && #[trigger] tests[k] == (
                            source,
                            before.shards[source].edges[i],
                        );
                    assert(tests[k] == (source, after.shards[source].edges[i]));
                }
            }
        }
        assert forall|source: Seq<char>, held: GraphSnapshotEdgeModel|
            graph.shards.contains_key(source) && #[trigger] graph.shards[source].edges.contains(
                held,
            ) implies after.shards[source].edges.contains(held) by {
            assert(before.shards[source].edges.contains(held));
            let i = choose|i: int|
                0 <= i < before.shards[source].edges.len() && before.shards[source].edges[i] == held;
            assert(after.shards[source].edges[i] == held);
        }
        assert forall|k: int| 0 <= k < count implies has_edge(
            after.shards[(#[trigger] tests[k]).0].edges,
            tests[k].1.from,
            tests[k].1.to,
            tests[k].1.kind,
        ) by {
            if k < count - 1 {
                assert(before.shards.dom().contains(tests[k].0)) by {
                    assert(graph.shards.contains_key(tests[k].0));
                }
                assert(before.shards.contains_key(tests[k].0));
            }
        }
    } else {
        assert forall|source: Seq<char>, i: int|
            graph.shards.contains_key(source) && 0 <= i
                < graph.shards[source].edges.len() implies graph.shards[source].edges.contains(
            #[trigger] graph.shards[source].edges[i],
        ) by {}
    }
}

/// Whether an edge from a test is shown by one of the first edges of a shard.
spec fn is_shown_in(
    tokens: Seq<TokenStaticDataModel>,
    listing: Seq<(Seq<char>, MutableShardModel)>,
    edges: Seq<GraphSnapshotEdgeModel>,
    count: int,
    edge: GraphSnapshotEdgeModel,
) -> bool {
    exists|e: int|
        0 <= e < count && is_exercise(tokens, listing, #[trigger] edges[e]) && edge == test_edge(
            edges[e],
        )
}

/// Whether an edge from a test is shown by one of the first shards.
spec fn is_shown_among(
    tokens: Seq<TokenStaticDataModel>,
    listing: Seq<(Seq<char>, MutableShardModel)>,
    count: int,
    shown: (Seq<char>, GraphSnapshotEdgeModel),
) -> bool {
    exists|s: int|
        0 <= s < count && (#[trigger] listing[s]).0 == shown.0 && is_shown_in(
            tokens,
            listing,
            listing[s].1.edges,
            listing[s].1.edges.len() as int,
            shown.1,
        )
}

proof fn lemma_shard_tests(
    tokens: Seq<TokenStaticDataModel>,
    listing: Seq<(Seq<char>, MutableShardModel)>,
    source: Seq<char>,
    edges: Seq<GraphSnapshotEdgeModel>,
    count: int,
)
    requires
        0 <= count <= edges.len(),
    ensures
        ({
            let found = shard_tests(tokens, listing, source, edges, count);
            &&& forall|k: int|
                0 <= k < found.len() ==> (#[trigger] found[k]).0 == source && is_shown_in(
                    tokens,
                    listing,
                    edges,
                    count,
                    found[k].1,
                )
            &&& forall|e: int|
                0 <= e < count && is_exercise(tokens, listing, #[trigger] edges[e])
                    ==> found.contains((source, test_edge(edges[e])))
        }),
    decreases count,
{
    if count > 0 {
        lemma_shard_tests(tokens, listing, source, edges, count - 1);
        let before = shard_tests(tokens, listing, source, edges, count - 1);
        let found = shard_tests(tokens, listing, source, edges, count);
        assert forall|k: int| 0 <= k < found.len() implies (#[trigger] found[k]).0 == source
            && is_shown_in(tokens, listing, edges, count, found[k].1) by {
            if k < before.len() {
                assert(found[k] == before[k]);
                assert(is_shown_in(tokens, listing, edges, count - 1, before[k].1));
                let e = choose|e: int|
                    0 <= e < count - 1 && is_exercise(tokens, listing, #[trigger] edges[e])
                        && before[k].1 == test_edge(edges[e]);
                assert(is_exercise(tokens, listing, edges[e]));
            } else {
                assert(is_exercise(tokens, listing, edges[count - 1]));
            }
        }
        assert forall|e: int|
            0 <= e < count && is_exercise(
                tokens,
                listing,
                #[trigger] edges[e],
            ) implies found.contains((source, test_edge(edges[e]))) by {
            if e < count - 1 {
                assert(before.contains((source, test_edge(edges[e]))));
                let k = choose|k: int|
                    0 <= k < before.len() && before[k] == (source, test_edge(edges[e]));
                assert(found[k] == before[k]);
            } else {
                assert(found[before.len() as int] == (source, test_edge(edges[e])));
            }
        }
    }
}

proof fn lemma_tests_of(
    tokens: Seq<TokenStaticDataModel>,
    listing: Seq<(Seq<char>, MutableShardModel)>,
    count: int,
)
    requires
        0 <= count <= listing.len(),
    ensures
        ({
            let found = tests_of(tokens, listing, count);
            &&& forall|k: int|
                0 <= k < found.len() ==> is_shown_among(
                    tokens,
                    listing,
                    count,
                    #[trigger] found[k],
                )
            &&& forall|s: int, e: int|
                0 <= s < count && 0 <= e < listing[s].1.edges.len() && is_exercise(
                    tokens,
                    listing,
                    #[trigger] listing[s].1.edges[e],
                ) ==> found.contains((listing[s].0, test_edge(listing[s].1.edges[e])))
        }),
    decreases count,
{
    if count > 0 {
        lemma_tests_of(tokens, listing, count - 1);
        let before = tests_of(tokens, listing, count - 1);
        let found = tests_of(tokens, listing, count);
        let (source, shard) = listing[count - 1];
        let n = shard.edges.len() as int;
        let more = shard_tests(tokens, listing, source, shard.edges, n);
        lemma_shard_tests(tokens, listing, source, shard.edges, n);
        assert forall|k: int| 0 <= k < found.len() implies is_shown_among(
            tokens,
            listing,
            count,
            #[trigger] found[k],
        ) by {
            if k < before.len() {
                assert(found[k] == before[k]);
                assert(is_shown_among(tokens, listing, count - 1, before[k]));
                let s = choose|s: int|
                    0 <= s < count - 1 && (#[trigger] listing[s]).0 == before[k].0 && is_shown_in(
                        tokens,
                        listing,
                        listing[s].1.edges,
                        listing[s].1.edges.len() as int,
                        before[k].1,
                    );
                assert(listing[s].0 == found[k].0);
            } else {
                let l = k - before.len();
                assert(found[k] == more[l]);
                assert(listing[count - 1].0 == source);
            }
        }
        assert forall|s: int, e: int|
            0 <= s < count && 0 <= e < listing[s].1.edges.len() && is_exercise(
                tokens,
                listing,
                #[trigger] listing[s].1.edges[e],
            ) implies found.contains((listing[s].0, test_edge(listing[s].1.edges[e]))) by {
            let wanted = (listing[s].0, test_edge(listing[s].1.edges[e]));
            if s < count - 1 {
                assert(before.contains(wanted));
                let k = choose|k: int| 0 <= k < before.len() && before[k] == wanted;
                assert(found[k] == wanted);
            } else {
                assert(is_exercise(tokens, listing, shard.edges[e]));
                assert(more.contains(wanted));
                let k = choose|k: int| 0 <= k < more.len() && more[k] == wanted;
                assert(found[before.len() + k] == wanted);
            }
        }
    }
}

proof fn lemma_no_test_kind(
    files: Map<FileId, SourceFileModel>,
    index: StaticIndexModel,
    source: Seq<char>,
    edge: GraphSnapshotEdgeModel,
)
    requires
        has_cause(files, index, source, edge),
    ensures
        edge.kind != "tests"@,
{
    reveal_strlit("tests");
    reveal_strlit("accesses");
    reveal_strlit("calls");
    reveal_strlit("decorates");
    reveal_strlit("exports");
    reveal_strlit("imports");
    reveal_strlit("instantiates");
    reveal_strlit("references");
    reveal_strlit("type_ref");
    reveal_strlit("contains");
    reveal_strlit("extends");
    reveal_strlit("implements");
    reveal_strlit("overrides");
    assert("tests"@.len() == 5 && "tests"@[0] == 't' && "calls"@[0] == 'c');
    if exists|t: int, r: int| #[trigger] is_use_edge(files, index, source, t, r, edge) {
        let (t, r) = choose|t: int, r: int| #[trigger]
            is_use_edge(files, index, source, t, r, edge);
        let role = index.tokens[t].references[r].role;
        assert(is_use_kind(role, edge.kind));
        match role {
            StaticReferenceRole::Access => {},
            StaticReferenceRole::Call => {},
            StaticReferenceRole::Decorate => {},
            StaticReferenceRole::Export => {},
            StaticReferenceRole::Import => {},
            StaticReferenceRole::Instantiate => {},
            StaticReferenceRole::Reference => {},
            StaticReferenceRole::Type => {},
        }
    } else if exists|t: int, r: int| #[trigger] is_alias_edge(files, index, source, t, r, edge) {
    } else if exists|k: int|
        0 <= k < index.relations.len() && is_relation_edge(
            files,
            index,
            source,
            #[trigger] index.relations[k],
            edge,
        ) {
        let k = choose|k: int|
            0 <= k < index.relations.len() && is_relation_edge(
                files,
                index,
                source,
                #[trigger] index.relations[k],
                edge,
            );
        match index.relations[k].kind {
            StaticRelationKind::Extends => {},
            StaticRelationKind::Implements => {},
            StaticRelationKind::Overrides => {},
        }
    } else {
    }
}

/// The edges of a built shard are those of the graph before the edges from tests, and these.
proof fn lemma_shard_edges(
    files: Map<FileId, SourceFileModel>,
    index: StaticIndexModel,
    target: Seq<char>,
    interface_fingerprints: Map<Seq<char>, Seq<char>>,
    source_inputs: Map<FileId, Seq<char>>,
    owners: Map<Seq<char>, Seq<char>>,
    s: int,
)
    requires
        index.tokens.len() <= usize::MAX,
        built(files, index, target, interface_fingerprints, source_inputs, owners) is Ok,
        0 <= s < built(
            files,
            index,
            target,
            interface_fingerprints,
            source_inputs,
            owners,
        )->Ok_0.shards.len(),
    ensures
        ({
            let shard = built(
                files,
                index,
                target,
                interface_fingerprints,
                source_inputs,
                owners,
            )->Ok_0.shards[s];
            let detailed = detailed_graph(files, index, owners);
            let listing = ordered::<String, MutableShardModel>(detailed.shards);
            &&& detailed.shards.contains_key(shard.source)
            &&& lists::<String, MutableShardModel>(listing, detailed.shards)
            &&& forall|i: int|
                0 <= i < shard.nodes.len() ==> detailed.shards[shard.source].nodes.contains(
                    #[trigger] shard.nodes[i],
                )
            &&& forall|edge: GraphSnapshotEdgeModel| #[trigger]
                detailed.shards[shard.source].edges.contains(edge) ==> shard.edges.contains(edge)
            &&& forall|e: int|
                0 <= e < shard.edges.len() ==> detailed.shards[shard.source].edges.contains(
                    #[trigger] shard.edges[e],
                ) || is_shown_in(
                    index.tokens,
                    listing,
                    detailed.shards[shard.source].edges,
                    detailed.shards[shard.source].edges.len() as int,
                    shard.edges[e],
                )
            &&& forall|e: int|
                0 <= e < detailed.shards[shard.source].edges.len() && is_exercise(
                    index.tokens,
                    listing,
                    #[trigger] detailed.shards[shard.source].edges[e],
                ) ==> has_edge(
                    shard.edges,
                    detailed.shards[shard.source].edges[e].from,
                    detailed.shards[shard.source].edges[e].to,
                    "tests"@,
                )
        }),
{
    let shards = built(
        files,
        index,
        target,
        interface_fingerprints,
        source_inputs,
        owners,
    )->Ok_0.shards;
    let shard = shards[s];
    let source = shard.source;
    let detailed = detailed_graph(files, index, owners);
    let listing = ordered::<String, MutableShardModel>(detailed.shards);
    let tests = tests_of(index.tokens, listing, listing.len() as int);
    let whole = whole_graph(files, index, owners);
    let digests = digests_of(files, index.files, source_inputs, index.files.len() as int);
    lemma_detailed_grounded(files, index, target, interface_fingerprints, source_inputs, owners);
    lemma_built_list(files, index, target, interface_fingerprints, source_inputs, owners);
    lemma_sorted_shards(target, whole, digests, interface_fingerprints);
    assert(is_finished_from(shard, target, whole, digests, interface_fingerprints));
    lemma_ordered_lists::<String, MutableShardModel>(detailed.shards);
    lemma_tests_home(index.tokens, listing, listing.len() as int, detailed.shards);
    lemma_tests_only(detailed, tests, tests.len() as int);
    lemma_tests_of(index.tokens, listing, listing.len() as int);
    assert(whole == tests_added(detailed, tests, tests.len() as int));
    assert(detailed.shards.dom().contains(source));
    let before = detailed.shards[source].edges;
    let after = whole.shards[source].edges;
    assert(shard.edges == stable_sorted::<GraphSnapshotEdge>(after));
    let sorted = stable_sorted::<GraphSnapshotNode>(whole.shards[source].nodes);
    lemma_stable_sorted::<GraphSnapshotNode>(whole.shards[source].nodes);
    lemma_neighbours_differ::<GraphSnapshotNode>(sorted);
    assert forall|i: int| 0 <= i < shard.nodes.len() implies detailed.shards[source].nodes.contains(
        #[trigger] shard.nodes[i],
    ) by {
        assert(sorted.contains(shard.nodes[i]));
        lemma_stable_sorted_contains::<GraphSnapshotNode>(
            whole.shards[source].nodes,
            shard.nodes[i],
        );
    }
    assert forall|edge: GraphSnapshotEdgeModel| #[trigger]
        before.contains(edge) implies shard.edges.contains(edge) by {
        assert(after.contains(edge));
        lemma_stable_sorted_contains::<GraphSnapshotEdge>(after, edge);
    }
    assert forall|e: int| 0 <= e < shard.edges.len() implies before.contains(
        #[trigger] shard.edges[e],
    ) || is_shown_in(index.tokens, listing, before, before.len() as int, shard.edges[e]) by {
        assert(shard.edges.contains(shard.edges[e]));
        lemma_stable_sorted_contains::<GraphSnapshotEdge>(after, shard.edges[e]);
        let i = choose|i: int| 0 <= i < after.len() && after[i] == shard.edges[e];
        if !before.contains(whole.shards[source].edges[i]) {
            let k = choose|k: int|
                0 <= k < tests.len() && #[trigger] tests[k] == (
                    source,
                    whole.shards[source].edges[i],
                );
            assert(is_shown_among(index.tokens, listing, listing.len() as int, tests[k]));
            let l = choose|l: int|
                0 <= l < listing.len() && (#[trigger] listing[l]).0 == tests[k].0 && is_shown_in(
                    index.tokens,
                    listing,
                    listing[l].1.edges,
                    listing[l].1.edges.len() as int,
                    tests[k].1,
                );
            assert(detailed.shards[listing[l].0] == listing[l].1);
        }
    }
    assert forall|e: int|
        0 <= e < before.len() && is_exercise(
            index.tokens,
            listing,
            #[trigger] detailed.shards[source].edges[e],
        ) implies has_edge(shard.edges, before[e].from, before[e].to, "tests"@) by {
        let l = choose|l: int| 0 <= l < listing.len() && (#[trigger] listing[l]).0 == source;
        assert(listing[l].1.edges[e] == before[e]);
        let wanted = (source, test_edge(before[e]));
        assert(tests.contains(wanted));
        let k = choose|k: int| 0 <= k < tests.len() && tests[k] == wanted;
        assert(has_edge(
            whole.shards[tests[k].0].edges,
            tests[k].1.from,
            tests[k].1.to,
            tests[k].1.kind,
        ));
        let i = choose|i: int|
            0 <= i < after.len() && (#[trigger] after[i]).from == before[e].from && after[i].to
                == before[e].to && after[i].kind == "tests"@;
        assert(after.contains(after[i]));
        lemma_stable_sorted_contains::<GraphSnapshotEdge>(after, after[i]);
        let j = choose|j: int| 0 <= j < shard.edges.len() && shard.edges[j] == after[i];
        assert(shard.edges[j].from == before[e].from);
    }
}

/// Every node of a built shard stands for something: for the source file, for a declaration, for an
/// alias under which the source file exports one, or for the target of a relation.
pub proof fn law_nodes_have_origins(
    files: Map<FileId, SourceFileModel>,
    index: StaticIndexModel,
    target: Seq<char>,
    interface_fingerprints: Map<Seq<char>, Seq<char>>,
    source_inputs: Map<FileId, Seq<char>>,
    owners: Map<Seq<char>, Seq<char>>,
)
    requires
        index.tokens.len() <= usize::MAX,
    ensures
        built(
            files,
            index,
            target,
            interface_fingerprints,
            source_inputs,
            owners,
        ) matches Ok(result) ==> forall|s: int, i: int|
            0 <= s < result.shards.len() && 0 <= i < result.shards[s].nodes.len() ==> has_origin(
                files,
                index,
                result.shards[s].source,
                #[trigger] result.shards[s].nodes[i],
            ),
{
    match built(files, index, target, interface_fingerprints, source_inputs, owners) {
        Ok(result) => {
            let detailed = detailed_graph(files, index, owners);
            lemma_detailed_grounded(
                files,
                index,
                target,
                interface_fingerprints,
                source_inputs,
                owners,
            );
            assert forall|s: int, i: int|
                0 <= s < result.shards.len() && 0 <= i
                    < result.shards[s].nodes.len() implies has_origin(
                files,
                index,
                result.shards[s].source,
                #[trigger] result.shards[s].nodes[i],
            ) by {
                lemma_shard_edges(
                    files,
                    index,
                    target,
                    interface_fingerprints,
                    source_inputs,
                    owners,
                    s,
                );
                let source = result.shards[s].source;
                let nodes = detailed.shards[source].nodes;
                let k = choose|k: int|
                    0 <= k < nodes.len() && nodes[k] == result.shards[s].nodes[i];
                assert(has_origin(files, index, source, detailed.shards[source].nodes[k]));
            }
        },
        Err(_) => {},
    }
}

/// Every edge of a built shard, other than one from a test to what it exercises, stands for something:
/// for a use, for an export under an alias, for a relation, or for where a declaration stands.
pub proof fn law_edges_have_causes(
    files: Map<FileId, SourceFileModel>,
    index: StaticIndexModel,
    target: Seq<char>,
    interface_fingerprints: Map<Seq<char>, Seq<char>>,
    source_inputs: Map<FileId, Seq<char>>,
    owners: Map<Seq<char>, Seq<char>>,
)
    requires
        index.tokens.len() <= usize::MAX,
    ensures
        built(
            files,
            index,
            target,
            interface_fingerprints,
            source_inputs,
            owners,
        ) matches Ok(result) ==> forall|s: int, e: int|
            0 <= s < result.shards.len() && 0 <= e < result.shards[s].edges.len() && (
            #[trigger] result.shards[s].edges[e]).kind != "tests"@ ==> has_cause(
                files,
                index,
                result.shards[s].source,
                result.shards[s].edges[e],
            ),
{
    match built(files, index, target, interface_fingerprints, source_inputs, owners) {
        Ok(result) => {
            let detailed = detailed_graph(files, index, owners);
            lemma_detailed_grounded(
                files,
                index,
                target,
                interface_fingerprints,
                source_inputs,
                owners,
            );
            assert forall|s: int, e: int|
                0 <= s < result.shards.len() && 0 <= e < result.shards[s].edges.len() && (
                #[trigger] result.shards[s].edges[e]).kind != "tests"@ implies has_cause(
                files,
                index,
                result.shards[s].source,
                result.shards[s].edges[e],
            ) by {
                lemma_shard_edges(
                    files,
                    index,
                    target,
                    interface_fingerprints,
                    source_inputs,
                    owners,
                    s,
                );
                let source = result.shards[s].source;
                let edges = detailed.shards[source].edges;
                assert(edges.contains(result.shards[s].edges[e]));
                let k = choose|k: int|
                    0 <= k < edges.len() && edges[k] == result.shards[s].edges[e];
                assert(has_cause(files, index, source, detailed.shards[source].edges[k]));
            }
        },
        Err(_) => {},
    }
}

/// Whether a node is marked as a test in some shard: decorated with an attribute that is displayed as
/// `test`.
pub open spec fn is_marked(
    tokens: Seq<TokenStaticDataModel>,
    shards: Seq<GraphSnapshotShardModel>,
    id: Seq<char>,
) -> bool {
    exists|s: int, e: int, t: int|
        0 <= s < shards.len() && 0 <= e < shards[s].edges.len() && 0 <= t < tokens.len() && (
        #[trigger] shards[s].edges[e]).kind == "decorates"@ && shards[s].edges[e].from == id
            && shards[s].edges[e].to == tokens[t].stable_id && (#[trigger] tokens[t]).kind
            == SymbolInformationKind::Attribute && tokens[t].display_name == Some("test"@)
}

proof fn lemma_marked(
    files: Map<FileId, SourceFileModel>,
    index: StaticIndexModel,
    target: Seq<char>,
    interface_fingerprints: Map<Seq<char>, Seq<char>>,
    source_inputs: Map<FileId, Seq<char>>,
    owners: Map<Seq<char>, Seq<char>>,
    id: Seq<char>,
)
    requires
        index.tokens.len() <= usize::MAX,
        built(files, index, target, interface_fingerprints, source_inputs, owners) is Ok,
    ensures
        is_test(
            index.tokens,
            ordered::<String, MutableShardModel>(detailed_graph(files, index, owners).shards),
            id,
        ) <==> is_marked(
            index.tokens,
            built(
                files,
                index,
                target,
                interface_fingerprints,
                source_inputs,
                owners,
            )->Ok_0.shards,
            id,
        ),
{
    let shards = built(
        files,
        index,
        target,
        interface_fingerprints,
        source_inputs,
        owners,
    )->Ok_0.shards;
    let detailed = detailed_graph(files, index, owners);
    let listing = ordered::<String, MutableShardModel>(detailed.shards);
    let whole = whole_graph(files, index, owners);
    let digests = digests_of(files, index.files, source_inputs, index.files.len() as int);
    lemma_detailed_grounded(files, index, target, interface_fingerprints, source_inputs, owners);
    lemma_stages(files, index, target, interface_fingerprints, source_inputs, owners);
    lemma_built_list(files, index, target, interface_fingerprints, source_inputs, owners);
    lemma_sorted_shards(target, whole, digests, interface_fingerprints);
    lemma_ordered_lists::<String, MutableShardModel>(detailed.shards);
    reveal_strlit("decorates");
    reveal_strlit("tests");
    if is_test(index.tokens, listing, id) {
        let (l, e) = choose|l: int, e: int|
            0 <= l < listing.len() && 0 <= e < listing[l].1.edges.len() && is_test_mark(
                index.tokens,
                #[trigger] listing[l].1.edges[e],
            ) && listing[l].1.edges[e].from == id;
        let source = listing[l].0;
        assert(detailed.shards.contains_key(source) && detailed.shards[source] == listing[l].1);
        assert(detailed.shards.dom().contains(source));
        assert(whole.shards.contains_key(source));
        let s = choose|s: int| 0 <= s < shards.len() && (#[trigger] shards[s]).source == source;
        lemma_shard_edges(
            files,
            index,
            target,
            interface_fingerprints,
            source_inputs,
            owners,
            s,
        );
        let edge = listing[l].1.edges[e];
        assert(detailed.shards[source].edges.contains(edge));
        assert(shards[s].edges.contains(edge));
        let k = choose|k: int| 0 <= k < shards[s].edges.len() && shards[s].edges[k] == edge;
        let t = choose|t: int|
            0 <= t < index.tokens.len() && is_test_attribute(#[trigger] index.tokens[t])
                && index.tokens[t].stable_id == edge.to;
        assert(shards[s].edges[k].kind == "decorates"@ && index.tokens[t].kind
            == SymbolInformationKind::Attribute);
    }
    if is_marked(index.tokens, shards, id) {
        let (s, e, t) = choose|s: int, e: int, t: int|
            0 <= s < shards.len() && 0 <= e < shards[s].edges.len() && 0 <= t < index.tokens.len()
                && (#[trigger] shards[s].edges[e]).kind == "decorates"@ && shards[s].edges[e].from
                == id && shards[s].edges[e].to == index.tokens[t].stable_id && (
            #[trigger] index.tokens[t]).kind == SymbolInformationKind::Attribute
                && index.tokens[t].display_name == Some("test"@);
        lemma_shard_edges(
            files,
            index,
            target,
            interface_fingerprints,
            source_inputs,
            owners,
            s,
        );
        let source = shards[s].source;
        let edge = shards[s].edges[e];
        assert("decorates"@.len() != "tests"@.len());
        assert(detailed.shards[source].edges.contains(edge));
        let l = choose|l: int| 0 <= l < listing.len() && (#[trigger] listing[l]).0 == source;
        assert(listing[l].1 == detailed.shards[source]);
        let k = choose|k: int|
            0 <= k < detailed.shards[source].edges.len() && detailed.shards[source].edges[k] == edge;
        assert(is_test_attribute(index.tokens[t]));
        assert(is_test_mark(index.tokens, listing[l].1.edges[k]));
    }
}

/// A shard has an edge from a test to what it exercises exactly where the node is marked as a test, in
/// whichever shard, and the shard has an edge by which it calls or instantiates the other one.
pub proof fn law_tests_exercise(
    files: Map<FileId, SourceFileModel>,
    index: StaticIndexModel,
    target: Seq<char>,
    interface_fingerprints: Map<Seq<char>, Seq<char>>,
    source_inputs: Map<FileId, Seq<char>>,
    owners: Map<Seq<char>, Seq<char>>,
    s: int,
    from: Seq<char>,
    to: Seq<char>,
)
    requires
        index.tokens.len() <= usize::MAX,
    ensures
        built(
            files,
            index,
            target,
            interface_fingerprints,
            source_inputs,
            owners,
        ) matches Ok(result) ==> 0 <= s < result.shards.len() ==> (has_edge(
            result.shards[s].edges,
            from,
            to,
            "tests"@,
        ) <==> is_marked(index.tokens, result.shards, from) && (has_edge(
            result.shards[s].edges,
            from,
            to,
            "calls"@,
        ) || has_edge(result.shards[s].edges, from, to, "instantiates"@))),
{
    let outcome = built(files, index, target, interface_fingerprints, source_inputs, owners);
    if outcome is Ok && 0 <= s < outcome->Ok_0.shards.len() {
        let shards = outcome->Ok_0.shards;
        let detailed = detailed_graph(files, index, owners);
        let listing = ordered::<String, MutableShardModel>(detailed.shards);
        let source = shards[s].source;
        let edges = shards[s].edges;
        let before = detailed.shards[source].edges;
        lemma_detailed_grounded(
            files,
            index,
            target,
            interface_fingerprints,
            source_inputs,
            owners,
        );
        lemma_shard_edges(
            files,
            index,
            target,
            interface_fingerprints,
            source_inputs,
            owners,
            s,
        );
        lemma_marked(
            files,
            index,
            target,
            interface_fingerprints,
            source_inputs,
            owners,
            from,
        );
        reveal_strlit("tests");
        reveal_strlit("calls");
        reveal_strlit("instantiates");
        assert("calls"@[0] == 'c' && "tests"@[0] == 't' && "instantiates"@[0] == 'i');
        if has_edge(edges, from, to, "tests"@) {
            let e = choose|e: int|
                0 <= e < edges.len() && (#[trigger] edges[e]).from == from && edges[e].to == to
                    && edges[e].kind == "tests"@;
            if before.contains(edges[e]) {
                let k = choose|k: int| 0 <= k < before.len() && before[k] == edges[e];
                assert(has_cause(files, index, source, detailed.shards[source].edges[k]));
                lemma_no_test_kind(files, index, source, edges[e]);
            }
            assert(is_shown_in(index.tokens, listing, before, before.len() as int, edges[e]));
            let k = choose|k: int|
                0 <= k < before.len() && is_exercise(index.tokens, listing, #[trigger] before[k])
                    && edges[e] == test_edge(before[k]);
            assert(before.contains(before[k]));
            assert(edges.contains(before[k]));
            let j = choose|j: int| 0 <= j < edges.len() && edges[j] == before[k];
            assert(edges[j].from == from && edges[j].to == to);
        }
        if is_marked(index.tokens, shards, from) && (has_edge(edges, from, to, "calls"@)
            || has_edge(edges, from, to, "instantiates"@)) {
            let e = choose|e: int|
                0 <= e < edges.len() && (#[trigger] edges[e]).from == from && edges[e].to == to && (
                edges[e].kind == "calls"@ || edges[e].kind == "instantiates"@);
            assert(before.contains(edges[e]));
            let k = choose|k: int| 0 <= k < before.len() && before[k] == edges[e];
            assert(is_exercise(index.tokens, listing, detailed.shards[source].edges[k]));
        }
    }
}

/// Adding edges from tests changes neither diagnostics nor sites whose edges are not known.
pub proof fn lemma_tests_details(
    graph: GraphModel,
    tests: Seq<(Seq<char>, GraphSnapshotEdgeModel)>,
    count: int,
)
    requires
        0 <= count <= tests.len(),
        forall|i: int| 0 <= i < tests.len() ==> graph.shards.contains_key((#[trigger] tests[i]).0),
    ensures
        ({
            let after = tests_added(graph, tests, count);
            &&& after.shards.dom() == graph.shards.dom()
            &&& forall|source: Seq<char>| #[trigger]
                after.shards.contains_key(source) ==> after.shards[source].unresolved
                    == graph.shards[source].unresolved && after.shards[source].diagnostics
                    == graph.shards[source].diagnostics
        }),
    decreases count,
{
    if count > 0 {
        lemma_tests_details(graph, tests, count - 1);
        let before = tests_added(graph, tests, count - 1);
        let after = tests_added(graph, tests, count);
        assert(graph.shards.contains_key(tests[count - 1].0));
        assert(before.shards.dom().contains(tests[count - 1].0));
        assert(after.shards.dom() =~= graph.shards.dom());
        assert forall|source: Seq<char>| #[trigger]
            after.shards.contains_key(source) implies after.shards[source].unresolved
            == graph.shards[source].unresolved && after.shards[source].diagnostics
            == graph.shards[source].diagnostics by {
            assert(before.shards.dom().contains(source));
            assert(before.shards.contains_key(source));
        }
    }
}

} // verus!
