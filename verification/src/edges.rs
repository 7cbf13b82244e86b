//! The edges of a snapshot: references, relations and containment.

use vstd::prelude::*;
use vstd::string::*;

use crate::error::{GraphError, GraphErrorModel, failure};
use crate::files::{
    FileId, FileRange, SourceFileModel, SourceFiles, evidence, evidence_of, source_of, source_path,
};
use crate::graph::{Graph, GraphModel, claimed, with_edge, with_node};
use crate::nodes::{
    dependency_source, file_id_text, file_node_id, graph_node_kind, node_kind_name, reference_kind,
    reference_kind_name,
};
use crate::plain::Plain;
use crate::snapshot::{
    GraphSnapshotEdge, GraphSnapshotEdgeModel, GraphSnapshotNode, GraphSnapshotNodeModel,
};
use crate::static_index::{
    ReferenceData, ReferenceDataModel, StaticExportDataModel, StaticReferenceRole, StaticRelation,
    StaticRelationKind, StaticRelationModel, TokenStaticData, TokenStaticDataModel,
};
use crate::table::Table;

verus! {

/// The body of a declaration in an indexed file.
#[derive(Debug, Clone, PartialEq, Eq)]
pub struct DefinitionBody {
    /// The number of the declaration.
    pub token: usize,
    pub body: FileRange,
    /// The identity of the declaration.
    pub id: String,
}

/// The content of a [`DefinitionBody`].
pub struct DefinitionBodyModel {
    pub token: usize,
    pub body: FileRange,
    pub id: Seq<char>,
}

impl DeepView for DefinitionBody {
    type V = DefinitionBodyModel;

    open spec fn deep_view(&self) -> DefinitionBodyModel {
        DefinitionBodyModel {
            token: self.token.deep_view(),
            body: self.body.deep_view(),
            id: self.id.deep_view(),
        }
    }
}

impl Plain for DefinitionBody {
    fn duplicate(&self) -> (copy: Self) {
        DefinitionBody {
            token: self.token.duplicate(),
            body: self.body.duplicate(),
            id: self.id.duplicate(),
        }
    }

    fn same(&self, other: &Self) -> (equal: bool) {
        self.token.same(&other.token)
            && self.body.same(&other.body)
            && self.id.same(&other.id)
    }
}

/// The bodies of the first declarations that lie in indexed files.
pub open spec fn definitions_of(
    sources: Map<FileId, Seq<char>>,
    tokens: Seq<TokenStaticDataModel>,
    count: int,
) -> Seq<DefinitionBodyModel>
    decreases count,
{
    if count <= 0 {
        Seq::empty()
    } else {
        let found = definitions_of(sources, tokens, count - 1);
        let token = tokens[count - 1];
        match token.definition_body {
            Some(body) => {
                if sources.contains_key(body.file_id) {
                    found.push(
                        DefinitionBodyModel {
                            token: (count - 1) as usize,
                            body,
                            id: token.stable_id,
                        },
                    )
                } else {
                    found
                }
            },
            None => found,
        }
    }
}

/// Finds the bodies of the declarations that lie in indexed files.
pub fn collect_definitions(sources: &Table<FileId, String>, tokens: &Vec<TokenStaticData>) -> (found:
    Vec<DefinitionBody>)
    ensures
        found.deep_view() == definitions_of(
            sources.deep_view(),
            tokens.deep_view(),
            tokens.deep_view().len() as int,
        ),
{
    let ghost all = tokens.deep_view();
    let mut found: Vec<DefinitionBody> = Vec::new();
    let mut index: usize = 0;
    assert(found.deep_view() =~= Seq::<DefinitionBodyModel>::empty());
    while index < tokens.len()
        invariant
            index <= tokens.len(),
            all == tokens.deep_view(),
            found.deep_view() == definitions_of(sources.deep_view(), all, index as int),
        decreases tokens.len() - index,
    {
        let token = &tokens[index];
        assert(all[index as int] == token.deep_view());
        let ghost before = found.deep_view();
        match token.definition_body {
            Some(body) => {
                if sources.contains(&body.file_id) {
                    let definition = DefinitionBody {
                        token: index,
                        body,
                        id: token.stable_id.clone(),
                    };
                    let ghost added = definition.deep_view();
                    found.push(definition);
                    assert(found.deep_view() =~= before.push(added));
                }
            },
            None => {},
        }
        index += 1;
    }
    found
}

/// Whether the body of a declaration other than the excluded one holds an occurrence.
pub open spec fn is_candidate(
    definition: DefinitionBodyModel,
    occurrence: FileRange,
    excluded: Option<usize>,
) -> bool {
    &&& excluded != Some(definition.token)
    &&& definition.body.file_id == occurrence.file_id
    &&& definition.body.range.encloses(occurrence.range)
}

/// Whether a body holds an occurrence and is narrower than every other one that does, or as narrow
/// as it and found before it.
pub open spec fn is_narrowest(
    definitions: Seq<DefinitionBodyModel>,
    occurrence: FileRange,
    excluded: Option<usize>,
    at: int,
) -> bool {
    &&& 0 <= at < definitions.len()
    &&& is_candidate(definitions[at], occurrence, excluded)
    &&& forall|other: int|
        0 <= other < definitions.len() && is_candidate(
            #[trigger] definitions[other],
            occurrence,
            excluded,
        ) ==> definitions[at].body.range.width() < definitions[other].body.range.width() || (
        definitions[at].body.range.width() == definitions[other].body.range.width() && at <= other)
}

/// The identity of the declaration with the narrowest body that holds an occurrence.
pub open spec fn owner_of(
    definitions: Seq<DefinitionBodyModel>,
    occurrence: FileRange,
    excluded: Option<usize>,
) -> Option<Seq<char>> {
    if exists|at: int| is_narrowest(definitions, occurrence, excluded, at) {
        Some(
            definitions[choose|at: int| is_narrowest(definitions, occurrence, excluded, at)].id,
        )
    } else {
        None
    }
}

/// Finds the narrowest body that holds an occurrence.
fn find_owner(
    definitions: &Vec<DefinitionBody>,
    occurrence: FileRange,
    excluded: Option<usize>,
) -> (owner: Option<String>)
    ensures
        owner.deep_view() == owner_of(definitions.deep_view(), occurrence, excluded),
{
    let ghost all = definitions.deep_view();
    let mut best: Option<usize> = None;
    let mut index: usize = 0;
    while index < definitions.len()
        invariant
            index <= definitions.len(),
            all == definitions.deep_view(),
            match best {
                None => forall|i: int|
                    0 <= i < index ==> !is_candidate(#[trigger] all[i], occurrence, excluded),
                Some(at) => at < index && is_narrowest(
                    all.take(index as int),
                    occurrence,
                    excluded,
                    at as int,
                ),
            },
        decreases definitions.len() - index,
    {
        let definition = &definitions[index];
        assert(all[index as int] == definition.deep_view());
        let other = match excluded {
            Some(token) => token != definition.token,
            None => true,
        };
        let ghost before = all.take(index as int);
        let ghost after = all.take(index + 1);
        proof {
            assert forall|i: int| 0 <= i < index implies #[trigger] after[i] == before[i] by {}
            assert(after[index as int] == all[index as int]);
        }
        if other && definition.body.file_id == occurrence.file_id
            && definition.body.range.contains_range(occurrence.range) {
            match best {
                None => {
                    best = Some(index);
                },
                Some(at) => {
                    assert(before[at as int] == definitions@[at as int].deep_view());
                    if definition.body.range.is_narrower(definitions[at].body.range) {
                        best = Some(index);
                    }
                },
            }
        }
        index += 1;
    }
    assert(all.take(index as int) =~= all);
    match best {
        None => None,
        Some(at) => {
            proof {
                let chosen = choose|i: int| is_narrowest(all, occurrence, excluded, i);
                assert(is_narrowest(all, occurrence, excluded, at as int));
                assert(is_narrowest(all, occurrence, excluded, chosen));
                assert(all[chosen] == all[at as int]);
            }
            Some(definitions[at].id.clone())
        },
    }
}

/// The declaration whose body is the narrowest one around an occurrence.
fn enclosing_owner(definitions: &Vec<DefinitionBody>, occurrence: FileRange) -> (owner: Option<
    String,
>)
    ensures
        owner.deep_view() == owner_of(definitions.deep_view(), occurrence, None),
{
    find_owner(definitions, occurrence, None)
}

/// The declaration, other than the excluded one, whose body is the narrowest one around an
/// occurrence.
fn enclosing_owner_excluding(
    definitions: &Vec<DefinitionBody>,
    occurrence: FileRange,
    excluded: usize,
) -> (owner: Option<String>)
    ensures
        owner.deep_view() == owner_of(definitions.deep_view(), occurrence, Some(excluded)),
{
    find_owner(definitions, occurrence, Some(excluded))
}

/// The node of an alias under which a declaration is exported.
pub open spec fn alias_node(
    files: Map<FileId, SourceFileModel>,
    source: Seq<char>,
    token: TokenStaticDataModel,
    export: StaticExportDataModel,
) -> GraphSnapshotNodeModel {
    GraphSnapshotNodeModel {
        id: export.alias_id,
        kind: node_kind_name(token.kind),
        name: export.alias,
        qualified_name: Some(export.qualified_name),
        file: source,
        external: false,
        exported: true,
        signature: token.signature,
        evidence: evidence_of(files, export.alias_range),
    }
}

/// Adds the node of an alias, an edge to it from the module that exports it, and an edge from it
/// to the declaration.
pub open spec fn export_added(
    files: Map<FileId, SourceFileModel>,
    graph: GraphModel,
    source: Seq<char>,
    token: TokenStaticDataModel,
    reference: ReferenceDataModel,
    export: StaticExportDataModel,
) -> GraphModel {
    let named = with_node(
        claimed(graph, export.alias_id, source),
        source,
        alias_node(files, source, token, export),
    );
    let exported = with_edge(
        named,
        source,
        GraphSnapshotEdgeModel {
            from: export.exporter,
            to: export.alias_id,
            kind: "exports"@,
            evidence: evidence_of(files, export.alias_range),
        },
    );
    with_edge(
        exported,
        source,
        GraphSnapshotEdgeModel {
            from: export.alias_id,
            to: token.stable_id,
            kind: "references"@,
            evidence: evidence_of(files, reference.range),
        },
    )
}

/// The node that a reference starts from: the innermost declaration around it; for a reference
/// that exports, and one outside of all declarations, the source file.
pub open spec fn reference_owner(
    definitions: Seq<DefinitionBodyModel>,
    source: Seq<char>,
    reference: ReferenceDataModel,
) -> Seq<char> {
    if reference.role == StaticReferenceRole::Export {
        file_node_id(source)
    } else {
        match owner_of(definitions, reference.range, None) {
            Some(owner) => owner,
            None => file_node_id(source),
        }
    }
}

/// Adds what a reference contributes.
pub open spec fn reference_added(
    files: Map<FileId, SourceFileModel>,
    sources: Map<FileId, Seq<char>>,
    definitions: Seq<DefinitionBodyModel>,
    graph: GraphModel,
    token: TokenStaticDataModel,
    reference: ReferenceDataModel,
) -> GraphModel {
    if reference.is_definition || !sources.contains_key(reference.range.file_id) {
        graph
    } else {
        let source = sources[reference.range.file_id];
        match reference.export {
            Some(export) => export_added(files, graph, source, token, reference, export),
            None => with_edge(
                graph,
                source,
                GraphSnapshotEdgeModel {
                    from: reference_owner(definitions, source, reference),
                    to: token.stable_id,
                    kind: reference_kind_name(reference.role),
                    evidence: evidence_of(files, reference.range),
                },
            ),
        }
    }
}

/// Adds what the first references to a declaration contribute.
pub open spec fn token_referenced(
    files: Map<FileId, SourceFileModel>,
    sources: Map<FileId, Seq<char>>,
    definitions: Seq<DefinitionBodyModel>,
    graph: GraphModel,
    token: TokenStaticDataModel,
    count: int,
) -> GraphModel
    decreases count,
{
    if count <= 0 {
        graph
    } else {
        reference_added(
            files,
            sources,
            definitions,
            token_referenced(files, sources, definitions, graph, token, count - 1),
            token,
            token.references[count - 1],
        )
    }
}

/// Adds what the references to the first declarations that have nodes contribute.
pub open spec fn tokens_referenced(
    files: Map<FileId, SourceFileModel>,
    sources: Map<FileId, Seq<char>>,
    definitions: Seq<DefinitionBodyModel>,
    placed: Seq<(bool, Option<Seq<char>>)>,
    graph: GraphModel,
    tokens: Seq<TokenStaticDataModel>,
    count: int,
) -> GraphModel
    decreases count,
{
    if count <= 0 {
        graph
    } else {
        let before = tokens_referenced(
            files,
            sources,
            definitions,
            placed,
            graph,
            tokens,
            count - 1,
        );
        let token = tokens[count - 1];
        if placed[count - 1].0 {
            token_referenced(
                files,
                sources,
                definitions,
                before,
                token,
                token.references.len() as int,
            )
        } else {
            before
        }
    }
}

/// Whether each indexed file has a shard.
pub open spec fn is_housed(sources: Map<FileId, Seq<char>>, graph: GraphModel) -> bool {
    forall|file_id: FileId| #[trigger]
        sources.contains_key(file_id) ==> graph.shards.contains_key(sources[file_id])
}

/// Adds what a reference contributes.
fn add_reference(
    files: &SourceFiles,
    sources: &Table<FileId, String>,
    definitions: &Vec<DefinitionBody>,
    graph: &mut Graph,
    token: &TokenStaticData,
    reference: &ReferenceData,
)
    requires
        old(graph).well_formed(),
        is_housed(sources.deep_view(), old(graph).deep_view()),
    ensures
        final(graph).well_formed(),
        is_housed(sources.deep_view(), final(graph).deep_view()),
        final(graph).deep_view() == reference_added(
            files.deep_view(),
            sources.deep_view(),
            definitions.deep_view(),
            old(graph).deep_view(),
            token.deep_view(),
            reference.deep_view(),
        ),
{
    if reference.is_definition {
        return;
    }
    let source = match sources.get(&reference.range.file_id) {
        Some(source) => source,
        None => return,
    };
    match &reference.export {
        Some(export) => {
            graph.claim(export.alias_id.clone(), source.clone());
            graph.add_node(
                source,
                GraphSnapshotNode {
                    id: export.alias_id.clone(),
                    kind: graph_node_kind(token.kind).to_owned(),
                    name: export.alias.clone(),
                    qualified_name: Some(export.qualified_name.clone()),
                    file: source.clone(),
                    external: false,
                    exported: true,
                    signature: token.signature.duplicate(),
                    evidence: evidence(files, export.alias_range),
                },
            );
            graph.add_edge(
                source,
                GraphSnapshotEdge {
                    from: export.exporter.clone(),
                    to: export.alias_id.clone(),
                    kind: "exports".to_owned(),
                    evidence: evidence(files, export.alias_range),
                },
            );
            graph.add_edge(
                source,
                GraphSnapshotEdge {
                    from: export.alias_id.clone(),
                    to: token.stable_id.clone(),
                    kind: "references".to_owned(),
                    evidence: evidence(files, reference.range),
                },
            );
        },
        None => {
            let owner = if reference.role == StaticReferenceRole::Export {
                file_id_text(source)
            } else {
                match enclosing_owner(definitions, reference.range) {
                    Some(owner) => owner,
                    None => file_id_text(source),
                }
            };
            graph.add_edge(
                source,
                GraphSnapshotEdge {
                    from: owner,
                    to: token.stable_id.clone(),
                    kind: reference_kind(reference.role).to_owned(),
                    evidence: evidence(files, reference.range),
                },
            );
        },
    }
}

/// Adds what the references to the declarations that have nodes contribute.
pub fn add_references(
    files: &SourceFiles,
    sources: &Table<FileId, String>,
    definitions: &Vec<DefinitionBody>,
    placed: &Vec<(bool, Option<String>)>,
    graph: &mut Graph,
    tokens: &Vec<TokenStaticData>,
)
    requires
        old(graph).well_formed(),
        is_housed(sources.deep_view(), old(graph).deep_view()),
        placed.len() == tokens.len(),
    ensures
        final(graph).well_formed(),
        is_housed(sources.deep_view(), final(graph).deep_view()),
        final(graph).deep_view() == tokens_referenced(
            files.deep_view(),
            sources.deep_view(),
            definitions.deep_view(),
            placed.deep_view(),
            old(graph).deep_view(),
            tokens.deep_view(),
            tokens.deep_view().len() as int,
        ),
{
    let ghost f = files.deep_view();
    let ghost s = sources.deep_view();
    let ghost d = definitions.deep_view();
    let ghost p = placed.deep_view();
    let ghost start = graph.deep_view();
    let ghost all = tokens.deep_view();
    let mut index: usize = 0;
    while index < tokens.len()
        invariant
            index <= tokens.len(),
            placed.len() == tokens.len(),
            f == files.deep_view(),
            s == sources.deep_view(),
            d == definitions.deep_view(),
            p == placed.deep_view(),
            all == tokens.deep_view(),
            graph.well_formed(),
            is_housed(s, graph.deep_view()),
            graph.deep_view() == tokens_referenced(f, s, d, p, start, all, index as int),
        decreases tokens.len() - index,
    {
        let token = &tokens[index];
        assert(all[index as int] == token.deep_view());
        assert(p[index as int] == placed@[index as int].deep_view());
        if placed[index].0 {
            let ghost before = graph.deep_view();
            let ghost t = token.deep_view();
            let mut at: usize = 0;
            while at < token.references.len()
                invariant
                    at <= token.references.len(),
                    t == token.deep_view(),
                    f == files.deep_view(),
                    s == sources.deep_view(),
                    d == definitions.deep_view(),
                    graph.well_formed(),
                    is_housed(s, graph.deep_view()),
                    graph.deep_view() == token_referenced(f, s, d, before, t, at as int),
                decreases token.references.len() - at,
            {
                assert(t.references[at as int] == token.references@[at as int].deep_view());
                add_reference(files, sources, definitions, graph, token, &token.references[at]);
                at += 1;
            }
        }
        index += 1;
    }
}

/// The kind of the edges that relations of a kind make.
pub open spec fn relation_kind_name(kind: StaticRelationKind) -> Seq<char> {
    match kind {
        StaticRelationKind::Extends => "extends"@,
        StaticRelationKind::Implements => "implements"@,
        StaticRelationKind::Overrides => "overrides"@,
    }
}

/// The kind of the edges that relations of a kind make.
fn relation_kind(kind: StaticRelationKind) -> (text: &'static str)
    ensures
        text@ == relation_kind_name(kind),
{
    match kind {
        StaticRelationKind::Extends => "extends",
        StaticRelationKind::Implements => "implements",
        StaticRelationKind::Overrides => "overrides",
    }
}

/// The path of the file that declares the target of a relation, if it lies in the workspace.
pub open spec fn target_source(
    files: Map<FileId, SourceFileModel>,
    relation: StaticRelationModel,
) -> Option<Seq<char>> {
    if relation.to_external {
        None
    } else {
        match relation.to_definition_file {
            Some(file_id) => Some(source_of(files, file_id)),
            None => None,
        }
    }
}

/// The node of the target of a relation.
pub open spec fn target_node(
    files: Map<FileId, SourceFileModel>,
    relation: StaticRelationModel,
    name: Seq<char>,
) -> GraphSnapshotNodeModel {
    GraphSnapshotNodeModel {
        id: relation.to,
        kind: node_kind_name(relation.to_kind),
        name,
        qualified_name: relation.to_qualified_name,
        file: match target_source(files, relation) {
            Some(source) => source,
            None => dependency_source(),
        },
        external: relation.to_external || target_source(files, relation) is None,
        exported: relation.to_exported,
        signature: Some(relation.to_signature),
        evidence: None,
    }
}

/// The edge of a relation.
pub open spec fn relation_edge(relation: StaticRelationModel) -> GraphSnapshotEdgeModel {
    GraphSnapshotEdgeModel {
        from: relation.from,
        to: relation.to,
        kind: relation_kind_name(relation.kind),
        evidence: None,
    }
}

/// Adds the edge of a relation that starts from a node, and the node of its target where it has
/// none. A target without a node and without a name leaves the relation out.
pub open spec fn relation_added(
    files: Map<FileId, SourceFileModel>,
    sources: Map<FileId, Seq<char>>,
    graph: GraphModel,
    relation: StaticRelationModel,
) -> GraphModel {
    if !sources.contains_key(relation.file_id) || !graph.owners.contains_key(relation.from) {
        graph
    } else {
        let source = sources[relation.file_id];
        if graph.owners.contains_key(relation.to) {
            with_edge(graph, source, relation_edge(relation))
        } else {
            match relation.to_display_name {
                None => graph,
                Some(name) => {
                    let owner = match target_source(files, relation) {
                        Some(target) => target,
                        None => source,
                    };
                    let named = claimed(
                        with_node(graph, owner, target_node(files, relation, name)),
                        relation.to,
                        owner,
                    );
                    with_edge(named, source, relation_edge(relation))
                },
            }
        }
    }
}

/// Adds the edges of the first relations.
pub open spec fn relations_added(
    files: Map<FileId, SourceFileModel>,
    sources: Map<FileId, Seq<char>>,
    graph: GraphModel,
    relations: Seq<StaticRelationModel>,
    count: int,
) -> GraphModel
    decreases count,
{
    if count <= 0 {
        graph
    } else {
        relation_added(
            files,
            sources,
            relations_added(files, sources, graph, relations, count - 1),
            relations[count - 1],
        )
    }
}

/// Adds the edge of a relation.
fn add_relation(
    files: &SourceFiles,
    sources: &Table<FileId, String>,
    graph: &mut Graph,
    relation: &StaticRelation,
)
    requires
        old(graph).well_formed(),
        is_housed(sources.deep_view(), old(graph).deep_view()),
    ensures
        final(graph).well_formed(),
        is_housed(sources.deep_view(), final(graph).deep_view()),
        final(graph).deep_view() == relation_added(
            files.deep_view(),
            sources.deep_view(),
            old(graph).deep_view(),
            relation.deep_view(),
        ),
{
    let source = match sources.get(&relation.file_id) {
        Some(source) => source,
        None => return,
    };
    if !graph.owners.contains(&relation.from) {
        return;
    }
    if !graph.owners.contains(&relation.to) {
        let name = match &relation.to_display_name {
            Some(name) => name,
            None => return,
        };
        let target: Option<String> = if relation.to_external {
            None
        } else {
            match relation.to_definition_file {
                Some(file_id) => Some(source_path(files, file_id)),
                None => None,
            }
        };
        let external = relation.to_external || target.is_none();
        let owner = match &target {
            Some(target) => target.clone(),
            None => source.clone(),
        };
        graph.add_node(
            &owner,
            GraphSnapshotNode {
                id: relation.to.clone(),
                kind: graph_node_kind(relation.to_kind).to_owned(),
                name: name.clone(),
                qualified_name: relation.to_qualified_name.duplicate(),
                file: match target {
                    Some(target) => target,
                    None => "bundled:///rust/dependencies".to_owned(),
                },
                external,
                exported: relation.to_exported,
                signature: Some(relation.to_signature.clone()),
                evidence: None,
            },
        );
        graph.claim(relation.to.clone(), owner);
    }
    graph.add_edge(
        source,
        GraphSnapshotEdge {
            from: relation.from.clone(),
            to: relation.to.clone(),
            kind: relation_kind(relation.kind).to_owned(),
            evidence: None,
        },
    );
}

/// Adds the edges of the relations.
pub fn add_relations(
    files: &SourceFiles,
    sources: &Table<FileId, String>,
    graph: &mut Graph,
    relations: &Vec<StaticRelation>,
)
    requires
        old(graph).well_formed(),
        is_housed(sources.deep_view(), old(graph).deep_view()),
    ensures
        final(graph).well_formed(),
        is_housed(sources.deep_view(), final(graph).deep_view()),
        final(graph).deep_view() == relations_added(
            files.deep_view(),
            sources.deep_view(),
            old(graph).deep_view(),
            relations.deep_view(),
            relations.deep_view().len() as int,
        ),
{
    let ghost start = graph.deep_view();
    let ghost all = relations.deep_view();
    let mut index: usize = 0;
    while index < relations.len()
        invariant
            index <= relations.len(),
            all == relations.deep_view(),
            graph.well_formed(),
            is_housed(sources.deep_view(), graph.deep_view()),
            graph.deep_view() == relations_added(
                files.deep_view(),
                sources.deep_view(),
                start,
                all,
                index as int,
            ),
        decreases relations.len() - index,
    {
        assert(all[index as int] == relations@[index as int].deep_view());
        add_relation(files, sources, graph, &relations[index]);
        index += 1;
    }
}

/// Adds an edge to a declaration from the declaration around it or from its source file, and one
/// from its source file where it is exported. The edges belong to the source file that owns the
/// declaration, which must be among the indexed ones.
pub open spec fn definition_contained(
    files: Map<FileId, SourceFileModel>,
    sources: Map<FileId, Seq<char>>,
    definitions: Seq<DefinitionBodyModel>,
    placed: Seq<(bool, Option<Seq<char>>)>,
    tokens: Seq<TokenStaticDataModel>,
    graph: GraphModel,
    definition: DefinitionBodyModel,
) -> Result<GraphModel, GraphErrorModel> {
    match placed[definition.token as int].1 {
        None => Ok(graph),
        Some(source) => {
            if !graph.shards.contains_key(source) {
                Err(GraphErrorModel::Failed("graph declaration lost its owning shard"@))
            } else {
                let token = tokens[definition.token as int];
                let file = file_node_id(sources[definition.body.file_id]);
                let at = match token.definition {
                    Some(range) => range,
                    None => definition.body,
                };
                let contained = with_edge(
                    graph,
                    source,
                    GraphSnapshotEdgeModel {
                        from: match owner_of(
                            definitions,
                            definition.body,
                            Some(definition.token),
                        ) {
                            Some(parent) => parent,
                            None => file,
                        },
                        to: definition.id,
                        kind: "contains"@,
                        evidence: evidence_of(files, at),
                    },
                );
                if token.exported {
                    Ok(
                        with_edge(
                            contained,
                            source,
                            GraphSnapshotEdgeModel {
                                from: file,
                                to: definition.id,
                                kind: "exports"@,
                                evidence: evidence_of(files, at),
                            },
                        ),
                    )
                } else {
                    Ok(contained)
                }
            }
        },
    }
}

/// Adds the edges to the first declarations.
pub open spec fn definitions_contained(
    files: Map<FileId, SourceFileModel>,
    sources: Map<FileId, Seq<char>>,
    definitions: Seq<DefinitionBodyModel>,
    placed: Seq<(bool, Option<Seq<char>>)>,
    tokens: Seq<TokenStaticDataModel>,
    graph: GraphModel,
    count: int,
) -> Result<GraphModel, GraphErrorModel>
    decreases count,
{
    if count <= 0 {
        Ok(graph)
    } else {
        match definitions_contained(
            files,
            sources,
            definitions,
            placed,
            tokens,
            graph,
            count - 1,
        ) {
            Err(error) => Err(error),
            Ok(before) => definition_contained(
                files,
                sources,
                definitions,
                placed,
                tokens,
                before,
                definitions[count - 1],
            ),
        }
    }
}

/// Once an error came up, it stays.
proof fn lemma_containment_error(
    files: Map<FileId, SourceFileModel>,
    sources: Map<FileId, Seq<char>>,
    definitions: Seq<DefinitionBodyModel>,
    placed: Seq<(bool, Option<Seq<char>>)>,
    tokens: Seq<TokenStaticDataModel>,
    graph: GraphModel,
    count: int,
    more: int,
)
    requires
        0 <= count <= more,
        definitions_contained(files, sources, definitions, placed, tokens, graph, count) is Err,
    ensures
        definitions_contained(files, sources, definitions, placed, tokens, graph, more)
            == definitions_contained(files, sources, definitions, placed, tokens, graph, count),
    decreases more - count,
{
    if count < more {
        lemma_containment_error(
            files,
            sources,
            definitions,
            placed,
            tokens,
            graph,
            count,
            more - 1,
        );
    }
}

/// Each body in the list is that of a declaration in an indexed file.
proof fn lemma_definitions(
    sources: Map<FileId, Seq<char>>,
    tokens: Seq<TokenStaticDataModel>,
    count: int,
)
    requires
        0 <= count <= tokens.len() <= usize::MAX,
    ensures
        forall|i: int|
            0 <= i < definitions_of(sources, tokens, count).len() ==> (#[trigger] definitions_of(
                sources,
                tokens,
                count,
            )[i]).token < count && sources.contains_key(
                definitions_of(sources, tokens, count)[i].body.file_id,
            ),
    decreases count,
{
    if count > 0 {
        lemma_definitions(sources, tokens, count - 1);
        let found = definitions_of(sources, tokens, count - 1);
        assert forall|i: int| 0 <= i < definitions_of(sources, tokens, count).len() implies (
        #[trigger] definitions_of(sources, tokens, count)[i]).token < count && sources.contains_key(
            definitions_of(sources, tokens, count)[i].body.file_id,
        ) by {
            if i < found.len() {
                assert(definitions_of(sources, tokens, count)[i] == found[i]);
            }
        }
    }
}

/// Adds the edges to a declaration.
fn contain_definition(
    files: &SourceFiles,
    sources: &Table<FileId, String>,
    definitions: &Vec<DefinitionBody>,
    placed: &Vec<(bool, Option<String>)>,
    tokens: &Vec<TokenStaticData>,
    graph: &mut Graph,
    definition: &DefinitionBody,
) -> (result: Result<(), GraphError>)
    requires
        old(graph).well_formed(),
        is_housed(sources.deep_view(), old(graph).deep_view()),
        definition.token < tokens.len(),
        definition.token < placed.len(),
        sources.deep_view().contains_key(definition.body.file_id),
    ensures
        final(graph).well_formed(),
        is_housed(sources.deep_view(), final(graph).deep_view()),
        match result {
            Ok(_) => definition_contained(
                files.deep_view(),
                sources.deep_view(),
                definitions.deep_view(),
                placed.deep_view(),
                tokens.deep_view(),
                old(graph).deep_view(),
                definition.deep_view(),
            ) == Ok::<GraphModel, GraphErrorModel>(final(graph).deep_view()),
            Err(error) => definition_contained(
                files.deep_view(),
                sources.deep_view(),
                definitions.deep_view(),
                placed.deep_view(),
                tokens.deep_view(),
                old(graph).deep_view(),
                definition.deep_view(),
            ) == Err::<GraphModel, GraphErrorModel>(error.deep_view()),
        },
{
    let token = &tokens[definition.token];
    assert(tokens.deep_view()[definition.token as int] == token.deep_view());
    assert(placed.deep_view()[definition.token as int]
        == placed@[definition.token as int].deep_view());
    let source = match &placed[definition.token].1 {
        Some(source) => source,
        None => return Ok(()),
    };
    if !graph.shards.contains(source) {
        return Err(failure("graph declaration lost its owning shard"));
    }
    let file = match sources.get(&definition.body.file_id) {
        Some(path) => file_id_text(path),
        None => String::new(),
    };
    let at = match token.definition {
        Some(range) => range,
        None => definition.body,
    };
    let parent = match enclosing_owner_excluding(definitions, definition.body, definition.token) {
        Some(parent) => parent,
        None => file.clone(),
    };
    graph.add_edge(
        source,
        GraphSnapshotEdge {
            from: parent,
            to: definition.id.clone(),
            kind: "contains".to_owned(),
            evidence: evidence(files, at),
        },
    );
    if token.exported {
        graph.add_edge(
            source,
            GraphSnapshotEdge {
                from: file,
                to: definition.id.clone(),
                kind: "exports".to_owned(),
                evidence: evidence(files, at),
            },
        );
    }
    Ok(())
}

/// Adds the edges to the declarations.
pub fn contain_definitions(
    files: &SourceFiles,
    sources: &Table<FileId, String>,
    definitions: &Vec<DefinitionBody>,
    placed: &Vec<(bool, Option<String>)>,
    tokens: &Vec<TokenStaticData>,
    graph: &mut Graph,
) -> (result: Result<(), GraphError>)
    requires
        old(graph).well_formed(),
        is_housed(sources.deep_view(), old(graph).deep_view()),
        placed.len() == tokens.len(),
        definitions.deep_view() == definitions_of(
            sources.deep_view(),
            tokens.deep_view(),
            tokens.deep_view().len() as int,
        ),
    ensures
        final(graph).well_formed(),
        is_housed(sources.deep_view(), final(graph).deep_view()),
        ({
            let expected = definitions_contained(
                files.deep_view(),
                sources.deep_view(),
                definitions.deep_view(),
                placed.deep_view(),
                tokens.deep_view(),
                old(graph).deep_view(),
                definitions.deep_view().len() as int,
            );
            match result {
                Ok(_) => expected == Ok::<GraphModel, GraphErrorModel>(final(graph).deep_view()),
                Err(error) => expected == Err::<GraphModel, GraphErrorModel>(error.deep_view()),
            }
        }),
{
    let ghost f = files.deep_view();
    let ghost s = sources.deep_view();
    let ghost d = definitions.deep_view();
    let ghost p = placed.deep_view();
    let ghost t = tokens.deep_view();
    let ghost start = graph.deep_view();
    proof {
        lemma_definitions(s, t, t.len() as int);
    }
    let mut index: usize = 0;
    while index < definitions.len()
        invariant
            index <= definitions.len(),
            placed.len() == tokens.len(),
            f == files.deep_view(),
            s == sources.deep_view(),
            d == definitions.deep_view(),
            p == placed.deep_view(),
            t == tokens.deep_view(),
            start == old(graph).deep_view(),
            forall|i: int|
                0 <= i < d.len() ==> (#[trigger] d[i]).token < t.len() && s.contains_key(
                    d[i].body.file_id,
                ),
            graph.well_formed(),
            is_housed(s, graph.deep_view()),
            definitions_contained(f, s, d, p, t, start, index as int) == Ok::<
                GraphModel,
                GraphErrorModel,
            >(graph.deep_view()),
        decreases definitions.len() - index,
    {
        assert(d[index as int] == definitions@[index as int].deep_view());
        match contain_definition(
            files,
            sources,
            definitions,
            placed,
            tokens,
            graph,
            &definitions[index],
        ) {
            Ok(_) => {},
            Err(error) => {
                proof {
                    lemma_containment_error(f, s, d, p, t, start, index + 1, d.len() as int);
                }
                return Err(error);
            },
        }
        index += 1;
    }
    Ok(())
}

} // verus!
