//! Where declarations are placed, and the edges to them, of their relations and of their aliases.

use vstd::prelude::*;

use crate::drawing::{
    file_identity, is_drawn, is_innermost_around, is_named, is_use, lemma_definitions_listed,
    lemma_innermost_owns, lemma_nothing_owns, lemma_used_is_placed, surrounds,
};
use crate::edges::{
    alias_node, definitions_contained, definitions_of, is_housed, owner_of, reference_added,
    relation_edge, relations_added, target_node, target_source, token_referenced, tokens_referenced,
};
use crate::files::{FileId, SourceFileModel, evidence_of, source_of};
use crate::graph::{GraphModel, claimed, has_edge, with_edge, with_node};
use crate::grounding::is_relation_kind;
use crate::housing::{
    holds_node, is_finished_from, keeps, lemma_all_references_keep, lemma_built_list,
    lemma_claim_keeps, lemma_definition_keeps, lemma_definitions_keep, lemma_details_keep,
    lemma_edge_keeps, lemma_files_keep, lemma_finished_holds, lemma_housed_on, lemma_keeps_on,
    lemma_node_keeps, lemma_references_keep, lemma_relation_keeps, lemma_relations_keep,
    lemma_sorted_shards, lemma_stages, lemma_start, lemma_tests_home, lemma_tests_keep,
    lemma_tokens_keep, named_graph, names_node, referenced_graph, whole_graph,
};
use crate::nodes::{
    digests_of, empty_shards, file_node_id, first_reference_source, is_indexed, placements,
    sources_of, token_node, token_owner, token_placed, tokens_placed,
};
use crate::shards::{built, files_detailed, tests_of};
use crate::snapshot::{GraphSnapshotEdgeModel, GraphSnapshotNodeModel};
use crate::static_index::{
    ReferenceDataModel, StaticIndexModel, StaticRelationModel, TokenStaticDataModel,
};
use crate::table::{lemma_ordered_lists, ordered};

verus! {

/// What a stage of the graph holds stands in the built shards.
proof fn lemma_stage_built(
    files: Map<FileId, SourceFileModel>,
    index: StaticIndexModel,
    target: Seq<char>,
    interface_fingerprints: Map<Seq<char>, Seq<char>>,
    source_inputs: Map<FileId, Seq<char>>,
    owners: Map<Seq<char>, Seq<char>>,
    stage: GraphModel,
    source: Seq<char>,
)
    requires
        built(files, index, target, interface_fingerprints, source_inputs, owners) is Ok,
        keeps(stage, whole_graph(files, index, owners)),
        stage.shards.contains_key(source),
    ensures
        ({
            let shards = built(
                files,
                index,
                target,
                interface_fingerprints,
                source_inputs,
                owners,
            )->Ok_0.shards;
            &&& forall|from: Seq<char>, to: Seq<char>, kind: Seq<char>| #[trigger]
                has_edge(stage.shards[source].edges, from, to, kind) ==> is_drawn(
                    shards,
                    source,
                    from,
                    to,
                    kind,
                )
            &&& forall|node: GraphSnapshotNodeModel| #[trigger]
                holds_node(stage.shards[source], node) ==> exists|s: int|
                    0 <= s < shards.len() && (#[trigger] shards[s]).source == source && names_node(
                        shards[s],
                        node.id,
                    )
        }),
{
    let shards = built(
        files,
        index,
        target,
        interface_fingerprints,
        source_inputs,
        owners,
    )->Ok_0.shards;
    let whole = whole_graph(files, index, owners);
    let digests = digests_of(files, index.files, source_inputs, index.files.len() as int);
    lemma_built_list(files, index, target, interface_fingerprints, source_inputs, owners);
    lemma_sorted_shards(target, whole, digests, interface_fingerprints);
    assert(whole.shards.dom().contains(source) && whole.shards.contains_key(source));
    let s = choose|s: int| 0 <= s < shards.len() && (#[trigger] shards[s]).source == source;
    assert(is_finished_from(shards[s], target, whole, digests, interface_fingerprints));
    lemma_finished_holds(shards[s], target, whole, digests, interface_fingerprints);
    assert forall|from: Seq<char>, to: Seq<char>, kind: Seq<char>| #[trigger]
        has_edge(stage.shards[source].edges, from, to, kind) implies is_drawn(
        shards,
        source,
        from,
        to,
        kind,
    ) by {
        assert(has_edge(whole.shards[source].edges, from, to, kind));
        assert(has_edge(shards[s].edges, from, to, kind));
        let e = choose|e: int|
            0 <= e < shards[s].edges.len() && (#[trigger] shards[s].edges[e]).from == from
                && shards[s].edges[e].to == to && shards[s].edges[e].kind == kind;
        assert(shards[s].edges[e].from == from);
    }
    assert forall|node: GraphSnapshotNodeModel| #[trigger]
        holds_node(stage.shards[source], node) implies exists|s: int|
        0 <= s < shards.len() && (#[trigger] shards[s]).source == source && names_node(
            shards[s],
            node.id,
        ) by {
        assert(holds_node(whole.shards[source], node));
        assert(names_node(shards[s], node.id));
    }
}

/// The stages after the references keep what is there.
proof fn lemma_late_stages(
    files: Map<FileId, SourceFileModel>,
    index: StaticIndexModel,
    target: Seq<char>,
    interface_fingerprints: Map<Seq<char>, Seq<char>>,
    source_inputs: Map<FileId, Seq<char>>,
    owners: Map<Seq<char>, Seq<char>>,
)
    requires
        built(files, index, target, interface_fingerprints, source_inputs, owners) is Ok,
    ensures
        ({
            let sources = sources_of(files, index.files);
            let start = GraphModel { owners, shards: empty_shards(files, index.files) };
            let definitions = definitions_of(sources, index.tokens, index.tokens.len() as int);
            let related = relations_added(
                files,
                sources,
                referenced_graph(files, index, owners),
                index.relations,
                index.relations.len() as int,
            );
            let contained = definitions_contained(
                files,
                sources,
                definitions,
                placements(files, sources, start, index.tokens),
                index.tokens,
                related,
                definitions.len() as int,
            );
            &&& contained is Ok
            &&& keeps(related, whole_graph(files, index, owners))
            &&& keeps(contained->Ok_0, whole_graph(files, index, owners))
            &&& is_housed(sources, related)
            &&& is_housed(sources, contained->Ok_0)
        }),
{
    let sources = sources_of(files, index.files);
    let start = GraphModel { owners, shards: empty_shards(files, index.files) };
    let listing = ordered::<FileId, Seq<char>>(sources);
    let definitions = definitions_of(sources, index.tokens, index.tokens.len() as int);
    let placed = placements(files, sources, start, index.tokens);
    let named = named_graph(files, index, owners);
    let referenced = referenced_graph(files, index, owners);
    let related = relations_added(
        files,
        sources,
        referenced,
        index.relations,
        index.relations.len() as int,
    );
    let contained = definitions_contained(
        files,
        sources,
        definitions,
        placed,
        index.tokens,
        related,
        definitions.len() as int,
    )->Ok_0;
    lemma_start(files, index, owners);
    lemma_stages(files, index, target, interface_fingerprints, source_inputs, owners);
    lemma_housed_on(sources, named, referenced);
    lemma_relations_keep(
        files,
        sources,
        referenced,
        index.relations,
        index.relations.len() as int,
    );
    lemma_housed_on(sources, referenced, related);
    lemma_definitions_keep(
        files,
        sources,
        definitions,
        placed,
        index.tokens,
        related,
        definitions.len() as int,
    );
    lemma_housed_on(sources, related, contained);
    assert forall|i: int| 0 <= i < listing.len() implies contained.shards.contains_key(
        (#[trigger] listing[i]).1,
    ) by {
        assert(sources.contains_key(listing[i].0));
    }
    lemma_details_keep(
        files,
        index.files,
        index.tokens,
        contained,
        listing,
        sources.len() as int,
    );
    let detailed = files_detailed(
        files,
        index.files,
        index.tokens,
        contained,
        listing,
        sources.len() as int,
    )->Ok_0;
    assert(detailed.shards.dom() == start.shards.dom());
    let shards = ordered::<String, crate::graph::MutableShardModel>(detailed.shards);
    lemma_ordered_lists::<String, crate::graph::MutableShardModel>(detailed.shards);
    let tests = tests_of(index.tokens, shards, shards.len() as int);
    lemma_tests_home(index.tokens, shards, shards.len() as int, detailed.shards);
    lemma_tests_keep(detailed, tests, tests.len() as int);
    lemma_keeps_on(contained, detailed, whole_graph(files, index, owners));
    lemma_keeps_on(related, contained, whole_graph(files, index, owners));
}

/// Whether a reference is one of those that export under an alias.
pub open spec fn is_alias_use(index: StaticIndexModel, t: int, r: int) -> bool {
    is_use(index, t, r) && index.tokens[t].references[r].export is Some
}

/// Every use that exports under an alias gives the alias a node in the shard of the source file that
/// it stands in, an edge to it from the module that exports it, and one from it to the declaration.
pub proof fn law_aliases_stand_between(
    files: Map<FileId, SourceFileModel>,
    index: StaticIndexModel,
    target: Seq<char>,
    interface_fingerprints: Map<Seq<char>, Seq<char>>,
    source_inputs: Map<FileId, Seq<char>>,
    owners: Map<Seq<char>, Seq<char>>,
    t: int,
    r: int,
)
    requires
        is_alias_use(index, t, r),
        is_named(index.tokens[t]),
    ensures
        ({
            let reference = index.tokens[t].references[r];
            let alias = reference.export->0;
            let source = source_of(files, reference.range.file_id);
            built(
                files,
                index,
                target,
                interface_fingerprints,
                source_inputs,
                owners,
            ) matches Ok(result) ==> {
                &&& is_drawn(
                    result.shards,
                    source,
                    alias.exporter,
                    alias.alias_id,
                    "exports"@,
                )
                &&& is_drawn(
                    result.shards,
                    source,
                    alias.alias_id,
                    index.tokens[t].stable_id,
                    "references"@,
                )
                &&& exists|s: int|
                    0 <= s < result.shards.len() && (#[trigger] result.shards[s]).source == source
                        && names_node(result.shards[s], alias.alias_id)
            }
        }),
{
    if built(files, index, target, interface_fingerprints, source_inputs, owners) is Ok {
        let sources = sources_of(files, index.files);
        let start = GraphModel { owners, shards: empty_shards(files, index.files) };
        let placed = placements(files, sources, start, index.tokens);
        let count = index.tokens.len() as int;
        let definitions = definitions_of(sources, index.tokens, count);
        let named = named_graph(files, index, owners);
        let referenced = referenced_graph(files, index, owners);
        let whole = whole_graph(files, index, owners);
        let token = index.tokens[t];
        let reference = token.references[r];
        let export = reference.export->0;
        let source = source_of(files, reference.range.file_id);
        lemma_used_is_placed(files, index, owners, t, r);
        lemma_stages(files, index, target, interface_fingerprints, source_inputs, owners);
        let before = tokens_referenced(
            files,
            sources,
            definitions,
            placed,
            named,
            index.tokens,
            t,
        );
        lemma_all_references_keep(files, sources, definitions, placed, named, index.tokens, 0, t);
        let half = token_referenced(files, sources, definitions, before, token, r);
        lemma_references_keep(files, sources, definitions, before, token, 0, r);
        lemma_housed_on(sources, named, before);
        lemma_housed_on(sources, before, half);
        let made = token_referenced(files, sources, definitions, before, token, r + 1);
        assert(made == reference_added(files, sources, definitions, half, token, reference));
        let owned = claimed(half, export.alias_id, source);
        let node = alias_node(files, source, token, export);
        let held = with_node(owned, source, node);
        let first = GraphSnapshotEdgeModel {
            from: export.exporter,
            to: export.alias_id,
            kind: "exports"@,
            evidence: evidence_of(files, export.alias_range),
        };
        let exported = with_edge(held, source, first);
        let second = GraphSnapshotEdgeModel {
            from: export.alias_id,
            to: token.stable_id,
            kind: "references"@,
            evidence: evidence_of(files, reference.range),
        };
        lemma_claim_keeps(half, export.alias_id, source);
        lemma_node_keeps(owned, source, node);
        lemma_keeps_on(half, owned, held);
        lemma_housed_on(sources, half, held);
        lemma_edge_keeps(held, source, first);
        lemma_housed_on(sources, held, exported);
        lemma_edge_keeps(exported, source, second);
        assert(made == with_edge(exported, source, second));
        lemma_housed_on(sources, exported, made);
        assert(owned.shards.contains_key(source) && held.shards.contains_key(source)
            && exported.shards.contains_key(source) && made.shards.contains_key(source));
        assert(holds_node(held.shards[source], node));
        assert(holds_node(exported.shards[source], node));
        assert(holds_node(made.shards[source], node));
        assert(has_edge(exported.shards[source].edges, first.from, first.to, first.kind));
        assert(has_edge(made.shards[source].edges, first.from, first.to, first.kind));
        assert(has_edge(made.shards[source].edges, second.from, second.to, second.kind));
        lemma_references_keep(
            files,
            sources,
            definitions,
            before,
            token,
            r + 1,
            token.references.len() as int,
        );
        let after = tokens_referenced(
            files,
            sources,
            definitions,
            placed,
            named,
            index.tokens,
            t + 1,
        );
        lemma_all_references_keep(
            files,
            sources,
            definitions,
            placed,
            named,
            index.tokens,
            t + 1,
            count,
        );
        lemma_keeps_on(made, after, referenced);
        lemma_keeps_on(made, referenced, whole);
        lemma_stage_built(
            files,
            index,
            target,
            interface_fingerprints,
            source_inputs,
            owners,
            made,
            source,
        );
    }
}

proof fn lemma_owners_before(
    files: Map<FileId, SourceFileModel>,
    sources: Map<FileId, Seq<char>>,
    start: GraphModel,
    tokens: Seq<TokenStaticDataModel>,
    count: int,
    id: Seq<char>,
)
    requires
        0 <= count <= tokens.len(),
        start.owners.contains_key(id) || forall|i: int|
            0 <= i < count ==> (#[trigger] tokens[i]).stable_id != id,
    ensures
        ({
            let after = tokens_placed(files, sources, start, tokens, count);
            &&& after.owners.contains_key(id) == start.owners.contains_key(id)
            &&& start.owners.contains_key(id) ==> after.owners[id] == start.owners[id]
        }),
    decreases count,
{
    if count > 0 {
        lemma_owners_before(files, sources, start, tokens, count - 1, id);
        let before = tokens_placed(files, sources, start, tokens, count - 1);
        let token = tokens[count - 1];
        assert(token.stable_id == id ==> before.owners.contains_key(id));
    }
}

/// Whether a source file is that of the first use of a declaration in an indexed file.
pub open spec fn is_first_use(
    files: Map<FileId, SourceFileModel>,
    index: StaticIndexModel,
    references: Seq<ReferenceDataModel>,
    r: int,
) -> bool {
    &&& 0 <= r < references.len()
    &&& !references[r].is_definition
    &&& is_indexed(index.files, references[r].range.file_id)
    &&& forall|i: int|
        0 <= i < r ==> (#[trigger] references[i]).is_definition || !is_indexed(
            index.files,
            references[i].range.file_id,
        )
}

proof fn lemma_first_use(
    files: Map<FileId, SourceFileModel>,
    index: StaticIndexModel,
    references: Seq<ReferenceDataModel>,
    r: int,
)
    requires
        is_first_use(files, index, references, r),
    ensures
        first_reference_source(sources_of(files, index.files), references) == Some(
            source_of(files, references[r].range.file_id),
        ),
    decreases references.len(),
{
    if r > 0 {
        let rest = references.drop_first();
        assert(references[0].is_definition || !is_indexed(
            index.files,
            references[0].range.file_id,
        ));
        assert forall|i: int| 0 <= i < r - 1 implies (#[trigger] rest[i]).is_definition
            || !is_indexed(index.files, rest[i].range.file_id) by {
            assert(rest[i] == references[i + 1]);
        }
        assert(rest[r - 1] == references[r]);
        lemma_first_use(files, index, rest, r - 1);
    }
}

/// A declaration belongs to the source file that owns it already, if one does. Else, where it comes
/// first with its identity, it belongs to the source file that declares it, where it is one of the
/// workspace, and to the first indexed one that uses it, where it comes from outside.
pub proof fn law_declarations_are_owned(
    files: Map<FileId, SourceFileModel>,
    index: StaticIndexModel,
    owners: Map<Seq<char>, Seq<char>>,
    t: int,
)
    requires
        0 <= t < index.tokens.len(),
    ensures
        ({
            let start = GraphModel { owners, shards: empty_shards(files, index.files) };
            let token = index.tokens[t];
            let owner = placements(files, sources_of(files, index.files), start, index.tokens)[t].1;
            &&& owners.contains_key(token.stable_id) ==> owner == Some(owners[token.stable_id])
            &&& !owners.contains_key(token.stable_id) && (forall|i: int|
                0 <= i < t ==> (#[trigger] index.tokens[i]).stable_id != token.stable_id) ==> {
                &&& !token.external && token.definition is Some ==> owner == Some(
                    source_of(files, token.definition->0.file_id),
                )
                &&& token.external || token.definition is None ==> forall|r: int|
                    #[trigger] is_first_use(files, index, token.references, r) ==> owner == Some(
                        source_of(files, token.references[r].range.file_id),
                    )
            }
        }),
{
    let sources = sources_of(files, index.files);
    let start = GraphModel { owners, shards: empty_shards(files, index.files) };
    let token = index.tokens[t];
    if owners.contains_key(token.stable_id) || forall|i: int|
        0 <= i < t ==> (#[trigger] index.tokens[i]).stable_id != token.stable_id {
        lemma_owners_before(files, sources, start, index.tokens, t, token.stable_id);
        assert forall|r: int| #[trigger]
            is_first_use(files, index, token.references, r) implies first_reference_source(
            sources,
            token.references,
        ) == Some(source_of(files, token.references[r].range.file_id)) by {
            lemma_first_use(files, index, token.references, r);
        }
    }
}

proof fn lemma_definitions_on(
    files: Map<FileId, SourceFileModel>,
    index: StaticIndexModel,
    placed: Seq<(bool, Option<Seq<char>>)>,
    graph: GraphModel,
    from: int,
    count: int,
)
    requires
        0 <= from <= count,
        ({
            let sources = sources_of(files, index.files);
            let definitions = definitions_of(sources, index.tokens, index.tokens.len() as int);
            definitions_contained(
                files,
                sources,
                definitions,
                placed,
                index.tokens,
                graph,
                count,
            ) is Ok
        }),
    ensures
        ({
            let sources = sources_of(files, index.files);
            let definitions = definitions_of(sources, index.tokens, index.tokens.len() as int);
            let early = definitions_contained(
                files,
                sources,
                definitions,
                placed,
                index.tokens,
                graph,
                from,
            );
            let late = definitions_contained(
                files,
                sources,
                definitions,
                placed,
                index.tokens,
                graph,
                count,
            );
            early is Ok && keeps(early->Ok_0, late->Ok_0)
        }),
    decreases count - from,
{
    let sources = sources_of(files, index.files);
    let definitions = definitions_of(sources, index.tokens, index.tokens.len() as int);
    if from < count {
        lemma_definitions_on(files, index, placed, graph, from, count - 1);
        let before = definitions_contained(
            files,
            sources,
            definitions,
            placed,
            index.tokens,
            graph,
            count - 1,
        )->Ok_0;
        lemma_definition_keeps(
            files,
            sources,
            definitions,
            placed,
            index.tokens,
            before,
            definitions[count - 1],
        );
        lemma_keeps_on(
            definitions_contained(
                files,
                sources,
                definitions,
                placed,
                index.tokens,
                graph,
                from,
            )->Ok_0,
            before,
            definitions_contained(
                files,
                sources,
                definitions,
                placed,
                index.tokens,
                graph,
                count,
            )->Ok_0,
        );
    }
}

/// Every declaration with a body in an indexed file is contained: the shard of the source file that
/// owns it has an edge to it from the innermost other declaration around its body, or from the source
/// file that the body is in where there is none, and, where it is exported, an edge that exports it
/// from that source file.
pub proof fn law_declarations_are_contained(
    files: Map<FileId, SourceFileModel>,
    index: StaticIndexModel,
    target: Seq<char>,
    interface_fingerprints: Map<Seq<char>, Seq<char>>,
    source_inputs: Map<FileId, Seq<char>>,
    owners: Map<Seq<char>, Seq<char>>,
    d: int,
    source: Seq<char>,
)
    requires
        index.tokens.len() <= usize::MAX,
        0 <= d < index.tokens.len(),
        index.tokens[d].definition_body is Some,
        is_indexed(index.files, index.tokens[d].definition_body->0.file_id),
        ({
            let start = GraphModel { owners, shards: empty_shards(files, index.files) };
            placements(files, sources_of(files, index.files), start, index.tokens)[d].1 == Some(
                source,
            )
        }),
    ensures
        ({
            let token = index.tokens[d];
            let body = token.definition_body->0;
            let file = file_identity(source_of(files, body.file_id));
            built(
                files,
                index,
                target,
                interface_fingerprints,
                source_inputs,
                owners,
            ) matches Ok(result) ==> {
                &&& forall|parent: int|
                    #[trigger] is_innermost_around(index.tokens, parent, body, Some(d))
                        ==> is_drawn(
                        result.shards,
                        source,
                        index.tokens[parent].stable_id,
                        token.stable_id,
                        "contains"@,
                    )
                &&& (forall|other: int|
                    #[trigger] surrounds(index.tokens, other, body) ==> other == d) ==> is_drawn(
                    result.shards,
                    source,
                    file,
                    token.stable_id,
                    "contains"@,
                )
                &&& token.exported ==> is_drawn(
                    result.shards,
                    source,
                    file,
                    token.stable_id,
                    "exports"@,
                )
            }
        }),
{
    if built(files, index, target, interface_fingerprints, source_inputs, owners) is Ok {
        let sources = sources_of(files, index.files);
        let start = GraphModel { owners, shards: empty_shards(files, index.files) };
        let placed = placements(files, sources, start, index.tokens);
        let count = index.tokens.len() as int;
        let definitions = definitions_of(sources, index.tokens, count);
        let related = relations_added(
            files,
            sources,
            referenced_graph(files, index, owners),
            index.relations,
            index.relations.len() as int,
        );
        let whole = whole_graph(files, index, owners);
        let token = index.tokens[d];
        let body = token.definition_body->0;
        lemma_late_stages(files, index, target, interface_fingerprints, source_inputs, owners);
        lemma_definitions_listed(sources, index.tokens, count);
        assert(sources.contains_key(body.file_id));
        assert(index.tokens[d].definition_body is Some);
        let i = choose|i: int|
            0 <= i < definitions.len() && (#[trigger] definitions[i]).token as int == d;
        let definition = definitions[i];
        assert(definition.body == body && definition.id == token.stable_id);
        lemma_definitions_on(files, index, placed, related, i, definitions.len() as int);
        lemma_definitions_on(files, index, placed, related, i + 1, definitions.len() as int);
        let before = definitions_contained(
            files,
            sources,
            definitions,
            placed,
            index.tokens,
            related,
            i,
        )->Ok_0;
        let after = definitions_contained(
            files,
            sources,
            definitions,
            placed,
            index.tokens,
            related,
            i + 1,
        )->Ok_0;
        assert(before.shards.contains_key(source));
        let file = file_node_id(sources[body.file_id]);
        let at = match token.definition {
            Some(range) => range,
            None => body,
        };
        let parent = match owner_of(definitions, body, Some(definition.token)) {
            Some(parent) => parent,
            None => file,
        };
        let first = GraphSnapshotEdgeModel {
            from: parent,
            to: definition.id,
            kind: "contains"@,
            evidence: evidence_of(files, at),
        };
        let contained = with_edge(before, source, first);
        lemma_edge_keeps(before, source, first);
        assert(contained.shards.dom().contains(source));
        let second = GraphSnapshotEdgeModel {
            from: file,
            to: definition.id,
            kind: "exports"@,
            evidence: evidence_of(files, at),
        };
        lemma_edge_keeps(contained, source, second);
        assert(contained.shards.contains_key(source));
        assert(has_edge(contained.shards[source].edges, parent, token.stable_id, "contains"@));
        assert(has_edge(after.shards[source].edges, parent, token.stable_id, "contains"@));
        assert(after.shards.dom().contains(source));
        lemma_keeps_on(
            after,
            definitions_contained(
                files,
                sources,
                definitions,
                placed,
                index.tokens,
                related,
                definitions.len() as int,
            )->Ok_0,
            whole,
        );
        lemma_stage_built(
            files,
            index,
            target,
            interface_fingerprints,
            source_inputs,
            owners,
            after,
            source,
        );
        let shards = built(
            files,
            index,
            target,
            interface_fingerprints,
            source_inputs,
            owners,
        )->Ok_0.shards;
        assert(is_drawn(shards, source, parent, token.stable_id, "contains"@));
        assert(d as usize == definition.token);
        assert forall|p: int|
            #[trigger] is_innermost_around(index.tokens, p, body, Some(d)) implies is_drawn(
            shards,
            source,
            index.tokens[p].stable_id,
            token.stable_id,
            "contains"@,
        ) by {
            lemma_innermost_owns(sources, index.tokens, body, Some(d), p);
        }
        if forall|other: int|
            #[trigger] surrounds(index.tokens, other, body) ==> other == d {
            lemma_nothing_owns(sources, index.tokens, body, Some(d));
        }
    }
}

proof fn lemma_relations_on(
    files: Map<FileId, SourceFileModel>,
    sources: Map<FileId, Seq<char>>,
    graph: GraphModel,
    relations: Seq<StaticRelationModel>,
    from: int,
    count: int,
)
    requires
        is_housed(sources, graph),
        0 <= from <= count,
    ensures
        keeps(
            relations_added(files, sources, graph, relations, from),
            relations_added(files, sources, graph, relations, count),
        ),
    decreases count - from,
{
    if from < count {
        lemma_relations_on(files, sources, graph, relations, from, count - 1);
        lemma_relations_keep(files, sources, graph, relations, count - 1);
        let before = relations_added(files, sources, graph, relations, count - 1);
        lemma_housed_on(sources, graph, before);
        lemma_relation_keeps(files, sources, before, relations[count - 1]);
        lemma_keeps_on(
            relations_added(files, sources, graph, relations, from),
            before,
            relations_added(files, sources, graph, relations, count),
        );
    }
}

/// Whether a declaration has a node: it has a name, and it is declared in the workspace or used in an
/// indexed file.
pub open spec fn has_node(index: StaticIndexModel, t: int, id: Seq<char>) -> bool {
    &&& 0 <= t < index.tokens.len()
    &&& index.tokens[t].stable_id == id
    &&& is_named(index.tokens[t])
    &&& (!index.tokens[t].external && index.tokens[t].definition is Some) || exists|r: int|
        #[trigger] is_use(index, t, r)
}

/// A declaration that has a node is known from then on.
proof fn lemma_known(
    files: Map<FileId, SourceFileModel>,
    index: StaticIndexModel,
    target: Seq<char>,
    interface_fingerprints: Map<Seq<char>, Seq<char>>,
    source_inputs: Map<FileId, Seq<char>>,
    owners: Map<Seq<char>, Seq<char>>,
    t: int,
    id: Seq<char>,
)
    requires
        built(files, index, target, interface_fingerprints, source_inputs, owners) is Ok,
        has_node(index, t, id),
    ensures
        referenced_graph(files, index, owners).owners.contains_key(id),
{
    let sources = sources_of(files, index.files);
    let start = GraphModel { owners, shards: empty_shards(files, index.files) };
    let count = index.tokens.len() as int;
    let token = index.tokens[t];
    let before = tokens_placed(files, sources, start, index.tokens, t);
    let after = tokens_placed(files, sources, start, index.tokens, t + 1);
    lemma_stages(files, index, target, interface_fingerprints, source_inputs, owners);
    if token.external || token.definition is None {
        let r = choose|r: int| #[trigger] is_use(index, t, r);
        lemma_used_is_placed(files, index, owners, t, r);
        assert(placements(files, sources, start, index.tokens)[t].0);
    } else {
        assert(token_owner(files, sources, before.owners, token) is Some);
        assert(token_node(files, token) is Some);
    }
    assert(after == token_placed(files, sources, before, token));
    assert(after.owners.contains_key(id));
    lemma_tokens_keep(files, sources, start, index.tokens, t + 1, count);
    let declared = tokens_placed(files, sources, start, index.tokens, count);
    assert(declared.owners.contains_key(id));
    lemma_files_keep(declared, ordered::<FileId, Seq<char>>(sources), 0, sources.len() as int);
    assert(named_graph(files, index, owners).owners.contains_key(id));
}

/// Every relation in an indexed file from a declaration that has a node makes an edge of its kind in
/// the shard of that file, where its target has a node or a name to be displayed with.
pub proof fn law_relations_are_drawn(
    files: Map<FileId, SourceFileModel>,
    index: StaticIndexModel,
    target: Seq<char>,
    interface_fingerprints: Map<Seq<char>, Seq<char>>,
    source_inputs: Map<FileId, Seq<char>>,
    owners: Map<Seq<char>, Seq<char>>,
    k: int,
    t: int,
    kind: Seq<char>,
)
    requires
        0 <= k < index.relations.len(),
        is_indexed(index.files, index.relations[k].file_id),
        has_node(index, t, index.relations[k].from),
        index.relations[k].to_display_name is Some || exists|o: int|
            #[trigger] has_node(index, o, index.relations[k].to),
        is_relation_kind(index.relations[k].kind, kind),
    ensures
        built(
            files,
            index,
            target,
            interface_fingerprints,
            source_inputs,
            owners,
        ) matches Ok(result) ==> is_drawn(
            result.shards,
            source_of(files, index.relations[k].file_id),
            index.relations[k].from,
            index.relations[k].to,
            kind,
        ),
{
    if built(files, index, target, interface_fingerprints, source_inputs, owners) is Ok {
        let sources = sources_of(files, index.files);
        let relation = index.relations[k];
        let source = source_of(files, relation.file_id);
        let named = named_graph(files, index, owners);
        let referenced = referenced_graph(files, index, owners);
        let n = index.relations.len() as int;
        let whole = whole_graph(files, index, owners);
        lemma_stages(files, index, target, interface_fingerprints, source_inputs, owners);
        lemma_late_stages(files, index, target, interface_fingerprints, source_inputs, owners);
        lemma_housed_on(sources, named, referenced);
        lemma_known(
            files,
            index,
            target,
            interface_fingerprints,
            source_inputs,
            owners,
            t,
            relation.from,
        );
        if relation.to_display_name is None {
            let o = choose|o: int| #[trigger] has_node(index, o, relation.to);
            lemma_known(
                files,
                index,
                target,
                interface_fingerprints,
                source_inputs,
                owners,
                o,
                relation.to,
            );
        }
        let before = relations_added(files, sources, referenced, index.relations, k);
        let after = relations_added(files, sources, referenced, index.relations, k + 1);
        lemma_relations_keep(files, sources, referenced, index.relations, k);
        lemma_housed_on(sources, referenced, before);
        assert(sources.contains_key(relation.file_id) && sources[relation.file_id] == source);
        assert(before.owners.contains_key(relation.from));
        let edge = relation_edge(relation);
        if before.owners.contains_key(relation.to) {
            lemma_edge_keeps(before, source, edge);
        } else {
            let name = relation.to_display_name->0;
            let owner = match target_source(files, relation) {
                Some(target) => target,
                None => source,
            };
            let node = target_node(files, relation, name);
            let added = with_node(before, owner, node);
            lemma_node_keeps(before, owner, node);
            lemma_housed_on(sources, before, added);
            lemma_edge_keeps(claimed(added, relation.to, owner), source, edge);
        }
        assert(has_edge(after.shards[source].edges, relation.from, relation.to, edge.kind));
        assert(edge.kind == kind);
        lemma_relations_on(files, sources, referenced, index.relations, k + 1, n);
        lemma_keeps_on(
            after,
            relations_added(files, sources, referenced, index.relations, n),
            whole,
        );
        lemma_relation_keeps(files, sources, before, relation);
        lemma_housed_on(sources, before, after);
        assert(after.shards.contains_key(sources[relation.file_id]));
        lemma_stage_built(
            files,
            index,
            target,
            interface_fingerprints,
            source_inputs,
            owners,
            after,
            source,
        );
    }
}

} // verus!
