//! Where the edges of references start, and where those to declarations do.

use vstd::prelude::*;

use crate::edges::{definitions_of, is_candidate, is_narrowest, owner_of, reference_owner};
use crate::files::{FileId, FileRange, SourceFileModel, source_of};
use crate::graph::{GraphModel, has_edge};
use crate::housing::{law_references_have_edges, reference_edge_kind, reference_from};
use crate::nodes::{
    empty_shards, first_reference_source, is_indexed, placements, sources_of, token_node,
    token_owner, token_placed, tokens_placed,
};
use crate::shards::built;
use crate::snapshot::GraphSnapshotShardModel;
use crate::static_index::{
    ReferenceDataModel, StaticIndexModel, StaticReferenceRole, TokenStaticDataModel,
};
use crate::text::decimal;

verus! {

/// Whether the shard of a source file has an edge of a kind from one node to another.
pub open spec fn is_drawn(
    shards: Seq<GraphSnapshotShardModel>,
    source: Seq<char>,
    from: Seq<char>,
    to: Seq<char>,
    kind: Seq<char>,
) -> bool {
    exists|s: int, e: int|
        0 <= s < shards.len() && shards[s].source == source && 0 <= e < shards[s].edges.len() && (
        #[trigger] shards[s].edges[e]).from == from && shards[s].edges[e].to == to
            && shards[s].edges[e].kind == kind
}

/// Whether the shard of a source file has the edge that a reference of a role makes.
pub open spec fn is_drawn_as(
    shards: Seq<GraphSnapshotShardModel>,
    source: Seq<char>,
    from: Seq<char>,
    to: Seq<char>,
    role: StaticReferenceRole,
) -> bool {
    &&& role == StaticReferenceRole::Access ==> is_drawn(shards, source, from, to, "accesses"@)
    &&& role == StaticReferenceRole::Call ==> is_drawn(shards, source, from, to, "calls"@)
    &&& role == StaticReferenceRole::Decorate ==> is_drawn(shards, source, from, to, "decorates"@)
    &&& role == StaticReferenceRole::Export ==> is_drawn(shards, source, from, to, "exports"@)
    &&& role == StaticReferenceRole::Import ==> is_drawn(shards, source, from, to, "imports"@)
    &&& role == StaticReferenceRole::Instantiate ==> is_drawn(
        shards,
        source,
        from,
        to,
        "instantiates"@,
    )
    &&& role == StaticReferenceRole::Reference ==> is_drawn(
        shards,
        source,
        from,
        to,
        "references"@,
    )
    &&& role == StaticReferenceRole::Type ==> is_drawn(shards, source, from, to, "type_ref"@)
}

/// Whether the body of a declaration holds a range.
pub open spec fn surrounds(tokens: Seq<TokenStaticDataModel>, d: int, range: FileRange) -> bool {
    &&& 0 <= d < tokens.len()
    &&& tokens[d].definition_body is Some
    &&& tokens[d].definition_body->0.file_id == range.file_id
    &&& tokens[d].definition_body->0.range.start <= range.range.start
    &&& range.range.end <= tokens[d].definition_body->0.range.end
}

/// How many bytes the body of a declaration has.
pub open spec fn extent(tokens: Seq<TokenStaticDataModel>, d: int) -> int {
    tokens[d].definition_body->0.range.end - tokens[d].definition_body->0.range.start
}

/// Whether a declaration, other than the excluded one, is the innermost one around a range: its body
/// holds the range, and every other body that does is larger, or as large and comes later.
pub open spec fn is_innermost_around(
    tokens: Seq<TokenStaticDataModel>,
    d: int,
    range: FileRange,
    excluded: Option<int>,
) -> bool {
    &&& surrounds(tokens, d, range)
    &&& excluded != Some(d)
    &&& forall|other: int| #[trigger]
        surrounds(tokens, other, range) && excluded != Some(other) ==> extent(tokens, d) < extent(
            tokens,
            other,
        ) || extent(tokens, d) == extent(tokens, other) && d <= other
}

/// Whether a declaration has a name to be displayed with, or a qualified one.
pub open spec fn is_named(token: TokenStaticDataModel) -> bool {
    token.display_name is Some || token.qualified_name is Some
}

/// Whether a reference stands in an indexed file and does not declare.
pub open spec fn is_use(index: StaticIndexModel, t: int, r: int) -> bool {
    &&& 0 <= t < index.tokens.len()
    &&& 0 <= r < index.tokens[t].references.len()
    &&& !index.tokens[t].references[r].is_definition
    &&& exists|f: int|
        0 <= f < index.files.len() && (#[trigger] index.files[f]).file_id
            == index.tokens[t].references[r].range.file_id
}

/// The identity of the node of a source file.
pub open spec fn file_identity(source: Seq<char>) -> Seq<char> {
    "rust-file-v1|"@ + decimal(vstd::utf8::encode_utf8(source).len()) + ":"@ + source
}

/// The bodies that are listed are those of the declarations in indexed files, in their order.
pub proof fn lemma_definitions_listed(
    sources: Map<FileId, Seq<char>>,
    tokens: Seq<TokenStaticDataModel>,
    count: int,
)
    requires
        0 <= count <= tokens.len() <= usize::MAX,
    ensures
        ({
            let found = definitions_of(sources, tokens, count);
            &&& forall|i: int|
                0 <= i < found.len() ==> {
                    let d = (#[trigger] found[i]).token as int;
                    &&& 0 <= d < count
                    &&& tokens[d].definition_body == Some(found[i].body)
                    &&& sources.contains_key(found[i].body.file_id)
                    &&& found[i].id == tokens[d].stable_id
                }
            &&& forall|i: int, j: int|
                0 <= i < j < found.len() ==> (#[trigger] found[i]).token < (
                #[trigger] found[j]).token
            &&& forall|d: int|
                0 <= d < count && (#[trigger] tokens[d]).definition_body is Some
                    && sources.contains_key(tokens[d].definition_body->0.file_id) ==> exists|i: int|
                    0 <= i < found.len() && (#[trigger] found[i]).token as int == d
        }),
    decreases count,
{
    if count > 0 {
        lemma_definitions_listed(sources, tokens, count - 1);
        let before = definitions_of(sources, tokens, count - 1);
        let found = definitions_of(sources, tokens, count);
        assert forall|d: int|
            0 <= d < count && (#[trigger] tokens[d]).definition_body is Some
                && sources.contains_key(tokens[d].definition_body->0.file_id) implies exists|i: int|
            0 <= i < found.len() && (#[trigger] found[i]).token as int == d by {
            if d < count - 1 {
                let i = choose|i: int|
                    0 <= i < before.len() && (#[trigger] before[i]).token as int == d;
                assert(found[i] == before[i]);
            } else {
                assert(found[before.len() as int].token as int == d);
            }
        }
        assert forall|i: int| 0 <= i < found.len() implies {
            let d = (#[trigger] found[i]).token as int;
            &&& 0 <= d < count
            &&& tokens[d].definition_body == Some(found[i].body)
            &&& sources.contains_key(found[i].body.file_id)
            &&& found[i].id == tokens[d].stable_id
        } by {
            if i < before.len() {
                assert(found[i] == before[i]);
            }
        }
        assert forall|i: int, j: int| 0 <= i < j < found.len() implies (#[trigger] found[i]).token
            < (#[trigger] found[j]).token by {
            assert(found[i] == before[i]);
            if j < before.len() {
                assert(found[j] == before[j]);
            }
        }
    }
}

/// The innermost declaration around a range in an indexed file is the one that owns it.
pub proof fn lemma_innermost_owns(
    sources: Map<FileId, Seq<char>>,
    tokens: Seq<TokenStaticDataModel>,
    range: FileRange,
    excluded: Option<int>,
    d: int,
)
    requires
        tokens.len() <= usize::MAX,
        sources.contains_key(range.file_id),
        excluded matches Some(other) ==> 0 <= other < tokens.len(),
        is_innermost_around(tokens, d, range, excluded),
    ensures
        owner_of(
            definitions_of(sources, tokens, tokens.len() as int),
            range,
            match excluded {
                Some(other) => Some(other as usize),
                None => None,
            },
        ) == Some(tokens[d].stable_id),
{
    let found = definitions_of(sources, tokens, tokens.len() as int);
    let but: Option<usize> = match excluded {
        Some(other) => Some(other as usize),
        None => None,
    };
    lemma_definitions_listed(sources, tokens, tokens.len() as int);
    let i = choose|i: int| 0 <= i < found.len() && (#[trigger] found[i]).token as int == d;
    assert(is_narrowest(found, range, but, i)) by {
        assert forall|j: int|
            0 <= j < found.len() && is_candidate(
                #[trigger] found[j],
                range,
                but,
            ) implies found[i].body.range.width() < found[j].body.range.width() || (
        found[i].body.range.width() == found[j].body.range.width() && i <= j) by {
            let other = found[j].token as int;
            assert(surrounds(tokens, other, range));
            if j < i {
                assert(found[j].token < found[i].token);
            }
        }
    }
    let chosen = choose|at: int| is_narrowest(found, range, but, at);
    assert(is_narrowest(found, range, but, chosen));
    assert(is_candidate(found[i], range, but) && is_candidate(found[chosen], range, but));
    assert(chosen == i);
}

/// A range in no body is owned by no declaration.
pub proof fn lemma_nothing_owns(
    sources: Map<FileId, Seq<char>>,
    tokens: Seq<TokenStaticDataModel>,
    range: FileRange,
    excluded: Option<int>,
)
    requires
        tokens.len() <= usize::MAX,
        excluded matches Some(other) ==> 0 <= other < tokens.len(),
        forall|d: int| #[trigger] surrounds(tokens, d, range) ==> excluded == Some(d),
    ensures
        owner_of(
            definitions_of(sources, tokens, tokens.len() as int),
            range,
            match excluded {
                Some(other) => Some(other as usize),
                None => None,
            },
        ) is None,
{
    let found = definitions_of(sources, tokens, tokens.len() as int);
    let but: Option<usize> = match excluded {
        Some(other) => Some(other as usize),
        None => None,
    };
    lemma_definitions_listed(sources, tokens, tokens.len() as int);
    assert forall|at: int| !is_narrowest(found, range, but, at) by {
        if is_narrowest(found, range, but, at) {
            assert(is_candidate(found[at], range, but));
            assert(surrounds(tokens, found[at].token as int, range));
        }
    }
}

proof fn lemma_first_reference(
    sources: Map<FileId, Seq<char>>,
    references: Seq<ReferenceDataModel>,
    r: int,
)
    requires
        0 <= r < references.len(),
        !references[r].is_definition,
        sources.contains_key(references[r].range.file_id),
    ensures
        first_reference_source(sources, references) is Some,
    decreases references.len(),
{
    if references[0].is_definition || !sources.contains_key(references[0].range.file_id) {
        assert(references.drop_first()[r - 1] == references[r]);
        lemma_first_reference(sources, references.drop_first(), r - 1);
    }
}

/// A declaration that has a name and is used in an indexed file has a node.
pub proof fn lemma_used_is_placed(
    files: Map<FileId, SourceFileModel>,
    index: StaticIndexModel,
    owners: Map<Seq<char>, Seq<char>>,
    t: int,
    r: int,
)
    requires
        is_use(index, t, r),
        is_named(index.tokens[t]),
    ensures
        ({
            let sources = sources_of(files, index.files);
            let start = GraphModel { owners, shards: empty_shards(files, index.files) };
            &&& sources.contains_key(index.tokens[t].references[r].range.file_id)
            &&& placements(files, sources, start, index.tokens)[t].0
        }),
{
    let sources = sources_of(files, index.files);
    let start = GraphModel { owners, shards: empty_shards(files, index.files) };
    let token = index.tokens[t];
    let before = tokens_placed(files, sources, start, index.tokens, t);
    assert(is_indexed(index.files, token.references[r].range.file_id));
    lemma_first_reference(sources, token.references, r);
    assert(token_owner(files, sources, before.owners, token) is Some);
    assert(token_node(files, token) is Some);
    assert(token_placed(files, sources, before, token).owners.contains_key(token.stable_id));
}

proof fn lemma_drawn(
    shards: Seq<GraphSnapshotShardModel>,
    source: Seq<char>,
    from: Seq<char>,
    to: Seq<char>,
    kind: Seq<char>,
)
    requires
        exists|i: int|
            0 <= i < shards.len() && (#[trigger] shards[i]).source == source && has_edge(
                shards[i].edges,
                from,
                to,
                kind,
            ),
    ensures
        is_drawn(shards, source, from, to, kind),
{
    let s = choose|i: int|
        0 <= i < shards.len() && (#[trigger] shards[i]).source == source && has_edge(
            shards[i].edges,
            from,
            to,
            kind,
        );
    let e = choose|e: int|
        0 <= e < shards[s].edges.len() && (#[trigger] shards[s].edges[e]).from == from
            && shards[s].edges[e].to == to && shards[s].edges[e].kind == kind;
    assert(shards[s].edges[e].from == from);
}

/// Every use of a declaration that has a name makes an edge, in the shard of the source file that it
/// stands in, from the innermost declaration around it. A use that exports is left out, and so is one
/// that exports under an alias.
pub proof fn law_uses_start_from_the_innermost(
    files: Map<FileId, SourceFileModel>,
    index: StaticIndexModel,
    target: Seq<char>,
    interface_fingerprints: Map<Seq<char>, Seq<char>>,
    source_inputs: Map<FileId, Seq<char>>,
    owners: Map<Seq<char>, Seq<char>>,
    t: int,
    r: int,
    d: int,
)
    requires
        index.tokens.len() <= usize::MAX,
        is_use(index, t, r),
        is_named(index.tokens[t]),
        index.tokens[t].references[r].export is None,
        index.tokens[t].references[r].role != StaticReferenceRole::Export,
        is_innermost_around(index.tokens, d, index.tokens[t].references[r].range, None),
    ensures
        built(
            files,
            index,
            target,
            interface_fingerprints,
            source_inputs,
            owners,
        ) matches Ok(result) ==> is_drawn_as(
            result.shards,
            source_of(files, index.tokens[t].references[r].range.file_id),
            index.tokens[d].stable_id,
            index.tokens[t].stable_id,
            index.tokens[t].references[r].role,
        ),
{
    let sources = sources_of(files, index.files);
    let reference = index.tokens[t].references[r];
    let definitions = definitions_of(sources, index.tokens, index.tokens.len() as int);
    lemma_used_is_placed(files, index, owners, t, r);
    lemma_innermost_owns(sources, index.tokens, reference.range, None, d);
    assert(reference_owner(definitions, sources[reference.range.file_id], reference)
        == index.tokens[d].stable_id);
    law_references_have_edges(
        files,
        index,
        target,
        interface_fingerprints,
        source_inputs,
        owners,
        t,
        r,
    );
    match built(files, index, target, interface_fingerprints, source_inputs, owners) {
        Ok(result) => {
            lemma_drawn(
                result.shards,
                source_of(files, reference.range.file_id),
                reference_from(sources, definitions, reference),
                index.tokens[t].stable_id,
                reference_edge_kind(reference),
            );
        },
        Err(_) => {},
    }
}

/// A use that exports, and one around which there is no declaration, makes its edge from the source
/// file that it stands in.
pub proof fn law_other_uses_start_from_the_file(
    files: Map<FileId, SourceFileModel>,
    index: StaticIndexModel,
    target: Seq<char>,
    interface_fingerprints: Map<Seq<char>, Seq<char>>,
    source_inputs: Map<FileId, Seq<char>>,
    owners: Map<Seq<char>, Seq<char>>,
    t: int,
    r: int,
)
    requires
        index.tokens.len() <= usize::MAX,
        is_use(index, t, r),
        is_named(index.tokens[t]),
        index.tokens[t].references[r].export is None,
        index.tokens[t].references[r].role == StaticReferenceRole::Export || forall|d: int|
            !#[trigger] surrounds(index.tokens, d, index.tokens[t].references[r].range),
    ensures
        built(
            files,
            index,
            target,
            interface_fingerprints,
            source_inputs,
            owners,
        ) matches Ok(result) ==> is_drawn_as(
            result.shards,
            source_of(files, index.tokens[t].references[r].range.file_id),
            file_identity(source_of(files, index.tokens[t].references[r].range.file_id)),
            index.tokens[t].stable_id,
            index.tokens[t].references[r].role,
        ),
{
    let sources = sources_of(files, index.files);
    let reference = index.tokens[t].references[r];
    let definitions = definitions_of(sources, index.tokens, index.tokens.len() as int);
    lemma_used_is_placed(files, index, owners, t, r);
    if reference.role != StaticReferenceRole::Export {
        lemma_nothing_owns(sources, index.tokens, reference.range, None);
    }
    assert(reference_owner(definitions, sources[reference.range.file_id], reference)
        == file_identity(source_of(files, reference.range.file_id)));
    law_references_have_edges(
        files,
        index,
        target,
        interface_fingerprints,
        source_inputs,
        owners,
        t,
        r,
    );
    match built(files, index, target, interface_fingerprints, source_inputs, owners) {
        Ok(result) => {
            lemma_drawn(
                result.shards,
                source_of(files, reference.range.file_id),
                reference_from(sources, definitions, reference),
                index.tokens[t].stable_id,
                reference_edge_kind(reference),
            );
        },
        Err(_) => {},
    }
}

} // verus!
